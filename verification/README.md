# architect

The verified core of Architect, a cluster in which one coordinating client
hands AI tasks to agents on the machines of a LAN.

- `src/` is the library, written in Verus: every function has a contract and
  is proved against it. It holds the command language and the command bar,
  the coordinator's task table and agent table, what each command and each
  agent report does to the client's state, the agent's own decisions, the
  beacon frame, configuration paths and defaults, discovery, bootstrap
  planning and the commands it sends, session admission and rate limiting,
  and the certificates of the cluster. Calls into `uuid`, `data-encoding`,
  `rcgen` and a few std functions (`String::push`, `str::to_lowercase`,
  `Debug` formatting) go through small trusted wrappers. Each contract
  states only what the called code's source or documentation shows. Some
  state a little (that a PEM text opens with its header). Some name a
  result without a formula. Where the result rests on chance, a
  contract states only what holds of every outcome. For a fresh key that is
  nothing; for a fresh UUID it is the version and variant bits.
- `tests/` exercises the library from outside.
- `app/` is a console for the coordinating client: it reads the
  configuration file, broadcasts the beacon, serves the health endpoint,
  scans subnets, and runs command lines through the library, printing the
  activity log.
