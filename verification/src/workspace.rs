//! The workspace view's node selection: the nodes in display order (the
//! client first, then the agents by id) and how the keys move through them.
use vstd::prelude::*;

verus! {

/// A key as the workspace reads it.
#[derive(Debug, Clone, Copy, PartialEq, Eq, Structural)]
pub enum NavKey {
    Up,
    Down,
    Left,
    Right,
    Enter,
    Char(char),
    Other,
}

/// What a key asks of the client.
#[derive(Debug, Clone, Copy, PartialEq, Eq, Structural)]
pub enum WorkspaceAction {
    NoAction,
    OpenInfo(u128),
}

/// The selection in the workspace.
pub struct WorkspaceState {
    pub selected_node: Option<u128>,
    pub selection_index: usize,
    pub node_order: Vec<u128>,
}

/// `s` is in increasing order.
pub open spec fn sorted(s: Seq<u128>) -> bool {
    forall|i: int, j: int| 0 <= i < j < s.len() ==> s[i] <= s[j]
}

/// The display order: the client, then the agents by increasing id.
pub open spec fn is_node_order(order: Seq<u128>, client: u128, agents: Seq<u128>) -> bool {
    &&& order.len() == agents.len() + 1
    &&& order[0] == client
    &&& sorted(order.skip(1))
    &&& order.skip(1).to_multiset() == agents.to_multiset()
}

/// The position after `i` in a list of `n`, wrapping around.
pub open spec fn next_index(i: nat, n: nat) -> nat {
    ((i + 1) as nat % n) as nat
}

/// The position before `i` in a list of `n`, wrapping around.
pub open spec fn prev_index(i: nat, n: nat) -> nat {
    if i == 0 { (n - 1) as nat } else { (i - 1) as nat }
}

/// Whether a key moves the selection back (up, left, `k`, `h`) or forward
/// (down, right, `j`, `l`).
pub open spec fn moves_back(k: NavKey) -> bool {
    k == NavKey::Up || k == NavKey::Left || k == NavKey::Char('k') || k == NavKey::Char('h')
}

pub open spec fn moves_forward(k: NavKey) -> bool {
    k == NavKey::Down || k == NavKey::Right || k == NavKey::Char('j') || k == NavKey::Char('l')
}

/// Sorts ids into increasing order.
fn sort_ids(v: Vec<u128>) -> (r: Vec<u128>)
    ensures
        sorted(r@),
        r@.to_multiset() == v@.to_multiset(),
{
    let mut out: Vec<u128> = Vec::new();
    let mut i: usize = 0;
    proof {
        assert(v@.take(0) =~= Seq::<u128>::empty());
    }
    while i < v.len()
        invariant
            i <= v@.len(),
            sorted(out@),
            out@.to_multiset() == v@.take(i as int).to_multiset(),
        decreases v@.len() - i,
    {
        let x = v[i];
        let mut j: usize = 0;
        while j < out.len() && out[j] <= x
            invariant
                j <= out@.len(),
                forall|k: int| 0 <= k < j ==> out@[k] <= x,
            decreases out@.len() - j,
        {
            j = j + 1;
        }
        let ghost before = out@;
        out.insert(j, x);
        proof {
            assert(out@ =~= before.take(j as int).push(x) + before.skip(j as int));
            assert(sorted(out@)) by {
                assert forall|a: int, b: int| 0 <= a < b < out@.len() implies out@[a] <= out@[b] by {
                    if b < j {
                    } else if b == j {
                        assert(out@[a] == before[a]);
                    } else if a < j {
                        assert(out@[b] == before[b - 1]);
                        if j < before.len() {
                            assert(before[j as int] > x);
                        }
                    } else if a == j {
                        assert(out@[b] == before[b - 1]);
                        assert(before[j as int] > x);
                        assert(before[j as int] <= before[b - 1]);
                    } else {
                        assert(out@[a] == before[a - 1]);
                        assert(out@[b] == before[b - 1]);
                    }
                }
            }
            assert(before =~= before.take(j as int) + before.skip(j as int));
            vstd::seq_lib::lemma_multiset_commutative(before.take(j as int), before.skip(j as int));
            vstd::seq_lib::lemma_multiset_commutative(before.take(j as int).push(x), before.skip(j as int));
            before.take(j as int).to_multiset_ensures();
            v@.take(i as int).to_multiset_ensures();
            assert(v@.take(i + 1) =~= v@.take(i as int).push(x));
            assert(out@.to_multiset() =~= before.to_multiset().insert(x));
        }
        i = i + 1;
    }
    proof {
        assert(v@.take(v@.len() as int) =~= v@);
    }
    out
}

impl WorkspaceState {
    /// A workspace showing the client alone, selected.
    pub fn new(client_id: u128) -> (r: Self)
        ensures
            r.selected_node == Some(client_id),
            r.selection_index == 0,
            r.node_order@ == seq![client_id],
    {
        WorkspaceState { selected_node: Some(client_id), selection_index: 0, node_order: vec![client_id] }
    }

    /// Puts the nodes in display order; when the selected node is gone, the
    /// client is selected.
    pub fn update_layout(&mut self, client_id: u128, agents: Vec<u128>)
        ensures
            is_node_order(final(self).node_order@, client_id, agents@),
            (old(self).selected_node matches Some(s) && !final(self).node_order@.contains(s)) ==>
                final(self).selection_index == 0 && final(self).selected_node == Some(client_id),
            !(old(self).selected_node matches Some(s) && !final(self).node_order@.contains(s)) ==>
                final(self).selection_index == old(self).selection_index
                && final(self).selected_node == old(self).selected_node,
    {
        let ghost ag = agents@;
        let sorted_ids = sort_ids(agents);
        let mut order: Vec<u128> = vec![client_id];
        let mut k: usize = 0;
        while k < sorted_ids.len()
            invariant
                k <= sorted_ids@.len(),
                order@.len() == k + 1,
                order@[0] == client_id,
                order@.skip(1) =~= sorted_ids@.take(k as int),
            decreases sorted_ids@.len() - k,
        {
            order.push(sorted_ids[k]);
            k = k + 1;
            proof {
                assert(order@.skip(1) =~= sorted_ids@.take(k as int));
            }
        }
        proof {
            assert(sorted_ids@.take(sorted_ids@.len() as int) =~= sorted_ids@);
            sorted_ids@.to_multiset_ensures();
            ag.to_multiset_ensures();
            assert(is_node_order(order@, client_id, ag));
        }
        self.node_order = order;
        if let Some(sel) = self.selected_node {
            if !contains_id(&self.node_order, sel) {
                self.selection_index = 0;
                self.selected_node = Some(self.node_order[0]);
            }
        }
    }

    /// Selects the next node, wrapping around; nothing happens with no nodes.
    pub fn select_next(&mut self)
        requires
            old(self).selection_index < usize::MAX,
        ensures
            old(self).node_order@.len() == 0 ==> *final(self) == *old(self),
            old(self).node_order@.len() > 0 ==> {
                let i = next_index(old(self).selection_index as nat, old(self).node_order@.len());
                &&& final(self).selection_index == i
                &&& final(self).selected_node == Some(old(self).node_order@[i as int])
                &&& final(self).node_order == old(self).node_order
            },
    {
        if self.node_order.len() == 0 {
            return;
        }
        self.selection_index = (self.selection_index + 1) % self.node_order.len();
        self.selected_node = Some(self.node_order[self.selection_index]);
    }

    /// Selects the previous node, wrapping around; nothing happens with no
    /// nodes. The position must lie within the list or just past it (further
    /// out, the node before it does not exist).
    pub fn select_prev(&mut self)
        requires
            old(self).node_order@.len() > 0 ==> old(self).selection_index <= old(self).node_order@.len(),
        ensures
            old(self).node_order@.len() == 0 ==> *final(self) == *old(self),
            old(self).node_order@.len() > 0 ==> {
                let i = prev_index(old(self).selection_index as nat, old(self).node_order@.len());
                &&& final(self).selection_index == i
                &&& final(self).selected_node == Some(old(self).node_order@[i as int])
                &&& final(self).node_order == old(self).node_order
            },
    {
        if self.node_order.len() == 0 {
            return;
        }
        if self.selection_index == 0 {
            self.selection_index = self.node_order.len() - 1;
        } else {
            self.selection_index = self.selection_index - 1;
        }
        self.selected_node = Some(self.node_order[self.selection_index]);
    }

    /// Handles a key: back and forward keys move the selection, Enter opens
    /// the selected node's info view.
    pub fn handle_key(&mut self, key: NavKey) -> (r: WorkspaceAction)
        requires
            old(self).selection_index < usize::MAX,
            old(self).node_order@.len() > 0 ==> old(self).selection_index <= old(self).node_order@.len(),
        ensures
            moves_back(key) ==> r == WorkspaceAction::NoAction && final(self).node_order == old(self).node_order
                && (old(self).node_order@.len() == 0 ==> *final(self) == *old(self))
                && (old(self).node_order@.len() > 0 ==> {
                    let i = prev_index(old(self).selection_index as nat, old(self).node_order@.len());
                    final(self).selection_index == i && final(self).selected_node == Some(old(self).node_order@[i as int])
                }),
            moves_forward(key) ==> r == WorkspaceAction::NoAction && final(self).node_order == old(self).node_order
                && (old(self).node_order@.len() == 0 ==> *final(self) == *old(self))
                && (old(self).node_order@.len() > 0 ==> {
                    let i = next_index(old(self).selection_index as nat, old(self).node_order@.len());
                    final(self).selection_index == i && final(self).selected_node == Some(old(self).node_order@[i as int])
                }),
            !moves_back(key) && !moves_forward(key) ==> *final(self) == *old(self) && r == (match (key, old(self).selected_node) {
                (NavKey::Enter, Some(id)) => WorkspaceAction::OpenInfo(id),
                _ => WorkspaceAction::NoAction,
            }),
    {
        match key {
            NavKey::Up | NavKey::Left | NavKey::Char('k') | NavKey::Char('h') => {
                self.select_prev();
                WorkspaceAction::NoAction
            },
            NavKey::Down | NavKey::Right | NavKey::Char('j') | NavKey::Char('l') => {
                self.select_next();
                WorkspaceAction::NoAction
            },
            NavKey::Enter => match self.selected_node {
                Some(id) => WorkspaceAction::OpenInfo(id),
                None => WorkspaceAction::NoAction,
            },
            _ => WorkspaceAction::NoAction,
        }
    }
}

fn contains_id(v: &Vec<u128>, id: u128) -> (r: bool)
    ensures
        r == v@.contains(id),
{
    let mut i: usize = 0;
    while i < v.len()
        invariant
            i <= v@.len(),
            forall|k: int| 0 <= k < i ==> v@[k] != id,
        decreases v@.len() - i,
    {
        if v[i] == id {
            assert(v@[i as int] == id);
            return true;
        }
        i = i + 1;
    }
    false
}

/// Moving forward then back returns to the same position, and back then
/// forward too, in a list of at least one node.
pub proof fn lemma_next_prev_inverse(i: nat, n: nat)
    requires
        n > 0,
        i < n,
    ensures
        prev_index(next_index(i, n), n) == i,
        next_index(prev_index(i, n), n) == i,
        next_index(i, n) < n,
        prev_index(i, n) < n,
{
    if i + 1 < n {
        assert((i + 1) as nat % n == i + 1) by (nonlinear_arith)
            requires
                i + 1 < n,
                0 <= i;
    } else {
        assert((i + 1) as nat % n == 0) by (nonlinear_arith)
            requires
                i + 1 == n,
                n > 0;
    }
    if i == 0 {
        assert(((n - 1) + 1) as nat % n == 0) by (nonlinear_arith)
            requires
                n > 0;
    } else {
        assert(((i - 1) + 1) as nat % n == i) by (nonlinear_arith)
            requires
                0 < i < n;
    }
}


/// The view the client shows.
#[derive(Debug, Clone, Copy, PartialEq, Eq, Structural)]
pub enum ActiveView {
    Workspace,
    Info(u128),
}

/// A key as the client reads it.
#[derive(Debug, Clone, Copy, PartialEq, Eq, Structural)]
pub enum UiKey {
    Esc,
    Enter,
    Backspace,
    Tab,
    Up,
    Down,
    Left,
    Right,
    Char(char),
    Other,
}

/// Who handles a key, and how.
#[derive(Debug, Clone, Copy, PartialEq, Eq, Structural)]
pub enum KeyRoute {
    /// The command bar closes its popup.
    ClosePopup,
    /// The command bar closes.
    Deactivate,
    /// The command bar's line is submitted and run.
    Submit,
    DeleteChar,
    TabComplete,
    PopupUp,
    PopupDown,
    InsertChar(char),
    /// The command bar opens, in the workspace's context.
    ActivateBar,
    /// The workspace handles the key.
    Workspace(NavKey),
    /// The info view closes and the workspace shows again.
    BackToWorkspace,
    Ignore,
}

/// The workspace's reading of a key.
pub open spec fn nav_of(k: UiKey) -> NavKey {
    match k {
        UiKey::Up => NavKey::Up,
        UiKey::Down => NavKey::Down,
        UiKey::Left => NavKey::Left,
        UiKey::Right => NavKey::Right,
        UiKey::Enter => NavKey::Enter,
        UiKey::Char(c) => NavKey::Char(c),
        _ => NavKey::Other,
    }
}

/// The route of a key: an open command bar takes every key; otherwise `:`
/// opens it from the workspace, the workspace moves its selection, and Esc
/// leaves an info view.
pub open spec fn spec_route_key(bar_active: bool, popup_open: bool, view: ActiveView, key: UiKey) -> KeyRoute {
    if bar_active {
        match key {
            UiKey::Esc => if popup_open { KeyRoute::ClosePopup } else { KeyRoute::Deactivate },
            UiKey::Enter => KeyRoute::Submit,
            UiKey::Backspace => KeyRoute::DeleteChar,
            UiKey::Tab => KeyRoute::TabComplete,
            UiKey::Up => KeyRoute::PopupUp,
            UiKey::Down => KeyRoute::PopupDown,
            UiKey::Char(c) => KeyRoute::InsertChar(c),
            _ => KeyRoute::Ignore,
        }
    } else {
        match view {
            ActiveView::Workspace => if key == UiKey::Char(':') { KeyRoute::ActivateBar } else { KeyRoute::Workspace(nav_of(key)) },
            ActiveView::Info(_) => if key == UiKey::Esc { KeyRoute::BackToWorkspace } else { KeyRoute::Ignore },
        }
    }
}

/// Routes a key: see `spec_route_key`.
pub fn route_key(bar_active: bool, popup_open: bool, view: ActiveView, key: UiKey) -> (r: KeyRoute)
    ensures
        r == spec_route_key(bar_active, popup_open, view, key),
{
    if bar_active {
        return match key {
            UiKey::Esc => if popup_open { KeyRoute::ClosePopup } else { KeyRoute::Deactivate },
            UiKey::Enter => KeyRoute::Submit,
            UiKey::Backspace => KeyRoute::DeleteChar,
            UiKey::Tab => KeyRoute::TabComplete,
            UiKey::Up => KeyRoute::PopupUp,
            UiKey::Down => KeyRoute::PopupDown,
            UiKey::Char(c) => KeyRoute::InsertChar(c),
            _ => KeyRoute::Ignore,
        };
    }
    match view {
        ActiveView::Workspace => {
            if key == UiKey::Char(':') {
                KeyRoute::ActivateBar
            } else {
                let nav = match key {
                    UiKey::Up => NavKey::Up,
                    UiKey::Down => NavKey::Down,
                    UiKey::Left => NavKey::Left,
                    UiKey::Right => NavKey::Right,
                    UiKey::Enter => NavKey::Enter,
                    UiKey::Char(c) => NavKey::Char(c),
                    _ => NavKey::Other,
                };
                KeyRoute::Workspace(nav)
            }
        },
        ActiveView::Info(_) => if key == UiKey::Esc { KeyRoute::BackToWorkspace } else { KeyRoute::Ignore },
    }
}

} // verus!
