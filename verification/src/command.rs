//! The command language of the client's command bar: tokenizer, flag
//! helpers and the parser that turns a line into a `Command`.
use vstd::prelude::*;
use crate::numparse::{parse_u32, parse_u64, parse_unsigned};
use crate::text::{
    char_is_whitespace, chars_of, lowercase_of, opt_view, owned, push_str, seq_starts_with,
    spec_is_whitespace, str_eq, str_starts_with, string_from_chars, to_lowercase, trim, trim_seq,
    views,
};

verus! {

// ---------------------------------------------------------------------------
// Tokenizer
// ---------------------------------------------------------------------------

/// State of the tokenizer: tokens so far, the token being built, whether a
/// quote is open and which quote character opened it.
pub type TokState = (Seq<Seq<char>>, Seq<char>, bool, char);

pub open spec fn tok_init() -> TokState {
    (Seq::empty(), Seq::empty(), false, '"')
}

/// One character of input: inside quotes everything but the closing quote is
/// kept; outside, a quote opens a quoted run and whitespace ends a token.
pub open spec fn tok_step(st: TokState, ch: char) -> TokState {
    let (tokens, current, in_quote, quote_char) = st;
    if in_quote {
        if ch == quote_char {
            (tokens, current, false, quote_char)
        } else {
            (tokens, current.push(ch), true, quote_char)
        }
    } else if ch == '"' || ch == '\'' {
        (tokens, current, true, ch)
    } else if spec_is_whitespace(ch) {
        if current.len() > 0 {
            (tokens.push(current), Seq::empty(), false, quote_char)
        } else {
            st
        }
    } else {
        (tokens, current.push(ch), false, quote_char)
    }
}

pub open spec fn tok_run(s: Seq<char>) -> TokState
    decreases s.len(),
{
    if s.len() == 0 {
        tok_init()
    } else {
        tok_step(tok_run(s.drop_last()), s.last())
    }
}

/// The tokens of a line: whitespace-separated words, where a run between
/// matching single or double quotes is taken literally (quotes removed).
pub open spec fn spec_tokenize(s: Seq<char>) -> Seq<Seq<char>> {
    let st = tok_run(s);
    if st.1.len() > 0 {
        st.0.push(st.1)
    } else {
        st.0
    }
}

/// Where the tokens of a line end, one index per closed token: that of the
/// whitespace that closed it.
pub open spec fn ends_run(s: Seq<char>) -> Seq<int>
    decreases s.len(),
{
    if s.len() == 0 {
        Seq::empty()
    } else {
        let st = tok_run(s.drop_last());
        let ch = s.last();
        if !st.2 && !(ch == '"' || ch == '\'') && spec_is_whitespace(ch) && st.1.len() > 0 {
            ends_run(s.drop_last()).push(s.len() - 1)
        } else {
            ends_run(s.drop_last())
        }
    }
}

/// For each token of a line, the index just past the text it was read from:
/// the whitespace that closed it, or the end of the line for the last one.
pub open spec fn spec_token_ends(s: Seq<char>) -> Seq<int> {
    if tok_run(s).1.len() > 0 {
        ends_run(s).push(s.len() as int)
    } else {
        ends_run(s)
    }
}

/// Splits a line into tokens, honouring single and double quotes.
pub fn tokenize(input: &str) -> (r: Vec<String>)
    ensures
        views(r@) == spec_tokenize(input@),
{
    let (tokens, _ends) = tokenize_with_ends(input);
    tokens
}

/// The tokens of a line together with where each one ends in the line.
fn tokenize_with_ends(input: &str) -> (r: (Vec<String>, Vec<usize>))
    ensures
        views(r.0@) == spec_tokenize(input@),
        r.1@.len() == r.0@.len(),
        r.1@.map_values(|e: usize| e as int) == spec_token_ends(input@),
        forall|k: int| 0 <= k < r.1@.len() ==> #[trigger] r.1@[k] <= input@.len(),
{
    let chars = chars_of(input);
    let mut tokens: Vec<String> = Vec::new();
    let mut ends: Vec<usize> = Vec::new();
    let mut current: Vec<char> = Vec::new();
    let mut in_quote = false;
    let mut quote_char = '"';
    let mut i: usize = 0;
    while i < chars.len()
        invariant
            chars@ == input@,
            i <= chars@.len(),
            (views(tokens@), current@, in_quote, quote_char) == tok_run(input@.take(i as int)),
            ends@.map_values(|e: usize| e as int) == ends_run(input@.take(i as int)),
            ends@.len() == tokens@.len(),
            forall|k: int| 0 <= k < ends@.len() ==> #[trigger] ends@[k] < i,
        decreases chars@.len() - i,
    {
        let ch = chars[i];
        proof {
            assert(input@.take(i + 1).drop_last() =~= input@.take(i as int));
            assert(input@.take(i + 1).last() == ch);
        }
        if in_quote {
            if ch == quote_char {
                in_quote = false;
            } else {
                current.push(ch);
            }
        } else if ch == '"' || ch == '\'' {
            in_quote = true;
            quote_char = ch;
        } else if char_is_whitespace(ch) {
            if current.len() > 0 {
                let tok = string_from_chars(current.as_slice());
                let ghost old_tokens = tokens@;
                let ghost old_ends = ends@;
                tokens.push(tok);
                ends.push(i);
                proof {
                    assert(views(tokens@) =~= views(old_tokens).push(current@));
                    assert(ends@.map_values(|e: usize| e as int) =~= old_ends.map_values(|e: usize| e as int).push(i as int));
                }
                current = Vec::new();
            }
        } else {
            current.push(ch);
        }
        i = i + 1;
    }
    assert(input@.take(chars@.len() as int) =~= input@);
    if current.len() > 0 {
        let tok = string_from_chars(current.as_slice());
        let ghost old_tokens = tokens@;
        let ghost old_ends = ends@;
        tokens.push(tok);
        ends.push(chars.len());
        assert(views(tokens@) =~= views(old_tokens).push(current@));
        assert(ends@.map_values(|e: usize| e as int) =~= old_ends.map_values(|e: usize| e as int).push(input@.len() as int));
    }
    (tokens, ends)
}

// ---------------------------------------------------------------------------
// Flag helpers
// ---------------------------------------------------------------------------

/// The token after the first occurrence of `flag`, if there is one.
pub open spec fn flag_value(toks: Seq<Seq<char>>, flag: Seq<char>) -> Option<Seq<char>>
    decreases toks.len(),
{
    if toks.len() == 0 {
        None
    } else if toks[0] == flag {
        if toks.len() > 1 {
            Some(toks[1])
        } else {
            None
        }
    } else {
        flag_value(toks.drop_first(), flag)
    }
}

/// The first token that is neither a `--flag` nor the value that follows one.
pub open spec fn positional(toks: Seq<Seq<char>>) -> Option<Seq<char>>
    decreases toks.len(),
{
    if toks.len() == 0 {
        None
    } else if seq_starts_with(toks[0], "--"@) {
        if toks.len() >= 2 {
            positional(toks.skip(2))
        } else {
            None
        }
    } else {
        Some(toks[0])
    }
}

/// The value that follows `flag` among the tokens.
pub fn get_flag(tokens: &[String], flag: &str) -> (r: Option<String>)
    ensures
        opt_view(r) == flag_value(views(tokens@), flag@),
{
    let ghost toks = views(tokens@);
    assert(toks.skip(0) =~= toks);
    let mut i: usize = 0;
    while i < tokens.len()
        invariant
            toks == views(tokens@),
            i <= tokens@.len(),
            flag_value(toks, flag@) == flag_value(toks.skip(i as int), flag@),
        decreases tokens@.len() - i,
    {
        assert(toks.skip(i as int)[0] == tokens@[i as int]@);
        if str_eq(tokens[i].as_str(), flag) {
            if i + 1 < tokens.len() {
                assert(toks.skip(i as int)[1] == tokens@[i + 1]@);
                return Some(tokens[i + 1].clone());
            } else {
                return None;
            }
        }
        assert(toks.skip(i as int).drop_first() =~= toks.skip(i + 1));
        i = i + 1;
    }
    None
}

/// The value that follows `flag`, read as a `u32`.
pub fn get_flag_u32(tokens: &[String], flag: &str) -> (r: Option<u32>)
    ensures
        r == flag_u32(views(tokens@), flag@),
{
    match get_flag(tokens, flag) {
        Some(v) => parse_u32(v.as_str()),
        None => None,
    }
}

/// The value that follows `flag`, read as a `u64`.
pub fn get_flag_u64(tokens: &[String], flag: &str) -> (r: Option<u64>)
    ensures
        r == flag_u64(views(tokens@), flag@),
{
    match get_flag(tokens, flag) {
        Some(v) => parse_u64(v.as_str()),
        None => None,
    }
}

pub open spec fn to_u32(o: Option<int>) -> Option<u32> {
    match o {
        Some(v) => Some(v as u32),
        None => None,
    }
}

pub open spec fn to_u64(o: Option<int>) -> Option<u64> {
    match o {
        Some(v) => Some(v as u64),
        None => None,
    }
}

pub open spec fn flag_u32(toks: Seq<Seq<char>>, flag: Seq<char>) -> Option<u32> {
    match flag_value(toks, flag) {
        Some(v) => to_u32(parse_unsigned(v, u32::MAX as int)),
        None => None,
    }
}

pub open spec fn flag_u64(toks: Seq<Seq<char>>, flag: Seq<char>) -> Option<u64> {
    match flag_value(toks, flag) {
        Some(v) => to_u64(parse_unsigned(v, u64::MAX as int)),
        None => None,
    }
}

/// The first positional argument: the first token that is not a flag or a flag's value.
pub fn get_positional(tokens: &[String]) -> (r: Option<String>)
    ensures
        opt_view(r) == positional(views(tokens@)),
{
    let ghost toks = views(tokens@);
    assert(toks.skip(0) =~= toks);
    let mut i: usize = 0;
    while i < tokens.len()
        invariant
            toks == views(tokens@),
            i <= tokens@.len(),
            positional(toks) == positional(toks.skip(i as int)),
        decreases tokens@.len() - i,
    {
        assert(toks.skip(i as int)[0] == tokens@[i as int]@);
        if str_starts_with(tokens[i].as_str(), "--") {
            if i + 1 < tokens.len() {
                assert(toks.skip(i as int).skip(2) =~= toks.skip(i + 2));
                i = i + 2;
            } else {
                return None;
            }
        } else {
            return Some(tokens[i].clone());
        }
    }
    assert(toks.skip(i as int).len() == 0);
    None
}


// ---------------------------------------------------------------------------
// Commands
// ---------------------------------------------------------------------------

/// Arguments of `train`. Floating-point options are kept as typed; the
/// caller reads them as numbers.
#[derive(Debug)]
pub struct TrainArgs {
    pub dataset: String,
    pub epochs: Option<u32>,
    pub lr: Option<String>,
    pub batch_size: Option<u32>,
    pub output: Option<String>,
    pub max_ram_mb: Option<u64>,
    pub max_cpu_pct: Option<String>,
}

/// Arguments of `finetune`; floating-point options are kept as typed.
#[derive(Debug)]
pub struct FinetuneArgs {
    pub base_model: String,
    pub dataset: String,
    pub adapter: Option<String>,
    pub epochs: Option<u32>,
    pub lr: Option<String>,
    pub batch_size: Option<u32>,
    pub output: Option<String>,
    pub max_ram_mb: Option<u64>,
    pub max_cpu_pct: Option<String>,
}

/// Arguments of `infer`; the temperature is kept as typed.
#[derive(Debug)]
pub struct InferArgs {
    pub prompt: String,
    pub max_tokens: Option<u32>,
    pub temperature: Option<String>,
}

#[derive(Debug)]
pub struct PreprocessArgs {
    pub input: String,
    pub output: Option<String>,
    pub format: Option<String>,
}

#[derive(Debug)]
pub struct EvalArgs {
    pub model: String,
    pub dataset: String,
    pub metrics: Vec<String>,
    pub output: Option<String>,
}

#[derive(Debug)]
pub struct RagArgs {
    pub query: String,
    pub index: String,
    pub model: Option<String>,
    pub top_k: Option<u32>,
}

#[derive(Debug)]
pub struct EmbedArgs {
    pub input: String,
    pub model: Option<String>,
    pub index: Option<String>,
    pub operation: Option<String>,
}

/// A parsed command-bar line. Node ids are UUIDs as 128-bit numbers.
#[derive(Debug)]
pub enum Command {
    Info { node_id: Option<u128>, prefix: Option<String> },
    Quit,
    Train(TrainArgs),
    Finetune(FinetuneArgs),
    Infer(InferArgs),
    Preprocess(PreprocessArgs),
    Evaluate(EvalArgs),
    Rag(RagArgs),
    Embed(EmbedArgs),
    Cancel { task_id: String },
    Pulse { subnet: Option<String> },
    Seed { target: String, user: Option<String>, pass: Option<String> },
    Bless,
    Ascend { url: Option<String> },
    Purge { target: String },
    Plugin { name: String, config: String },
    Unknown(String),
}

/// A command with its text fields seen as character sequences.
#[allow(inconsistent_fields)]
pub enum CommandView {
    Info { node_id: Option<u128>, prefix: Option<Seq<char>> },
    Quit,
    Train {
        dataset: Seq<char>,
        epochs: Option<u32>,
        lr: Option<Seq<char>>,
        batch_size: Option<u32>,
        output: Option<Seq<char>>,
        max_ram_mb: Option<u64>,
        max_cpu_pct: Option<Seq<char>>,
    },
    Finetune {
        base_model: Seq<char>,
        dataset: Seq<char>,
        adapter: Option<Seq<char>>,
        epochs: Option<u32>,
        lr: Option<Seq<char>>,
        batch_size: Option<u32>,
        output: Option<Seq<char>>,
        max_ram_mb: Option<u64>,
        max_cpu_pct: Option<Seq<char>>,
    },
    Infer { prompt: Seq<char>, max_tokens: Option<u32>, temperature: Option<Seq<char>> },
    Preprocess { input: Seq<char>, output: Option<Seq<char>>, format: Option<Seq<char>> },
    Evaluate { model: Seq<char>, dataset: Seq<char>, metrics: Seq<Seq<char>>, output: Option<Seq<char>> },
    Rag { query: Seq<char>, index: Seq<char>, model: Option<Seq<char>>, top_k: Option<u32> },
    Embed { input: Seq<char>, model: Option<Seq<char>>, index: Option<Seq<char>>, operation: Option<Seq<char>> },
    Cancel { task_id: Seq<char> },
    Pulse { subnet: Option<Seq<char>> },
    Seed { target: Seq<char>, user: Option<Seq<char>>, pass: Option<Seq<char>> },
    Bless,
    Ascend { url: Option<Seq<char>> },
    Purge { target: Seq<char> },
    Plugin { name: Seq<char>, config: Seq<char> },
    Unknown(Seq<char>),
}

impl View for Command {
    type V = CommandView;

    open spec fn view(&self) -> CommandView {
        match self {
            Command::Info { node_id, prefix } => CommandView::Info { node_id: *node_id, prefix: opt_view(*prefix) },
            Command::Quit => CommandView::Quit,
            Command::Train(a) => CommandView::Train {
                dataset: a.dataset@,
                epochs: a.epochs,
                lr: opt_view(a.lr),
                batch_size: a.batch_size,
                output: opt_view(a.output),
                max_ram_mb: a.max_ram_mb,
                max_cpu_pct: opt_view(a.max_cpu_pct),
            },
            Command::Finetune(a) => CommandView::Finetune {
                base_model: a.base_model@,
                dataset: a.dataset@,
                adapter: opt_view(a.adapter),
                epochs: a.epochs,
                lr: opt_view(a.lr),
                batch_size: a.batch_size,
                output: opt_view(a.output),
                max_ram_mb: a.max_ram_mb,
                max_cpu_pct: opt_view(a.max_cpu_pct),
            },
            Command::Infer(a) => CommandView::Infer {
                prompt: a.prompt@,
                max_tokens: a.max_tokens,
                temperature: opt_view(a.temperature),
            },
            Command::Preprocess(a) => CommandView::Preprocess {
                input: a.input@,
                output: opt_view(a.output),
                format: opt_view(a.format),
            },
            Command::Evaluate(a) => CommandView::Evaluate {
                model: a.model@,
                dataset: a.dataset@,
                metrics: views(a.metrics@),
                output: opt_view(a.output),
            },
            Command::Rag(a) => CommandView::Rag {
                query: a.query@,
                index: a.index@,
                model: opt_view(a.model),
                top_k: a.top_k,
            },
            Command::Embed(a) => CommandView::Embed {
                input: a.input@,
                model: opt_view(a.model),
                index: opt_view(a.index),
                operation: opt_view(a.operation),
            },
            Command::Cancel { task_id } => CommandView::Cancel { task_id: task_id@ },
            Command::Pulse { subnet } => CommandView::Pulse { subnet: opt_view(*subnet) },
            Command::Seed { target, user, pass } => CommandView::Seed {
                target: target@,
                user: opt_view(*user),
                pass: opt_view(*pass),
            },
            Command::Bless => CommandView::Bless,
            Command::Ascend { url } => CommandView::Ascend { url: opt_view(*url) },
            Command::Purge { target } => CommandView::Purge { target: target@ },
            Command::Plugin { name, config } => CommandView::Plugin { name: name@, config: config@ },
            Command::Unknown(s) => CommandView::Unknown(s@),
        }
    }
}

/// The pieces of `s` between occurrences of `c` (an empty string gives one empty piece).
pub open spec fn split_char(s: Seq<char>, c: char) -> Seq<Seq<char>>
    decreases s.len(),
{
    if s.len() == 0 {
        seq![Seq::empty()]
    } else {
        let r = split_char(s.drop_last(), c);
        if s.last() == c {
            r.push(Seq::empty())
        } else {
            r.update(r.len() - 1, r.last().push(s.last()))
        }
    }
}

/// The pieces joined with `sep` between consecutive pieces.
pub open spec fn join(parts: Seq<Seq<char>>, sep: Seq<char>) -> Seq<char>
    decreases parts.len(),
{
    if parts.len() == 0 {
        Seq::empty()
    } else if parts.len() == 1 {
        parts[0]
    } else {
        join(parts.drop_last(), sep) + sep + parts.last()
    }
}

/// The position of the first token equal to `x` (the number of tokens if
/// there is none).
pub open spec fn index_in(toks: Seq<Seq<char>>, x: Seq<char>) -> int
    decreases toks.len(),
{
    if toks.len() == 0 {
        0
    } else if toks[0] == x {
        0
    } else {
        1 + index_in(toks.drop_first(), x)
    }
}

/// The first positional argument is one of the tokens.
pub proof fn lemma_positional_occurs(toks: Seq<Seq<char>>, x: Seq<char>)
    requires
        positional(toks) == Some(x),
    ensures
        0 <= index_in(toks, x) < toks.len(),
        toks[index_in(toks, x)] == x,
    decreases toks.len(),
{
    if toks[0] != x {
        assert(seq_starts_with(toks[0], "--"@) && toks.len() >= 2);
        let t1 = toks.drop_first();
        let t2 = toks.skip(2);
        assert(t1.drop_first() =~= t2);
        lemma_positional_occurs(t2, x);
        if t1[0] == x {
            assert(index_in(t1, x) == 0);
        } else {
            assert(index_in(t1, x) == 1 + index_in(t2, x));
            assert(toks[2 + index_in(t2, x)] == t2[index_in(t2, x)]);
        }
    }
}

pub open spec fn or_empty(o: Option<Seq<char>>) -> Seq<char> {
    match o {
        Some(v) => v,
        None => Seq::empty(),
    }
}

pub open spec fn or_else(a: Option<Seq<char>>, b: Option<Seq<char>>) -> Option<Seq<char>> {
    match a {
        Some(v) => Some(v),
        None => b,
    }
}

/// The metric names of `evaluate`: the `--metrics` value split at commas and
/// trimmed, or `perplexity` alone.
pub open spec fn eval_metrics(args: Seq<Seq<char>>) -> Seq<Seq<char>> {
    match flag_value(args, "--metrics"@) {
        Some(m) => split_char(m, ',').map_values(|p: Seq<char>| trim_seq(p)),
        None => seq!["perplexity"@],
    }
}

/// The JSON configuration of `plugin`: the rest of the (trimmed) line after
/// the plugin name, exactly as typed and trimmed, or `{}` when nothing follows.
/// `args` are the tokens after the command word, and `name` is one of them.
pub open spec fn plugin_config(input: Seq<char>, args: Seq<Seq<char>>, name: Seq<char>) -> Seq<char> {
    let c = trim_seq(input.skip(spec_token_ends(input)[index_in(args, name) + 1]));
    if c.len() == 0 {
        "{}"@
    } else {
        c
    }
}

/// What a command-bar line means.
pub open spec fn spec_parse_command(line: Seq<char>) -> CommandView {
    let input = trim_seq(line);
    let tokens = spec_tokenize(input);
    if tokens.len() == 0 {
        CommandView::Unknown(Seq::empty())
    } else {
        let cmd = lowercase_of(tokens[0]);
        let args = tokens.drop_first();
        if cmd == "info"@ {
            let node_id = if args.len() > 0 { crate::ids::uuid_parse(args[0]) } else { None };
            let prefix = if node_id is None && args.len() > 0 { Some(args[0]) } else { None };
            CommandView::Info { node_id, prefix }
        } else if cmd == "quit"@ {
            CommandView::Quit
        } else if cmd == "cancel"@ {
            CommandView::Cancel { task_id: if args.len() > 0 { args[0] } else { Seq::empty() } }
        } else if cmd == "train"@ {
            let dataset = or_empty(flag_value(args, "--dataset"@));
            if dataset.len() == 0 {
                CommandView::Unknown("train: --dataset required"@)
            } else {
                CommandView::Train {
                    dataset,
                    epochs: flag_u32(args, "--epochs"@),
                    lr: flag_value(args, "--lr"@),
                    batch_size: flag_u32(args, "--batch-size"@),
                    output: flag_value(args, "--output"@),
                    max_ram_mb: flag_u64(args, "--max-ram"@),
                    max_cpu_pct: flag_value(args, "--max-cpu"@),
                }
            }
        } else if cmd == "finetune"@ {
            let base_model = or_empty(flag_value(args, "--base"@));
            let dataset = or_empty(flag_value(args, "--dataset"@));
            if base_model.len() == 0 || dataset.len() == 0 {
                CommandView::Unknown("finetune: --base and --dataset required"@)
            } else {
                CommandView::Finetune {
                    base_model,
                    dataset,
                    adapter: flag_value(args, "--adapter"@),
                    epochs: flag_u32(args, "--epochs"@),
                    lr: flag_value(args, "--lr"@),
                    batch_size: flag_u32(args, "--batch-size"@),
                    output: flag_value(args, "--output"@),
                    max_ram_mb: flag_u64(args, "--max-ram"@),
                    max_cpu_pct: flag_value(args, "--max-cpu"@),
                }
            }
        } else if cmd == "infer"@ {
            let prompt = or_empty(positional(args));
            if prompt.len() == 0 {
                CommandView::Unknown("infer: prompt required"@)
            } else {
                CommandView::Infer {
                    prompt,
                    max_tokens: flag_u32(args, "--max-tokens"@),
                    temperature: flag_value(args, "--temp"@),
                }
            }
        } else if cmd == "preprocess"@ {
            let input_path = or_empty(flag_value(args, "--input"@));
            if input_path.len() == 0 {
                CommandView::Unknown("preprocess: --input required"@)
            } else {
                CommandView::Preprocess {
                    input: input_path,
                    output: flag_value(args, "--output"@),
                    format: flag_value(args, "--format"@),
                }
            }
        } else if cmd == "evaluate"@ {
            let model = or_empty(flag_value(args, "--model"@));
            let dataset = or_empty(flag_value(args, "--dataset"@));
            if model.len() == 0 || dataset.len() == 0 {
                CommandView::Unknown("evaluate: --model and --dataset required"@)
            } else {
                CommandView::Evaluate {
                    model,
                    dataset,
                    metrics: eval_metrics(args),
                    output: flag_value(args, "--output"@),
                }
            }
        } else if cmd == "rag"@ {
            let query = or_empty(positional(args));
            let index = or_empty(flag_value(args, "--index"@));
            if query.len() == 0 || index.len() == 0 {
                CommandView::Unknown("rag: query and --index required"@)
            } else {
                CommandView::Rag {
                    query,
                    index,
                    model: flag_value(args, "--model"@),
                    top_k: flag_u32(args, "--top-k"@),
                }
            }
        } else if cmd == "embed"@ {
            let input_text = or_empty(or_else(positional(args), flag_value(args, "--input"@)));
            if input_text.len() == 0 {
                CommandView::Unknown("embed: input text or --input required"@)
            } else {
                CommandView::Embed {
                    input: input_text,
                    model: flag_value(args, "--model"@),
                    index: flag_value(args, "--index"@),
                    operation: flag_value(args, "--op"@),
                }
            }
        } else if cmd == "pulse"@ {
            CommandView::Pulse { subnet: or_else(flag_value(args, "--subnet"@), positional(args)) }
        } else if cmd == "seed"@ {
            let target = or_empty(positional(args));
            if target.len() == 0 {
                CommandView::Unknown("seed: <ip> required"@)
            } else {
                CommandView::Seed {
                    target,
                    user: flag_value(args, "--user"@),
                    pass: flag_value(args, "--pass"@),
                }
            }
        } else if cmd == "bless"@ {
            CommandView::Bless
        } else if cmd == "plugin"@ {
            let name = or_empty(positional(args));
            if name.len() == 0 {
                CommandView::Unknown("plugin: <name> required"@)
            } else {
                CommandView::Plugin { name, config: plugin_config(input, args, name) }
            }
        } else if cmd == "ascend"@ {
            let url = or_empty(positional(args));
            CommandView::Ascend { url: if url.len() == 0 { None } else { Some(url) } }
        } else if cmd == "purge"@ {
            let target = or_empty(positional(args));
            if target.len() == 0 {
                CommandView::Unknown("purge: <node_id | all> required"@)
            } else {
                CommandView::Purge { target }
            }
        } else {
            CommandView::Unknown(input)
        }
    }
}

/// Splits `s` at every occurrence of `c`.
pub fn split_at_char(s: &str, c: char) -> (r: Vec<String>)
    ensures
        views(r@) == split_char(s@, c),
{
    let chars = chars_of(s);
    let mut pieces: Vec<String> = Vec::new();
    let mut current: Vec<char> = Vec::new();
    let mut i: usize = 0;
    while i < chars.len()
        invariant
            chars@ == s@,
            i <= chars@.len(),
            views(pieces@).push(current@) == split_char(s@.take(i as int), c),
        decreases chars@.len() - i,
    {
        let ch = chars[i];
        let ghost before = views(pieces@).push(current@);
        proof {
            assert(s@.take(i + 1).drop_last() =~= s@.take(i as int));
            assert(s@.take(i + 1).last() == ch);
        }
        if ch == c {
            let piece = string_from_chars(current.as_slice());
            pieces.push(piece);
            current = Vec::new();
            assert(views(pieces@).push(current@) =~= before.push(Seq::empty()));
        } else {
            let ghost old_pieces = views(pieces@);
            current.push(ch);
            assert(views(pieces@).push(current@) =~= before.update(before.len() - 1, before.last().push(ch)));
        }
        i = i + 1;
    }
    assert(s@.take(chars@.len() as int) =~= s@);
    let last = string_from_chars(current.as_slice());
    let ghost before = views(pieces@);
    pieces.push(last);
    assert(views(pieces@) =~= before.push(current@));
    pieces
}

/// Joins strings with a separator between consecutive strings.
pub fn join_strings(parts: &[String], sep: &str) -> (r: String)
    ensures
        r@ == join(views(parts@), sep@),
{
    let mut r = String::new();
    let mut i: usize = 0;
    while i < parts.len()
        invariant
            i <= parts@.len(),
            r@ == join(views(parts@).take(i as int), sep@),
        decreases parts@.len() - i,
    {
        let ghost before = views(parts@).take(i as int);
        assert(views(parts@).take(i + 1).drop_last() =~= before);
        if i > 0 {
            push_str(&mut r, sep);
        } else {
            assert(r@ =~= Seq::<char>::empty());
        }
        push_str(&mut r, parts[i].as_str());
        if i == 0 {
            assert(r@ =~= views(parts@).take(1)[0]);
        }
        i = i + 1;
    }
    assert(views(parts@).take(parts@.len() as int) =~= views(parts@));
    r
}

/// The position of the first token equal to `x`.
fn first_index_of(toks: &[String], x: &str) -> (r: usize)
    ensures
        r == index_in(views(toks@), x@),
{
    let ghost tv = views(toks@);
    assert(tv.skip(0) =~= tv);
    let mut i: usize = 0;
    while i < toks.len()
        invariant
            tv == views(toks@),
            i <= toks@.len(),
            index_in(tv, x@) == i + index_in(tv.skip(i as int), x@),
        decreases toks@.len() - i,
    {
        assert(tv.skip(i as int)[0] == toks@[i as int]@);
        if str_eq(toks[i].as_str(), x) {
            return i;
        }
        assert(tv.skip(i as int).drop_first() =~= tv.skip(i + 1));
        i = i + 1;
    }
    i
}

/// The text of `chars` from position `from` on.
fn chars_from(chars: &Vec<char>, from: usize) -> (r: String)
    requires
        from <= chars@.len(),
    ensures
        r@ == chars@.skip(from as int),
{
    let mut out: Vec<char> = Vec::new();
    let mut k: usize = from;
    while k < chars.len()
        invariant
            from <= k <= chars@.len(),
            out@ == chars@.subrange(from as int, k as int),
        decreases chars@.len() - k,
    {
        out.push(chars[k]);
        assert(out@ =~= chars@.subrange(from as int, k + 1));
        k = k + 1;
    }
    assert(chars@.subrange(from as int, chars@.len() as int) =~= chars@.skip(from as int));
    string_from_chars(out.as_slice())
}

fn or_empty_string(o: Option<String>) -> (r: String)
    ensures
        r@ == or_empty(opt_view(o)),
{
    match o {
        Some(v) => v,
        None => String::new(),
    }
}

/// Parses a command-bar line.
pub fn parse_command(line: &str) -> (r: Command)
    ensures
        r@ == spec_parse_command(line@),
{
    let input_owned = trim(line);
    let input = input_owned.as_str();
    let (tokens, ends) = tokenize_with_ends(input);
    if tokens.len() == 0 {
        return Command::Unknown(String::new());
    }
    let cmd_s = to_lowercase(tokens[0].as_str());
    let cmd = cmd_s.as_str();
    let args = tokens.as_slice().split_at(1).1;
    let ghost a = views(tokens@).drop_first();
    assert(views(args@) =~= a);
    if str_eq(cmd, "info") {
        let node_id = if args.len() > 0 { crate::ids::parse_uuid(args[0].as_str()) } else { None };
        let prefix = if node_id.is_none() && args.len() > 0 { Some(args[0].clone()) } else { None };
        Command::Info { node_id, prefix }
    } else if str_eq(cmd, "quit") {
        Command::Quit
    } else if str_eq(cmd, "cancel") {
        let task_id = if args.len() > 0 { args[0].clone() } else { String::new() };
        Command::Cancel { task_id }
    } else if str_eq(cmd, "train") {
        let dataset = or_empty_string(get_flag(args, "--dataset"));
        if dataset.as_str().is_empty() {
            return Command::Unknown(owned("train: --dataset required"));
        }
        Command::Train(TrainArgs {
            dataset,
            epochs: get_flag_u32(args, "--epochs"),
            lr: get_flag(args, "--lr"),
            batch_size: get_flag_u32(args, "--batch-size"),
            output: get_flag(args, "--output"),
            max_ram_mb: get_flag_u64(args, "--max-ram"),
            max_cpu_pct: get_flag(args, "--max-cpu"),
        })
    } else if str_eq(cmd, "finetune") {
        let base_model = or_empty_string(get_flag(args, "--base"));
        let dataset = or_empty_string(get_flag(args, "--dataset"));
        if base_model.as_str().is_empty() || dataset.as_str().is_empty() {
            return Command::Unknown(owned("finetune: --base and --dataset required"));
        }
        Command::Finetune(FinetuneArgs {
            base_model,
            dataset,
            adapter: get_flag(args, "--adapter"),
            epochs: get_flag_u32(args, "--epochs"),
            lr: get_flag(args, "--lr"),
            batch_size: get_flag_u32(args, "--batch-size"),
            output: get_flag(args, "--output"),
            max_ram_mb: get_flag_u64(args, "--max-ram"),
            max_cpu_pct: get_flag(args, "--max-cpu"),
        })
    } else if str_eq(cmd, "infer") {
        let prompt = or_empty_string(get_positional(args));
        if prompt.as_str().is_empty() {
            return Command::Unknown(owned("infer: prompt required"));
        }
        Command::Infer(InferArgs {
            prompt,
            max_tokens: get_flag_u32(args, "--max-tokens"),
            temperature: get_flag(args, "--temp"),
        })
    } else if str_eq(cmd, "preprocess") {
        let input_path = or_empty_string(get_flag(args, "--input"));
        if input_path.as_str().is_empty() {
            return Command::Unknown(owned("preprocess: --input required"));
        }
        Command::Preprocess(PreprocessArgs {
            input: input_path,
            output: get_flag(args, "--output"),
            format: get_flag(args, "--format"),
        })
    } else if str_eq(cmd, "evaluate") {
        let model = or_empty_string(get_flag(args, "--model"));
        let dataset = or_empty_string(get_flag(args, "--dataset"));
        if model.as_str().is_empty() || dataset.as_str().is_empty() {
            return Command::Unknown(owned("evaluate: --model and --dataset required"));
        }
        let metrics = match get_flag(args, "--metrics") {
            Some(m) => {
                let pieces = split_at_char(m.as_str(), ',');
                let mut out: Vec<String> = Vec::new();
                let mut k: usize = 0;
                while k < pieces.len()
                    invariant
                        k <= pieces@.len(),
                        views(out@) == views(pieces@).take(k as int).map_values(|p: Seq<char>| trim_seq(p)),
                    decreases pieces@.len() - k,
                {
                    let t = trim(pieces[k].as_str());
                    let ghost before = views(out@);
                    out.push(t);
                    assert(views(out@) =~= before.push(t@));
                    assert(t@ == trim_seq(views(pieces@)[k as int]));
                    assert(views(out@) =~= views(pieces@).take(k + 1).map_values(|p: Seq<char>| trim_seq(p)));
                    k = k + 1;
                }
                assert(views(pieces@).take(pieces@.len() as int) =~= views(pieces@));
                out
            },
            None => {
                let mut out: Vec<String> = Vec::new();
                out.push(owned("perplexity"));
                assert(views(out@) =~= seq!["perplexity"@]);
                out
            },
        };
        Command::Evaluate(EvalArgs { model, dataset, metrics, output: get_flag(args, "--output") })
    } else if str_eq(cmd, "rag") {
        let query = or_empty_string(get_positional(args));
        let index = or_empty_string(get_flag(args, "--index"));
        if query.as_str().is_empty() || index.as_str().is_empty() {
            return Command::Unknown(owned("rag: query and --index required"));
        }
        Command::Rag(RagArgs {
            query,
            index,
            model: get_flag(args, "--model"),
            top_k: get_flag_u32(args, "--top-k"),
        })
    } else if str_eq(cmd, "embed") {
        let first = match get_positional(args) {
            Some(p) => Some(p),
            None => get_flag(args, "--input"),
        };
        let input_text = or_empty_string(first);
        if input_text.as_str().is_empty() {
            return Command::Unknown(owned("embed: input text or --input required"));
        }
        Command::Embed(EmbedArgs {
            input: input_text,
            model: get_flag(args, "--model"),
            index: get_flag(args, "--index"),
            operation: get_flag(args, "--op"),
        })
    } else if str_eq(cmd, "pulse") {
        let subnet = match get_flag(args, "--subnet") {
            Some(s) => Some(s),
            None => get_positional(args),
        };
        Command::Pulse { subnet }
    } else if str_eq(cmd, "seed") {
        let target = or_empty_string(get_positional(args));
        if target.as_str().is_empty() {
            return Command::Unknown(owned("seed: <ip> required"));
        }
        Command::Seed { target, user: get_flag(args, "--user"), pass: get_flag(args, "--pass") }
    } else if str_eq(cmd, "bless") {
        Command::Bless
    } else if str_eq(cmd, "plugin") {
        let name = or_empty_string(get_positional(args));
        if name.as_str().is_empty() {
            return Command::Unknown(owned("plugin: <name> required"));
        }
        let j = first_index_of(args, name.as_str());
        proof {
            lemma_positional_occurs(a, name@);
        }
        let e = ends[j + 1];
        let chars = chars_of(input);
        let rest = chars_from(&chars, e);
        let t = trim(rest.as_str());
        let config = if t.as_str().is_empty() { owned("{}") } else { t };
        Command::Plugin { name, config }
    } else if str_eq(cmd, "ascend") {
        let url = or_empty_string(get_positional(args));
        let url = if url.as_str().is_empty() { None } else { Some(url) };
        Command::Ascend { url }
    } else if str_eq(cmd, "purge") {
        let target = or_empty_string(get_positional(args));
        if target.as_str().is_empty() {
            return Command::Unknown(owned("purge: <node_id | all> required"));
        }
        Command::Purge { target }
    } else {
        Command::Unknown(owned(input))
    }
}


// ---------------------------------------------------------------------------
// Laws of the tokenizer
// ---------------------------------------------------------------------------

/// The tokenizer state keeps every finished token non-empty.
proof fn lemma_tok_run_tokens_nonempty(s: Seq<char>)
    ensures
        forall|i: int| 0 <= i < tok_run(s).0.len() ==> tok_run(s).0[i].len() > 0,
    decreases s.len(),
{
    if s.len() > 0 {
        lemma_tok_run_tokens_nonempty(s.drop_last());
        let st = tok_run(s.drop_last());
        if st.1.len() > 0 {
            assert forall|i: int| 0 <= i < st.0.push(st.1).len() implies st.0.push(st.1)[i].len() > 0 by {
                if i < st.0.len() {
                    assert(st.0.push(st.1)[i] == st.0[i]);
                }
            }
        }
    }
}

/// A fine-tuning command needs both its base model and its dataset: every
/// line that parses to `finetune` names a non-empty `--base` and a non-empty
/// `--dataset`, and a `finetune` line that lacks either is answered with the
/// error that asks for both.
pub proof fn lemma_finetune_needs_base_and_dataset(line: Seq<char>)
    ensures
        spec_parse_command(line) matches CommandView::Finetune { base_model, dataset, .. }
            ==> base_model.len() > 0 && dataset.len() > 0,
        ({
            let toks = spec_tokenize(trim_seq(line));
            toks.len() > 0 && lowercase_of(toks[0]) == "finetune"@ ==> {
                let args = toks.drop_first();
                let base = or_empty(flag_value(args, "--base"@));
                let data = or_empty(flag_value(args, "--dataset"@));
                &&& (base.len() == 0 || data.len() == 0) ==> spec_parse_command(line)
                    == CommandView::Unknown("finetune: --base and --dataset required"@)
                &&& (base.len() > 0 && data.len() > 0) ==> (spec_parse_command(line) matches CommandView::Finetune {
                    base_model, dataset, .. } && base_model == base && dataset == data)
            }
        }),
{
    reveal_strlit("finetune");
    reveal_strlit("info");
    reveal_strlit("quit");
    reveal_strlit("cancel");
    reveal_strlit("train");
    assert("finetune"@.len() == 8);
    assert("info"@.len() == 4);
    assert("quit"@.len() == 4);
    assert("cancel"@.len() == 6);
    assert("train"@.len() == 5);
}

/// Every token of a line is non-empty.
pub proof fn lemma_tokens_nonempty(s: Seq<char>)
    ensures
        forall|i: int| 0 <= i < spec_tokenize(s).len() ==> spec_tokenize(s)[i].len() > 0,
{
    lemma_tok_run_tokens_nonempty(s);
}

/// Outside quotes, no whitespace reaches a token.
proof fn lemma_tok_run_unquoted_no_whitespace(s: Seq<char>)
    requires
        forall|i: int| 0 <= i < s.len() ==> s[i] != '"' && s[i] != '\'',
    ensures
        !tok_run(s).2,
        forall|i: int, j: int|
            0 <= i < tok_run(s).0.len() && 0 <= j < tok_run(s).0[i].len()
                ==> !spec_is_whitespace(#[trigger] tok_run(s).0[i][j]),
        forall|j: int| 0 <= j < tok_run(s).1.len() ==> !spec_is_whitespace(#[trigger] tok_run(s).1[j]),
    decreases s.len(),
{
    if s.len() > 0 {
        lemma_tok_run_unquoted_no_whitespace(s.drop_last());
        let st = tok_run(s.drop_last());
        let ch = s.last();
        if !spec_is_whitespace(ch) {
            assert forall|j: int| 0 <= j < st.1.push(ch).len() implies !spec_is_whitespace(#[trigger] st.1.push(ch)[j]) by {
                if j < st.1.len() {
                    assert(st.1.push(ch)[j] == st.1[j]);
                }
            }
        } else if st.1.len() > 0 {
            assert forall|i: int, j: int|
                0 <= i < st.0.push(st.1).len() && 0 <= j < st.0.push(st.1)[i].len()
                implies !spec_is_whitespace(#[trigger] st.0.push(st.1)[i][j]) by {
                if i < st.0.len() {
                    assert(st.0.push(st.1)[i] == st.0[i]);
                }
            }
        }
    }
}

/// A line without quote characters breaks into tokens that hold no whitespace.
pub proof fn lemma_unquoted_tokens_have_no_whitespace(s: Seq<char>)
    requires
        forall|i: int| 0 <= i < s.len() ==> s[i] != '"' && s[i] != '\'',
    ensures
        forall|i: int, j: int|
            0 <= i < spec_tokenize(s).len() && 0 <= j < spec_tokenize(s)[i].len()
                ==> !spec_is_whitespace(#[trigger] spec_tokenize(s)[i][j]),
{
    lemma_tok_run_unquoted_no_whitespace(s);
    let st = tok_run(s);
    if st.1.len() > 0 {
        assert forall|i: int, j: int|
            0 <= i < st.0.push(st.1).len() && 0 <= j < st.0.push(st.1)[i].len()
            implies !spec_is_whitespace(#[trigger] st.0.push(st.1)[i][j]) by {
            if i < st.0.len() {
                assert(st.0.push(st.1)[i] == st.0[i]);
            }
        }
    }
}

} // verus!
