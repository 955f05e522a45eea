//! The command bar of the client: line editing, zsh-style tab completion and
//! the completion popup.
use vstd::prelude::*;
use vstd::utf8::encode_scalar;
use crate::command::{parse_command, spec_parse_command, Command, CommandView};
use crate::text::{
    all_ascii, byte_len, char_byte_len, chars_of, concat_str, lemma_byte_len_take_injective,
    lemma_byte_len_take_step, lemma_char_width, lemma_encode_utf8_concat, lowercase_of, owned,
    push_char, push_str, seq_contains_exec, seq_starts_with, seq_starts_with_exec,
    str_byte_len, string_from_chars, to_lowercase, trim, trim_seq,
};

verus! {

/// Context that decides which commands the bar offers.
#[derive(Debug, Clone, Copy, PartialEq, Eq, Structural)]
pub enum CommandContext {
    Workspace,
}

/// A popup entry: command name, description and usage. An empty name marks a separator.
pub type Item = (&'static str, &'static str, &'static str);

pub type ItemView = (Seq<char>, Seq<char>, Seq<char>);

pub open spec fn item_view(it: Item) -> ItemView {
    (it.0@, it.1@, it.2@)
}

pub open spec fn items_view(v: Seq<Item>) -> Seq<ItemView> {
    v.map_values(|it: Item| item_view(it))
}

/// The commands offered in the workspace, with separators between groups.
pub open spec fn spec_commands() -> Seq<ItemView> {
    seq![
        ("info"@, "inspect node details and logs"@, "[node_id]"@),
        ("bless"@, "rotate cluster auth token"@, ""@),
        ("pulse"@, "scan local network for devices"@, "[--subnet 192.168.1.0/24]"@),
        ("seed"@, "install agent on a remote device"@, "<ip> [--user root] [--pass pw]"@),
        ("ascend"@, "push latest agent to all nodes"@, "[url]"@),
        ("purge"@, "erase agent and all traces from device"@, "<node_id | all>"@),
        (""@, ""@, ""@),
        ("plugin"@, "run a custom plugin task"@, "<name> <json>"@),
        ("train"@, "start distributed model training"@, "--dataset <path> [--epochs N] [--lr F] [--batch-size N] [--max-ram MB] [--max-cpu %]"@),
        ("finetune"@, "fine-tune a pre-trained model"@, "--base <model> --dataset <path> [--adapter lora] [--epochs N] [--max-ram MB]"@),
        ("infer"@, "run model inference on a prompt"@, "\"<prompt>\" [--model <name>] [--max-tokens N] [--temp F]"@),
        ("preprocess"@, "transform and tokenize datasets"@, "--input <path> [--output <path>] [--format tokenize]"@),
        ("evaluate"@, "benchmark model with metrics"@, "--model <path> --dataset <path> [--metrics perplexity,bleu] [--output <path>]"@),
        ("rag"@, "retrieval-augmented generation query"@, "\"<query>\" --index <path> [--model <name>] [--top-k N]"@),
        ("embed"@, "generate or search vector embeddings"@, "\"<text>\" [--model <name>] [--index <path>] [--op encode|search]"@),
        (""@, ""@, ""@),
        ("cancel"@, "abort a running task by id"@, "<task_id>"@),
        ("quit"@, "shutdown and exit"@, ""@),
    ]
}

/// The workspace commands, in the order the popup lists them.
pub fn workspace_commands() -> (v: Vec<Item>)
    ensures
        items_view(v@) == spec_commands(),
{
    let v: Vec<Item> = vec![
        ("info", "inspect node details and logs", "[node_id]"),
        ("bless", "rotate cluster auth token", ""),
        ("pulse", "scan local network for devices", "[--subnet 192.168.1.0/24]"),
        ("seed", "install agent on a remote device", "<ip> [--user root] [--pass pw]"),
        ("ascend", "push latest agent to all nodes", "[url]"),
        ("purge", "erase agent and all traces from device", "<node_id | all>"),
        ("", "", ""),
        ("plugin", "run a custom plugin task", "<name> <json>"),
        ("train", "start distributed model training", "--dataset <path> [--epochs N] [--lr F] [--batch-size N] [--max-ram MB] [--max-cpu %]"),
        ("finetune", "fine-tune a pre-trained model", "--base <model> --dataset <path> [--adapter lora] [--epochs N] [--max-ram MB]"),
        ("infer", "run model inference on a prompt", "\"<prompt>\" [--model <name>] [--max-tokens N] [--temp F]"),
        ("preprocess", "transform and tokenize datasets", "--input <path> [--output <path>] [--format tokenize]"),
        ("evaluate", "benchmark model with metrics", "--model <path> --dataset <path> [--metrics perplexity,bleu] [--output <path>]"),
        ("rag", "retrieval-augmented generation query", "\"<query>\" --index <path> [--model <name>] [--top-k N]"),
        ("embed", "generate or search vector embeddings", "\"<text>\" [--model <name>] [--index <path>] [--op encode|search]"),
        ("", "", ""),
        ("cancel", "abort a running task by id", "<task_id>"),
        ("quit", "shutdown and exit", ""),
    ];
    assert(items_view(v@) =~= spec_commands());
    v
}

/// Max visible items in the popup (without scrolling).
pub const POPUP_MAX_VISIBLE: usize = 20;

pub open spec fn is_sep(it: ItemView) -> bool {
    it.0.len() == 0
}

/// The entries that a query selects: non-separators whose name starts with it.
pub open spec fn selects(it: ItemView, q: Seq<char>) -> bool {
    it.0.len() > 0 && seq_starts_with(it.0, q)
}

/// The entries of `items` that the query selects, in order.
pub open spec fn matching(items: Seq<ItemView>, q: Seq<char>) -> Seq<ItemView>
    decreases items.len(),
{
    if items.len() == 0 {
        Seq::empty()
    } else {
        let r = matching(items.drop_last(), q);
        if selects(items.last(), q) {
            r.push(items.last())
        } else {
            r
        }
    }
}

/// Forward from `sel`, the first position that is not a separator (or the last position).
pub open spec fn skip_fwd(items: Seq<ItemView>, sel: int) -> int
    decreases items.len() - sel,
{
    if 0 <= sel && sel + 1 < items.len() && is_sep(items[sel]) {
        skip_fwd(items, sel + 1)
    } else {
        sel
    }
}

/// Backward from `sel`, the first position that is not a separator (or position 0).
pub open spec fn skip_bwd(items: Seq<ItemView>, sel: int) -> int
    decreases sel,
{
    if 0 < sel && sel < items.len() && is_sep(items[sel]) {
        skip_bwd(items, sel - 1)
    } else {
        sel
    }
}

/// The scroll offset that brings `sel` into the visible window.
pub open spec fn adjust(sel: int, scroll: int) -> int {
    if sel < scroll {
        sel
    } else if sel >= scroll + POPUP_MAX_VISIBLE {
        sel + 1 - POPUP_MAX_VISIBLE
    } else {
        scroll
    }
}

/// The longest prefix of `first` with which every name in `names` starts.
pub open spec fn is_longest_common_prefix(p: Seq<char>, first: Seq<char>, names: Seq<Seq<char>>) -> bool {
    &&& seq_starts_with(first, p)
    &&& forall|i: int| 0 <= i < names.len() ==> seq_starts_with(#[trigger] names[i], p)
    &&& (p.len() == first.len() || exists|i: int| 0 <= i < names.len() && #[trigger] diverges(names[i], first, p.len() as int))
}

/// `name` ends at or before position `n`, or differs from `first` there.
pub open spec fn diverges(name: Seq<char>, first: Seq<char>, n: int) -> bool {
    name.len() <= n || name[n] != first[n]
}

/// The state of the command bar, with text seen as characters.
pub struct CommandBarView {
    pub input: Seq<char>,
    pub cursor_pos: int,
    pub active: bool,
    pub popup_open: bool,
    pub popup_items: Seq<ItemView>,
    pub popup_selected: int,
    pub popup_scroll: int,
    pub popup_prefix: Option<Seq<char>>,
    pub context: CommandContext,
}

pub open spec fn closed(v: CommandBarView) -> CommandBarView {
    CommandBarView {
        popup_open: false,
        popup_items: Seq::empty(),
        popup_selected: 0,
        popup_scroll: 0,
        popup_prefix: None,
        ..v
    }
}

pub open spec fn opened(v: CommandBarView) -> CommandBarView {
    CommandBarView {
        popup_items: spec_commands(),
        popup_selected: skip_fwd(spec_commands(), 0),
        popup_scroll: 0,
        popup_open: true,
        ..v
    }
}

/// The query the popup filters by: the input, trimmed and lower-cased.
pub open spec fn query_of(input: Seq<char>) -> Seq<char> {
    lowercase_of(trim_seq(input))
}

pub open spec fn opened_filtered(v: CommandBarView) -> CommandBarView {
    let f = matching(spec_commands(), query_of(v.input));
    if f.len() == 0 {
        closed(v)
    } else {
        CommandBarView { popup_items: f, popup_selected: 0, popup_scroll: 0, popup_open: true, ..v }
    }
}

pub open spec fn updated_filtered(v: CommandBarView) -> CommandBarView {
    let q = query_of(v.input);
    if q.contains(' ') {
        closed(v)
    } else if q.len() == 0 {
        CommandBarView {
            popup_items: spec_commands(),
            popup_selected: skip_fwd(spec_commands(), 0),
            popup_scroll: 0,
            ..v
        }
    } else {
        let f = matching(spec_commands(), q);
        if f.len() == 0 {
            closed(v)
        } else {
            CommandBarView {
                popup_items: f,
                popup_selected: if v.popup_selected >= f.len() { 0 } else { v.popup_selected },
                popup_scroll: 0,
                ..v
            }
        }
    }
}

pub open spec fn after_edit(v: CommandBarView) -> CommandBarView {
    if v.popup_open {
        updated_filtered(v)
    } else {
        v
    }
}

/// The text that confirming entry `name` writes into the bar.
pub open spec fn confirmed_text(prefix: Option<Seq<char>>, name: Seq<char>) -> Seq<char> {
    match prefix {
        Some(p) => p + " "@ + name,
        None => name,
    }
}

pub open spec fn confirmed(v: CommandBarView) -> CommandBarView {
    if !v.popup_open {
        v
    } else {
        let v1 = if 0 <= v.popup_selected < v.popup_items.len() {
            let text = confirmed_text(v.popup_prefix, v.popup_items[v.popup_selected].0);
            CommandBarView { input: text, cursor_pos: byte_len(text) as int, ..v }
        } else {
            v
        };
        closed(v1)
    }
}

/// Text ending in a space, unless it is empty.
pub open spec fn with_trailing_space(s: Seq<char>) -> Seq<char> {
    if s.len() > 0 && s.last() != ' ' {
        s.push(' ')
    } else {
        s
    }
}

pub open spec fn set_input_at_end(v: CommandBarView, text: Seq<char>) -> CommandBarView {
    CommandBarView { input: text, cursor_pos: byte_len(text) as int, ..v }
}

/// Tab completion.
pub open spec fn tab_completed(v: CommandBarView) -> CommandBarView {
    if v.popup_open {
        let c = confirmed(v);
        if c.input.len() > 0 && c.input.last() != ' ' {
            set_input_at_end(c, c.input.push(' '))
        } else {
            c
        }
    } else {
        let q = query_of(v.input);
        if q.len() == 0 {
            opened(v)
        } else if q.contains(' ') {
            v
        } else {
            let m = matching(spec_commands(), q);
            if m.len() == 0 {
                v
            } else if m.len() == 1 {
                set_input_at_end(v, m[0].0 + " "@)
            } else {
                let common = spec_common_prefix(m);
                let v1 = if common.len() > q.len() { set_input_at_end(v, common) } else { v };
                opened_filtered(v1)
            }
        }
    }
}

/// The longest common prefix of the names of a non-empty list of entries.
pub open spec fn spec_common_prefix(items: Seq<ItemView>) -> Seq<char> {
    choose|p: Seq<char>| #[trigger] is_longest_common_prefix(p, items[0].0, names_of(items))
}

/// The names of a list of entries.
pub open spec fn names_of(items: Seq<ItemView>) -> Seq<Seq<char>> {
    items.map_values(|it: ItemView| it.0)
}

pub open spec fn moved_up(v: CommandBarView) -> CommandBarView {
    let q = trim_seq(v.input);
    if !v.popup_open {
        if q.len() == 0 || q.contains(' ') {
            opened(v)
        } else {
            opened_filtered(v)
        }
    } else {
        let s0 = if v.popup_selected > 0 {
            v.popup_selected - 1
        } else if v.popup_items.len() > 0 {
            v.popup_items.len() - 1
        } else {
            0
        };
        let s1 = skip_bwd(v.popup_items, s0);
        CommandBarView { popup_selected: s1, popup_scroll: adjust(s1, v.popup_scroll), ..v }
    }
}

pub open spec fn moved_down(v: CommandBarView) -> CommandBarView {
    let q = trim_seq(v.input);
    if !v.popup_open {
        if q.len() == 0 || q.contains(' ') {
            opened(v)
        } else {
            opened_filtered(v)
        }
    } else {
        let s0 = if v.popup_selected + 1 < v.popup_items.len() { v.popup_selected + 1 } else { 0 };
        let s1 = skip_fwd(v.popup_items, s0);
        CommandBarView { popup_selected: s1, popup_scroll: adjust(s1, v.popup_scroll), ..v }
    }
}

pub open spec fn inactive_cleared(v: CommandBarView, active: bool) -> CommandBarView {
    closed(CommandBarView { active, input: Seq::empty(), cursor_pos: 0, ..v })
}

/// Editing state of the command bar.
pub struct CommandBarState {
    pub input: String,
    /// Byte offset of the cursor in `input`.
    pub cursor_pos: usize,
    pub active: bool,
    /// Autocomplete popup
    pub popup_open: bool,
    pub popup_items: Vec<Item>,
    pub popup_selected: usize,
    pub popup_scroll: usize,
    /// When set, popup_confirm produces "{prefix} {name}" instead of just "{name}".
    pub popup_prefix: Option<String>,
    pub context: CommandContext,
}

impl View for CommandBarState {
    type V = CommandBarView;

    open spec fn view(&self) -> CommandBarView {
        CommandBarView {
            input: self.input@,
            cursor_pos: self.cursor_pos as int,
            active: self.active,
            popup_open: self.popup_open,
            popup_items: items_view(self.popup_items@),
            popup_selected: self.popup_selected as int,
            popup_scroll: self.popup_scroll as int,
            popup_prefix: crate::text::opt_view(self.popup_prefix),
            context: self.context,
        }
    }
}

/// Upper bound on the bytes of text the bar holds: the most bytes a `String`
/// can hold (`isize::MAX`).
pub open spec fn text_limit() -> int {
    isize::MAX as int
}

/// Upper bound on the bytes of a popup name or prefix.
pub open spec fn name_limit() -> int {
    usize::MAX as int / 16
}

/// Every entry name is within the name limit.
pub open spec fn names_fit(items: Seq<ItemView>) -> bool {
    forall|i: int| 0 <= i < items.len() ==> byte_len(#[trigger] items[i].0) <= name_limit()
}

/// The cursor sits between characters: it is the byte offset of some character position.
pub open spec fn cursor_on_boundary(input: Seq<char>, cursor: int) -> bool {
    exists|k: int| 0 <= k <= input.len() && byte_len(input.take(k)) == cursor
}

/// The character position of the cursor.
pub open spec fn cursor_index(input: Seq<char>, cursor: int) -> int {
    choose|k: int| 0 <= k <= input.len() && byte_len(input.take(k)) == cursor
}

/// The bar with `c` inserted at the cursor and the cursor moved past it.
pub open spec fn char_inserted(v: CommandBarView, c: char) -> CommandBarView {
    let k = cursor_index(v.input, v.cursor_pos);
    let inserted = v.input.take(k).push(c) + v.input.skip(k);
    CommandBarView { input: inserted, cursor_pos: byte_len(inserted.take(k + 1)) as int, ..v }
}

/// The bar with the character before the cursor removed (unchanged at the
/// start of the text).
pub open spec fn char_deleted(v: CommandBarView) -> CommandBarView {
    let k = cursor_index(v.input, v.cursor_pos);
    if k > 0 {
        CommandBarView { input: v.input.take(k - 1) + v.input.skip(k), cursor_pos: byte_len(v.input.take(k - 1)) as int, ..v }
    } else {
        v
    }
}

/// Typing a character and deleting it again gives back the text and the
/// cursor, when no popup is open.
pub proof fn lemma_insert_then_delete(v: CommandBarView, c: char)
    requires
        !v.popup_open,
        cursor_on_boundary(v.input, v.cursor_pos),
    ensures
        after_edit(char_deleted(after_edit(char_inserted(v, c)))) == v,
{
    let k = cursor_index(v.input, v.cursor_pos);
    let ins = v.input.take(k).push(c) + v.input.skip(k);
    assert(ins.take(k) =~= v.input.take(k));
    assert(ins.take(k + 1).len() == k + 1);
    let v1 = char_inserted(v, c);
    assert(v1.input == ins);
    assert(cursor_on_boundary(v1.input, v1.cursor_pos)) by {
        assert(byte_len(ins.take(k + 1)) == v1.cursor_pos);
    }
    let k1 = cursor_index(v1.input, v1.cursor_pos);
    lemma_byte_len_take_injective(ins, k1, k + 1);
    assert(ins.take(k) + ins.skip(k + 1) =~= v.input);
    assert(byte_len(ins.take(k)) == v.cursor_pos);
}

impl CommandBarState {
    /// A bar that can be edited: the cursor sits between characters, and the
    /// text and counters are far from the limits of `usize`.
    pub open spec fn wf(&self) -> bool {
        &&& cursor_on_boundary(self.input@, self.cursor_pos as int)
        &&& byte_len(self.input@) <= text_limit()
        &&& (self.popup_prefix matches Some(p) ==> byte_len(p@) <= name_limit())
        &&& names_fit(self@.popup_items)
        &&& (self.popup_open ==> self.popup_selected < self.popup_items@.len())
        &&& self.popup_selected < usize::MAX
        &&& self.popup_scroll + POPUP_MAX_VISIBLE <= usize::MAX
    }

    pub fn new() -> (s: Self)
        ensures
            s@ == (CommandBarView {
                input: Seq::empty(),
                cursor_pos: 0,
                active: false,
                popup_open: false,
                popup_items: Seq::empty(),
                popup_selected: 0,
                popup_scroll: 0,
                popup_prefix: None,
                context: CommandContext::Workspace,
            }),
            s.wf(),
    {
        let s = Self {
            input: String::new(),
            cursor_pos: 0,
            active: false,
            popup_open: false,
            popup_items: Vec::new(),
            popup_selected: 0,
            popup_scroll: 0,
            popup_prefix: None,
            context: CommandContext::Workspace,
        };
        assert(s.input@.take(0) =~= Seq::<char>::empty());
        assert(byte_len(s.input@.take(0)) == 0);
        assert(items_view(s.popup_items@) =~= Seq::<ItemView>::empty());
        s
    }

    pub fn set_context(&mut self, context: CommandContext)
        ensures
            final(self)@ == (CommandBarView { context, ..old(self)@ }),
            old(self).wf() ==> final(self).wf(),
    {
        self.context = context;
    }

    pub fn close_popup(&mut self)
        ensures
            final(self)@ == closed(old(self)@),
            old(self).wf() ==> final(self).wf(),
    {
        self.popup_open = false;
        self.popup_items.clear();
        self.popup_selected = 0;
        self.popup_scroll = 0;
        self.popup_prefix = None;
        assert(items_view(self.popup_items@) =~= Seq::<ItemView>::empty());
    }

    /// Opens the command bar with an empty line.
    pub fn activate(&mut self)
        ensures
            final(self)@ == inactive_cleared(old(self)@, true),
            final(self).wf(),
    {
        self.active = true;
        self.input = String::new();
        self.cursor_pos = 0;
        self.close_popup();
        assert(self.input@.take(0) =~= Seq::<char>::empty());
        assert(byte_len(self.input@.take(0)) == 0);
    }

    /// Closes the command bar and clears its line.
    pub fn deactivate(&mut self)
        ensures
            final(self)@ == inactive_cleared(old(self)@, false),
            final(self).wf(),
    {
        self.active = false;
        self.input = String::new();
        self.cursor_pos = 0;
        self.close_popup();
        assert(self.input@.take(0) =~= Seq::<char>::empty());
        assert(byte_len(self.input@.take(0)) == 0);
    }

    /// Whether entry `idx` is a separator (an entry past the end is not).
    fn is_separator(&self, idx: usize) -> (r: bool)
        ensures
            r == (idx < self.popup_items@.len() && is_sep(item_view(self.popup_items@[idx as int]))),
    {
        if idx < self.popup_items.len() {
            let (name, _, _) = self.popup_items[idx];
            name.is_empty()
        } else {
            false
        }
    }

    /// Moves the selection forward past separators.
    fn skip_separator_forward(&mut self)
        requires
            old(self).popup_selected < usize::MAX,
        ensures
            final(self)@ == (CommandBarView {
                popup_selected: skip_fwd(old(self)@.popup_items, old(self)@.popup_selected),
                ..old(self)@
            }),
            final(self).popup_selected < usize::MAX,
    {
        while self.is_separator(self.popup_selected) && self.popup_selected + 1 < self.popup_items.len()
            invariant
                self.input == old(self).input,
                self.cursor_pos == old(self).cursor_pos,
                self.active == old(self).active,
                self.popup_open == old(self).popup_open,
                self.popup_items == old(self).popup_items,
                self.popup_scroll == old(self).popup_scroll,
                self.popup_prefix == old(self).popup_prefix,
                self.context == old(self).context,
                self.popup_selected < usize::MAX,
                skip_fwd(old(self)@.popup_items, old(self)@.popup_selected)
                    == skip_fwd(self@.popup_items, self@.popup_selected),
            decreases self.popup_items@.len() - self.popup_selected,
        {
            self.popup_selected = self.popup_selected + 1;
        }
    }

    /// Moves the selection backward past separators.
    fn skip_separator_backward(&mut self)
        ensures
            final(self)@ == (CommandBarView {
                popup_selected: skip_bwd(old(self)@.popup_items, old(self)@.popup_selected),
                ..old(self)@
            }),
    {
        while self.is_separator(self.popup_selected) && self.popup_selected > 0
            invariant
                self.input == old(self).input,
                self.cursor_pos == old(self).cursor_pos,
                self.active == old(self).active,
                self.popup_open == old(self).popup_open,
                self.popup_items == old(self).popup_items,
                self.popup_scroll == old(self).popup_scroll,
                self.popup_prefix == old(self).popup_prefix,
                self.context == old(self).context,
                skip_bwd(old(self)@.popup_items, old(self)@.popup_selected)
                    == skip_bwd(self@.popup_items, self@.popup_selected),
            decreases self.popup_selected,
        {
            self.popup_selected = self.popup_selected - 1;
        }
    }

    /// Opens the popup with every command, the selection on the first command.
    pub fn open_popup(&mut self)
        ensures
            final(self)@ == opened(old(self)@),
            old(self).wf() ==> final(self).wf(),
    {
        self.popup_items = workspace_commands();
        self.popup_selected = 0;
        self.popup_scroll = 0;
        self.popup_open = true;
        self.skip_separator_forward();
        proof {
            lemma_command_names_fit();
            lemma_skip_fwd_bounds(spec_commands(), 0);
        }
    }

    /// The query the popup filters by.
    fn query(&self) -> (q: String)
        ensures
            q@ == query_of(self.input@),
    {
        to_lowercase(trim(self.input.as_str()).as_str())
    }

    /// The commands whose name starts with `q`.
    fn matching_commands(q: &str) -> (r: Vec<Item>)
        ensures
            items_view(r@) == matching(spec_commands(), q@),
    {
        let all = workspace_commands();
        let qv = chars_of(q);
        let mut out: Vec<Item> = Vec::new();
        let mut i: usize = 0;
        while i < all.len()
            invariant
                items_view(all@) == spec_commands(),
                qv@ == q@,
                i <= all@.len(),
                items_view(out@) == matching(spec_commands().take(i as int), q@),
            decreases all@.len() - i,
        {
            let it = all[i];
            assert(spec_commands().take(i + 1).drop_last() =~= spec_commands().take(i as int));
            assert(spec_commands().take(i + 1).last() == item_view(it));
            let nv = chars_of(it.0);
            if nv.len() > 0 && seq_starts_with_exec(nv.as_slice(), qv.as_slice()) {
                let ghost before = items_view(out@);
                out.push(it);
                assert(items_view(out@) =~= before.push(item_view(it)));
            }
            i = i + 1;
        }
        assert(spec_commands().take(all@.len() as int) =~= spec_commands());
        out
    }

    /// Opens the popup filtered to the commands matching the current input.
    fn open_filtered_popup(&mut self)
        ensures
            final(self)@ == opened_filtered(old(self)@),
            old(self).wf() ==> final(self).wf(),
    {
        let q = self.query();
        let filtered = Self::matching_commands(q.as_str());
        proof {
            lemma_matching_names_fit(spec_commands(), q@);
        }
        if filtered.len() == 0 {
            self.close_popup();
            return;
        }
        self.popup_items = filtered;
        self.popup_selected = 0;
        self.popup_scroll = 0;
        self.popup_open = true;
    }

    /// Refreshes the popup after the input changed.
    fn update_filtered_popup(&mut self)
        ensures
            final(self)@ == updated_filtered(old(self)@),
            old(self).wf() ==> final(self).wf(),
    {
        let q = self.query();
        if crate::text::str_contains_char(q.as_str(), ' ') {
            self.close_popup();
            return;
        }
        if q.as_str().is_empty() {
            self.popup_items = workspace_commands();
            self.popup_selected = 0;
            self.popup_scroll = 0;
            self.skip_separator_forward();
            proof {
                lemma_command_names_fit();
                lemma_skip_fwd_bounds(spec_commands(), 0);
            }
            return;
        }
        let filtered = Self::matching_commands(q.as_str());
        proof {
            lemma_matching_names_fit(spec_commands(), q@);
        }
        if filtered.len() == 0 {
            self.close_popup();
            return;
        }
        self.popup_items = filtered;
        if self.popup_selected >= self.popup_items.len() {
            self.popup_selected = 0;
        }
        self.popup_scroll = 0;
    }

    /// The byte offset of character position `k`, and the characters of the input.
    fn char_index_of_cursor(&self) -> (r: (usize, Vec<char>))
        requires
            self.wf(),
        ensures
            r.1@ == self.input@,
            r.0 == cursor_index(self.input@, self.cursor_pos as int),
            0 <= r.0 <= self.input@.len(),
            byte_len(self.input@.take(r.0 as int)) == self.cursor_pos,
    {
        let chars = chars_of(self.input.as_str());
        let ghost s = self.input@;
        let n = chars.len();
        let mut k: usize = 0;
        let mut off: usize = 0;
        let ghost target = cursor_index(s, self.cursor_pos as int);
        proof {
            assert(s.take(0) =~= Seq::<char>::empty());
            assert(byte_len(s.take(0)) == 0);
            if target > 0 {
                crate::text::lemma_byte_len_take_monotone(s, 0, target);
            }
        }
        while off < self.cursor_pos
            invariant
                chars@ == s,
                n == s.len(),
                s == self.input@,
                self.wf(),
                0 <= target <= s.len(),
                byte_len(s.take(target)) == self.cursor_pos,
                k <= target,
                off == byte_len(s.take(k as int)),
            decreases target - k,
        {
            proof {
                if k == target {
                    assert(false);
                }
                lemma_byte_len_take_step(s, k as int);
                if k + 1 < target {
                    crate::text::lemma_byte_len_take_monotone(s, k + 1, target);
                }
                crate::text::lemma_byte_len_take_monotone(s, k as int, s.len() as int);
            }
            let w = char_byte_len(chars[k]);
            off = off + w;
            k = k + 1;
        }
        proof {
            if k < target {
                crate::text::lemma_byte_len_take_monotone(s, k as int, target);
            }
        }
        (k, chars)
    }

    /// Inserts a character at the cursor and moves the cursor past it.
    pub fn insert_char(&mut self, c: char)
        requires
            old(self).wf(),
            byte_len(old(self).input@) + encode_scalar(c as u32).len() <= text_limit(),
        ensures
            final(self).wf(),
            final(self)@ == after_edit(char_inserted(old(self)@, c)),
    {
        let (k, chars) = self.char_index_of_cursor();
        let ghost s = self.input@;
        let ghost inserted = s.take(k as int).push(c) + s.skip(k as int);
        let mut out: Vec<char> = Vec::new();
        let mut i: usize = 0;
        while i < chars.len()
            invariant
                chars@ == s,
                k <= s.len(),
                i <= s.len(),
                out@ == (if i <= k { s.take(i as int) } else { s.take(k as int).push(c) + s.subrange(k as int, i as int) }),
            decreases s.len() - i,
        {
            if i == k {
                out.push(c);
                assert(out@ =~= s.take(k as int).push(c) + s.subrange(k as int, i as int));
            }
            let ghost before = out@;
            out.push(chars[i]);
            if i < k {
                assert(out@ =~= s.take(i + 1));
            } else {
                assert(out@ =~= s.take(k as int).push(c) + s.subrange(k as int, i + 1));
            }
            i = i + 1;
        }
        if k == chars.len() {
            out.push(c);
        }
        assert(out@ =~= inserted);
        let w = char_byte_len(c);
        proof {
            assert(inserted.take(k as int) =~= s.take(k as int));
            lemma_byte_len_take_step(inserted, k as int);
            assert(inserted =~= s.take(k as int) + seq![c] + s.skip(k as int));
            lemma_encode_utf8_concat(s.take(k as int) + seq![c], s.skip(k as int));
            lemma_encode_utf8_concat(s.take(k as int), s.skip(k as int));
            assert(s =~= s.take(k as int) + s.skip(k as int));
            lemma_encode_utf8_concat(s.take(k as int), seq![c]);
            crate::text::lemma_encode_utf8_single(c);
            lemma_char_width(c);
        }
        self.input = string_from_chars(out.as_slice());
        self.cursor_pos = self.cursor_pos + w;
        proof {
            assert(cursor_on_boundary(self.input@, self.cursor_pos as int)) by {
                assert(0 <= k + 1 <= inserted.len());
            }
        }
        if self.popup_open {
            self.update_filtered_popup();
        }
    }

    /// Deletes the character before the cursor, if any.
    pub fn delete_char(&mut self)
        requires
            old(self).wf(),
        ensures
            final(self).wf(),
            final(self)@ == after_edit(char_deleted(old(self)@)),
    {
        if self.cursor_pos > 0 {
            let (k, chars) = self.char_index_of_cursor();
            let ghost s = self.input@;
            proof {
                if k == 0 {
                    assert(s.take(0) =~= Seq::<char>::empty());
                    assert(byte_len(s.take(0)) == 0);
                }
            }
            let prev = char_byte_len(chars[k - 1]);
            let mut out: Vec<char> = Vec::new();
            let mut i: usize = 0;
            while i < chars.len()
                invariant
                    chars@ == s,
                    0 < k <= s.len(),
                    i <= s.len(),
                    out@ == (if i < k { s.take(i as int) } else { s.take(k - 1) + s.subrange(k as int, i as int) }),
                decreases s.len() - i,
            {
                if i + 1 != k {
                    out.push(chars[i]);
                }
                if i + 1 < k {
                    assert(out@ =~= s.take(i + 1));
                } else if i + 1 == k {
                    assert(out@ =~= s.take(k - 1) + s.subrange(k as int, i + 1));
                } else {
                    assert(out@ =~= s.take(k - 1) + s.subrange(k as int, i + 1));
                }
                i = i + 1;
            }
            assert(out@ =~= s.take(k - 1) + s.skip(k as int));
            proof {
                lemma_byte_len_take_step(s, k - 1);
                assert(s.take(k - 1) =~= (s.take(k - 1) + s.skip(k as int)).take(k - 1));
                lemma_encode_utf8_concat(s.take(k - 1), s.skip(k as int));
                lemma_encode_utf8_concat(s.take(k as int), s.skip(k as int));
                assert(s =~= s.take(k as int) + s.skip(k as int));
            }
            self.input = string_from_chars(out.as_slice());
            self.cursor_pos = self.cursor_pos - prev;
            proof {
                let t = self.input@;
                assert(t.take(k - 1) =~= s.take(k - 1));
                assert(0 <= k - 1 <= t.len());
            }
        } else {
            proof {
                let s = self.input@;
                assert(s.take(0) =~= Seq::<char>::empty());
                assert(byte_len(s.take(0)) == 0);
                let k = cursor_index(s, 0);
                lemma_byte_len_take_injective(s, k, 0);
            }
        }
        if self.popup_open {
            self.update_filtered_popup();
        }
    }

    /// Longest common prefix among a set of command names.
    fn common_prefix(items: &[Item]) -> (r: String)
        ensures
            items@.len() == 0 ==> r@ == Seq::<char>::empty(),
            items@.len() > 0 ==> is_longest_common_prefix(
                r@,
                items_view(items@)[0].0,
                names_of(items_view(items@)),
            ),
    {
        if items.len() == 0 {
            return String::new();
        }
        let ghost names = names_of(items_view(items@));
        assert(names.len() == items@.len());
        let first = chars_of(items[0].0);
        let ghost f = first@;
        assert(names[0] == f);
        let mut len: usize = first.len();
        let mut i: usize = 1;
        assert(f.subrange(0, f.len() as int) =~= f);
        while i < items.len()
            invariant
                names == names_of(items_view(items@)),
                names.len() == items@.len(),
                first@ == f,
                names[0] == f,
                1 <= i <= items@.len(),
                len <= f.len(),
                forall|j: int| 0 <= j < i ==> seq_starts_with(#[trigger] names[j], f.take(len as int)),
                len == f.len() || exists|j: int| 0 <= j < i && #[trigger] diverges(names[j], f, len as int),
            decreases items@.len() - i,
        {
            let name = chars_of(items[i].0);
            assert(name@ == names[i as int]);
            let old_len = len;
            let mut j: usize = 0;
            while j < len && j < name.len() && first[j] == name[j]
                invariant
                    first@ == f,
                    name@ == names[i as int],
                    len == old_len,
                    len <= f.len(),
                    j <= len,
                    j <= name@.len(),
                    forall|m: int| 0 <= m < j ==> f[m] == name@[m],
                decreases len - j,
            {
                j = j + 1;
            }
            len = j;
            proof {
                assert forall|m: int| 0 <= m < i + 1 implies seq_starts_with(#[trigger] names[m], f.take(len as int)) by {
                    if m < i {
                        assert(seq_starts_with(names[m], f.take(old_len as int)));
                        assert(names[m].subrange(0, len as int) =~= f.take(old_len as int).subrange(0, len as int));
                        assert(names[m].subrange(0, len as int) =~= f.take(len as int));
                    } else {
                        assert(names[m].subrange(0, len as int) =~= f.take(len as int));
                    }
                }
                if len < old_len {
                    assert(diverges(names[i as int], f, len as int));
                } else if len != f.len() {
                    let w = choose|j: int| 0 <= j < i && #[trigger] diverges(names[j], f, old_len as int);
                    assert(diverges(names[w], f, len as int));
                }
            }
            i = i + 1;
        }
        let r = string_from_chars(first.as_slice().split_at(len).0);
        assert(r@ =~= f.take(len as int));
        assert(f.subrange(0, len as int) =~= f.take(len as int));
        assert(names_of(items_view(items@))[0] == items_view(items@)[0].0);
        assert(forall|j: int| 0 <= j < names.len() ==> seq_starts_with(#[trigger] names[j], r@));
        r
    }

    /// Confirms the selected popup entry into the input, then closes the popup.
    pub fn popup_confirm(&mut self)
        requires
            old(self).wf(),
        ensures
            final(self)@ == confirmed(old(self)@),
            final(self).wf(),
            old(self).popup_open ==> byte_len(final(self)@.input) <= 2 * name_limit() + 1,
    {
        if self.popup_open {
            if self.popup_selected < self.popup_items.len() {
                let (name, _, _) = self.popup_items[self.popup_selected];
                proof {
                    assert(byte_len(item_view(self.popup_items@[self.popup_selected as int]).0) <= name_limit());
                }
                let text = match &self.popup_prefix {
                    Some(prefix) => {
                        let mut t = owned(prefix.as_str());
                        push_str(&mut t, " ");
                        push_str(&mut t, name);
                        proof {
                            lemma_encode_utf8_concat(prefix@, " "@);
                            lemma_encode_utf8_concat(prefix@ + " "@, name@);
                            lemma_space_byte_len();
                        }
                        t
                    },
                    None => owned(name),
                };
                let n = str_byte_len(text.as_str());
                self.input = text;
                self.cursor_pos = n;
                proof {
                    lemma_cursor_at_end(self.input@);
                }
            }
            self.popup_open = false;
            self.popup_items.clear();
            self.popup_selected = 0;
            self.popup_scroll = 0;
            self.popup_prefix = None;
            assert(items_view(self.popup_items@) =~= Seq::<ItemView>::empty());
        }
    }

    /// Tab autocomplete (zsh-style).
    /// - Empty input → open full popup
    /// - Single match → fill command + trailing space
    /// - Multiple matches → complete common prefix + open filtered popup
    /// - Popup already open → confirm selected item + trailing space
    pub fn tab_complete(&mut self)
        requires
            old(self).wf(),
        ensures
            final(self)@ == tab_completed(old(self)@),
            final(self).wf(),
    {
        if self.popup_open {
            self.popup_confirm();
            let chars = chars_of(self.input.as_str());
            if chars.len() > 0 && chars[chars.len() - 1] != ' ' {
                let ghost before = self.input@;
                push_char(&mut self.input, ' ');
                proof {
                    lemma_encode_utf8_concat(before, seq![' ']);
                    crate::text::lemma_encode_utf8_single(' ');
                    assert(before.push(' ') =~= before + seq![' ']);
                }
                self.cursor_pos = str_byte_len(self.input.as_str());
                proof {
                    lemma_cursor_at_end(self.input@);
                }
            }
            return;
        }
        let q = self.query();
        if q.as_str().is_empty() {
            self.open_popup();
            return;
        }
        if crate::text::str_contains_char(q.as_str(), ' ') {
            return;
        }
        let matches = Self::matching_commands(q.as_str());
        proof {
            lemma_matching_names_fit(spec_commands(), q@);
        }
        if matches.len() == 0 {
            return;
        }
        if matches.len() == 1 {
            let text = concat_str(matches[0].0, " ");
            proof {
                assert(byte_len(items_view(matches@)[0].0) <= name_limit());
                lemma_encode_utf8_concat(matches@[0].0@, " "@);
                lemma_space_byte_len();
            }
            let n = str_byte_len(text.as_str());
            self.input = text;
            self.cursor_pos = n;
            proof {
                lemma_cursor_at_end(self.input@);
            }
            return;
        }
        let common = Self::common_prefix(matches.as_slice());
        proof {
            lemma_common_prefix_unique_choice(items_view(matches@), common@);
        }
        if chars_of(common.as_str()).len() > chars_of(q.as_str()).len() {
            proof {
                let first = items_view(matches@)[0].0;
                assert(byte_len(first) <= name_limit());
                assert(first =~= common@ + first.skip(common@.len() as int));
                lemma_encode_utf8_concat(common@, first.skip(common@.len() as int));
            }
            let n = str_byte_len(common.as_str());
            self.input = common;
            self.cursor_pos = n;
            proof {
                lemma_cursor_at_end(self.input@);
            }
        }
        self.open_filtered_popup();
    }

    /// Keeps the selection within the visible window.
    fn adjust_scroll(&mut self)
        requires
            old(self).popup_scroll + POPUP_MAX_VISIBLE <= usize::MAX,
            old(self).popup_selected < usize::MAX,
        ensures
            final(self)@ == (CommandBarView {
                popup_scroll: adjust(old(self)@.popup_selected, old(self)@.popup_scroll),
                ..old(self)@
            }),
            final(self).popup_scroll + POPUP_MAX_VISIBLE <= usize::MAX,
    {
        let max_vis = POPUP_MAX_VISIBLE;
        if self.popup_selected < self.popup_scroll {
            self.popup_scroll = self.popup_selected;
        } else if self.popup_selected >= self.popup_scroll + max_vis {
            self.popup_scroll = self.popup_selected + 1 - max_vis;
        }
    }

    /// Moves the popup selection up (wrapping), or opens the popup.
    pub fn popup_up(&mut self)
        requires
            old(self).wf(),
        ensures
            final(self)@ == moved_up(old(self)@),
            final(self).wf(),
    {
        if !self.popup_open {
            let query_owned = trim(self.input.as_str());
            let query = query_owned.as_str();
            if query.is_empty() || crate::text::str_contains_char(query, ' ') {
                self.open_popup();
            } else {
                self.open_filtered_popup();
            }
            return;
        }
        if self.popup_selected > 0 {
            self.popup_selected = self.popup_selected - 1;
        } else {
            self.popup_selected = self.popup_items.len().saturating_sub(1);
        }
        let ghost s0 = self@.popup_selected;
        assert(s0 < usize::MAX);
        self.skip_separator_backward();
        proof {
            lemma_skip_bwd_bounds(self@.popup_items, s0);
        }
        self.adjust_scroll();
    }

    /// Moves the popup selection down (wrapping), or opens the popup.
    pub fn popup_down(&mut self)
        requires
            old(self).wf(),
        ensures
            final(self)@ == moved_down(old(self)@),
            final(self).wf(),
    {
        if !self.popup_open {
            let query_owned = trim(self.input.as_str());
            let query = query_owned.as_str();
            if query.is_empty() || crate::text::str_contains_char(query, ' ') {
                self.open_popup();
            } else {
                self.open_filtered_popup();
            }
            return;
        }
        if self.popup_selected + 1 < self.popup_items.len() {
            self.popup_selected = self.popup_selected + 1;
        } else {
            self.popup_selected = 0;
        }
        let ghost s0 = self@.popup_selected;
        self.skip_separator_forward();
        proof {
            lemma_skip_fwd_bounds(self@.popup_items, s0);
        }
        self.adjust_scroll();
    }

    /// Enter: confirms the popup, or parses the line and closes the bar.
    pub fn submit(&mut self) -> (r: Option<Command>)
        requires
            old(self).wf(),
        ensures
            final(self).wf(),
            old(self).popup_open ==> r is None && final(self)@ == confirmed(old(self)@),
            !old(self).popup_open && old(self)@.input.len() == 0 ==> r is None && final(self)@
                == inactive_cleared(old(self)@, false),
            !old(self).popup_open && old(self)@.input.len() > 0 ==> (r matches Some(c) && c@
                == spec_parse_command(old(self)@.input)) && final(self)@ == inactive_cleared(old(self)@, false),
    {
        if self.popup_open {
            self.popup_confirm();
            return None;
        }
        if self.input.as_str().is_empty() {
            self.deactivate();
            return None;
        }
        let cmd = parse_command(self.input.as_str());
        self.deactivate();
        Some(cmd)
    }
}

/// A single space is one byte.
proof fn lemma_space_byte_len()
    ensures
        byte_len(" "@) == 1,
{
    reveal_strlit(" ");
    assert(" "@ =~= seq![' ']);
    crate::text::lemma_encode_utf8_single(' ');
}

/// A cursor at the end of the text sits on a boundary.
proof fn lemma_cursor_at_end(s: Seq<char>)
    ensures
        cursor_on_boundary(s, byte_len(s) as int),
{
    assert(s.take(s.len() as int) =~= s);
}

/// Forward skipping stays within the list.
proof fn lemma_skip_fwd_bounds(items: Seq<ItemView>, sel: int)
    requires
        0 <= sel < items.len(),
    ensures
        sel <= skip_fwd(items, sel) < items.len(),
    decreases items.len() - sel,
{
    if sel + 1 < items.len() && is_sep(items[sel]) {
        lemma_skip_fwd_bounds(items, sel + 1);
    }
}

/// Backward skipping never leaves the list, unless it started outside it.
proof fn lemma_skip_bwd_bounds(items: Seq<ItemView>, sel: int)
    ensures
        skip_bwd(items, sel) <= sel,
        0 <= sel ==> 0 <= skip_bwd(items, sel),
    decreases sel,
{
    if 0 < sel && sel < items.len() && is_sep(items[sel]) {
        lemma_skip_bwd_bounds(items, sel - 1);
    }
}

/// The names of the workspace commands are short.
proof fn lemma_command_names_fit()
    ensures
        names_fit(spec_commands()),
{
    assert forall|i: int| 0 <= i < spec_commands().len() implies byte_len(#[trigger] spec_commands()[i].0) <= 16 by {
        lemma_ascii_literal_names(i);
    }
}

/// Each command name is ASCII and at most ten characters long.
proof fn lemma_ascii_literal_names(i: int)
    requires
        0 <= i < spec_commands().len(),
    ensures
        byte_len(spec_commands()[i].0) <= 16,
{
    let n = spec_commands()[i].0;
    reveal_strlit("info");
    reveal_strlit("bless");
    reveal_strlit("pulse");
    reveal_strlit("seed");
    reveal_strlit("ascend");
    reveal_strlit("purge");
    reveal_strlit("");
    reveal_strlit("plugin");
    reveal_strlit("train");
    reveal_strlit("finetune");
    reveal_strlit("infer");
    reveal_strlit("preprocess");
    reveal_strlit("evaluate");
    reveal_strlit("rag");
    reveal_strlit("embed");
    reveal_strlit("cancel");
    reveal_strlit("quit");
    assert(n.len() <= 10);
    assert(all_ascii(n));
    lemma_ascii_byte_len(n);
}

/// ASCII text takes one byte per character.
pub proof fn lemma_ascii_byte_len(s: Seq<char>)
    requires
        all_ascii(s),
    ensures
        byte_len(s) == s.len(),
    decreases s.len(),
{
    if s.len() > 0 {
        lemma_ascii_byte_len(s.drop_first());
        assert(s =~= seq![s[0]] + s.drop_first());
        lemma_encode_utf8_concat(seq![s[0]], s.drop_first());
        crate::text::lemma_encode_utf8_single(s[0]);
    } else {
        assert(vstd::utf8::encode_utf8(s) =~= Seq::<u8>::empty());
    }
}

/// Entries chosen from a list whose names fit have names that fit.
proof fn lemma_matching_names_fit(items: Seq<ItemView>, q: Seq<char>)
    requires
        names_fit(items) || items == spec_commands(),
    ensures
        names_fit(matching(items, q)),
        forall|i: int| 0 <= i < matching(items, q).len() ==> selects(#[trigger] matching(items, q)[i], q),
    decreases items.len(),
{
    if items == spec_commands() {
        lemma_command_names_fit();
    }
    if items.len() > 0 {
        assert(names_fit(items.drop_last()));
        lemma_matching_names_fit(items.drop_last(), q);
        let r = matching(items.drop_last(), q);
        if selects(items.last(), q) {
            assert forall|i: int| 0 <= i < r.push(items.last()).len() implies byte_len(#[trigger] r.push(items.last())[i].0) <= name_limit() by {
                if i < r.len() {
                    assert(r.push(items.last())[i] == r[i]);
                }
            }
            assert forall|i: int| 0 <= i < r.push(items.last()).len() implies selects(#[trigger] r.push(items.last())[i], q) by {
                if i < r.len() {
                    assert(r.push(items.last())[i] == r[i]);
                }
            }
        }
    }
}

/// The longest common prefix is unique, so the one chosen by the specification is the one computed.
/// Tab with the popup closed, on a typed name that two or more commands
/// start with: when their names share a longest common prefix longer than
/// what was typed, the input becomes that prefix, with the cursor at its end,
/// and the popup opens on the matching commands.
pub proof fn lemma_tab_fills_common_prefix(v: CommandBarView, p: Seq<char>)
    requires
        !v.popup_open,
        query_of(v.input).len() > 0,
        !query_of(v.input).contains(' '),
        matching(spec_commands(), query_of(v.input)).len() >= 2,
        is_longest_common_prefix(p, matching(spec_commands(), query_of(v.input))[0].0,
            names_of(matching(spec_commands(), query_of(v.input)))),
        p.len() > query_of(v.input).len(),
    ensures
        tab_completed(v).input == p,
        tab_completed(v).cursor_pos == byte_len(p),
        matching(spec_commands(), query_of(p)).len() > 0 ==> tab_completed(v).popup_open,
{
    let m = matching(spec_commands(), query_of(v.input));
    lemma_common_prefix_unique_choice(m, p);
}

proof fn lemma_common_prefix_unique_choice(items: Seq<ItemView>, p: Seq<char>)
    requires
        items.len() > 0,
        is_longest_common_prefix(p, items[0].0, names_of(items)),
    ensures
        spec_common_prefix(items) == p,
{
    let c = spec_common_prefix(items);
    assert(is_longest_common_prefix(c, items[0].0, names_of(items)));
    lemma_lcp_unique(c, p, items[0].0, names_of(items));
}

proof fn lemma_lcp_unique(p1: Seq<char>, p2: Seq<char>, first: Seq<char>, names: Seq<Seq<char>>)
    requires
        is_longest_common_prefix(p1, first, names),
        is_longest_common_prefix(p2, first, names),
    ensures
        p1 == p2,
{
    lemma_lcp_not_shorter(p1, p2, first, names);
    lemma_lcp_not_shorter(p2, p1, first, names);
    assert(p1 =~= first.subrange(0, p1.len() as int));
    assert(p2 =~= first.subrange(0, p2.len() as int));
}

proof fn lemma_lcp_not_shorter(p1: Seq<char>, p2: Seq<char>, first: Seq<char>, names: Seq<Seq<char>>)
    requires
        is_longest_common_prefix(p1, first, names),
        is_longest_common_prefix(p2, first, names),
    ensures
        p1.len() >= p2.len(),
{
    if p1.len() >= p2.len() || p1.len() == first.len() {
    } else {
        let i = choose|i: int| 0 <= i < names.len() && #[trigger] diverges(names[i], first, p1.len() as int);
        assert(seq_starts_with(names[i], p2));
        assert(names[i].subrange(0, p2.len() as int)[p1.len() as int] == p2[p1.len() as int]);
        assert(first.subrange(0, p2.len() as int)[p1.len() as int] == p2[p1.len() as int]);
    }
}


// ---------------------------------------------------------------------------
// The popup invariant
// ---------------------------------------------------------------------------

/// Separators never stand first, last, or next to each other.
pub open spec fn separators_isolated(items: Seq<ItemView>) -> bool {
    &&& items.len() > 0 ==> !is_sep(items[0]) && !is_sep(items[items.len() - 1])
    &&& forall|i: int| 0 <= i < items.len() - 1 && is_sep(#[trigger] items[i]) ==> !is_sep(items[i + 1])
}

/// An open popup shows a list whose separators are isolated, with the
/// selection on a command (never a separator) inside the visible window.
pub open spec fn popup_consistent(v: CommandBarView) -> bool {
    v.popup_open ==> {
        &&& separators_isolated(v.popup_items)
        &&& 0 <= v.popup_selected < v.popup_items.len()
        &&& !is_sep(v.popup_items[v.popup_selected])
        &&& v.popup_scroll <= v.popup_selected < v.popup_scroll + POPUP_MAX_VISIBLE
    }
}

/// The workspace list has its separators in the middle, never adjacent.
proof fn lemma_command_table_shape()
    ensures
        spec_commands().len() == 18,
        separators_isolated(spec_commands()),
        !is_sep(spec_commands()[0]),
{
    reveal_strlit("info");
    reveal_strlit("bless");
    reveal_strlit("pulse");
    reveal_strlit("seed");
    reveal_strlit("ascend");
    reveal_strlit("purge");
    reveal_strlit("");
    reveal_strlit("plugin");
    reveal_strlit("train");
    reveal_strlit("finetune");
    reveal_strlit("infer");
    reveal_strlit("preprocess");
    reveal_strlit("evaluate");
    reveal_strlit("rag");
    reveal_strlit("embed");
    reveal_strlit("cancel");
    reveal_strlit("quit");
    let t = spec_commands();
    assert forall|i: int| 0 <= i < t.len() - 1 && is_sep(#[trigger] t[i]) implies !is_sep(t[i + 1]) by {
        assert(i == 6 || i == 15);
    }
}

/// A filtered list holds no separators and is no longer than the list it filters.
proof fn lemma_matching_shape(items: Seq<ItemView>, q: Seq<char>)
    ensures
        matching(items, q).len() <= items.len(),
        forall|i: int| 0 <= i < matching(items, q).len() ==> !is_sep(#[trigger] matching(items, q)[i]),
    decreases items.len(),
{
    if items.len() > 0 {
        lemma_matching_shape(items.drop_last(), q);
        let r = matching(items.drop_last(), q);
        if selects(items.last(), q) {
            assert forall|i: int| 0 <= i < r.push(items.last()).len() implies !is_sep(#[trigger] r.push(items.last())[i]) by {
                if i < r.len() {
                    assert(r.push(items.last())[i] == r[i]);
                }
            }
        }
    }
}

proof fn lemma_opened_consistent(v: CommandBarView)
    ensures
        popup_consistent(opened(v)),
{
    lemma_command_table_shape();
}

proof fn lemma_opened_filtered_consistent(v: CommandBarView)
    ensures
        popup_consistent(opened_filtered(v)),
{
    lemma_matching_shape(spec_commands(), query_of(v.input));
    lemma_command_table_shape();
}

proof fn lemma_updated_filtered_consistent(v: CommandBarView)
    requires
        popup_consistent(v),
    ensures
        popup_consistent(updated_filtered(v)),
{
    lemma_matching_shape(spec_commands(), query_of(v.input));
    lemma_command_table_shape();
}

/// The popup invariant is kept by every operation of the command bar: the
/// selection of an open popup is always on a command inside the visible window.
pub proof fn lemma_popup_consistency_preserved(v: CommandBarView, c: char)
    requires
        popup_consistent(v),
    ensures
        popup_consistent(moved_up(v)),
        popup_consistent(moved_down(v)),
        popup_consistent(tab_completed(v)),
        popup_consistent(confirmed(v)),
        popup_consistent(closed(v)),
        popup_consistent(opened(v)),
        popup_consistent(inactive_cleared(v, true)),
        popup_consistent(inactive_cleared(v, false)),
        forall|w: CommandBarView|
            (w.popup_open == v.popup_open && w.popup_items == v.popup_items && w.popup_selected
                == v.popup_selected && w.popup_scroll == v.popup_scroll) ==> popup_consistent(#[trigger] after_edit(w)),
{
    lemma_opened_consistent(v);
    lemma_opened_filtered_consistent(v);
    assert forall|w: CommandBarView|
        (w.popup_open == v.popup_open && w.popup_items == v.popup_items && w.popup_selected
            == v.popup_selected && w.popup_scroll == v.popup_scroll) implies popup_consistent(#[trigger] after_edit(w)) by {
        if w.popup_open {
            lemma_updated_filtered_consistent(w);
        }
    }
    if v.popup_open {
        let items = v.popup_items;
        let n = items.len();
        // moving down
        let d0 = if v.popup_selected + 1 < n { v.popup_selected + 1 } else { 0 };
        if is_sep(items[d0]) {
            assert(d0 + 1 < n);
            assert(!is_sep(items[d0 + 1]));
            assert(skip_fwd(items, d0 + 1) == d0 + 1);
        }
        // moving up
        let u0 = if v.popup_selected > 0 { v.popup_selected - 1 } else { n - 1 };
        if is_sep(items[u0]) {
            assert(u0 > 0);
            assert(!is_sep(items[u0 - 1])) by {
                assert(is_sep(items[u0 - 1]) ==> !is_sep(items[u0 - 1 + 1]));
            }
            assert(skip_bwd(items, u0 - 1) == u0 - 1);
        }
        // tab with the popup open confirms and closes it
    } else {
        let q = query_of(v.input);
        if q.len() > 0 && !q.contains(' ') {
            let m = matching(spec_commands(), q);
            if m.len() > 1 {
                let common = spec_common_prefix(m);
                let v1 = if common.len() > q.len() { set_input_at_end(v, common) } else { v };
                lemma_opened_filtered_consistent(v1);
            }
        }
    }
}

} // verus!
