//! The small HTTP server that hands agent binaries to machines being
//! installed: which binary each architecture gets, and what a request for a
//! path is answered.
use vstd::prelude::*;
use crate::text::{owned, push_str, str_eq, str_starts_with, seq_starts_with, chars_of, string_from_chars, views,
    char_is_whitespace, spec_is_whitespace};
use crate::numparse::{decimal_string, decimal_text};
use vstd::utf8::encode_utf8;

verus! {

/// The `Debug` text of a list of strings, as `format!("{:?}", ..)` writes it.
pub uninterp spec fn debug_list_text(items: Seq<Seq<char>>) -> Seq<char>;

/// Writes a list of strings in its `Debug` form.
///
/// Calls `format!("{:?}", ..)` on the list, whose text is named
/// `debug_list_text`; the brackets, quotes and escapes std writes are left
/// unsaid.
#[verifier::external_body]
fn debug_list(items: &Vec<String>) -> (r: String)
    ensures
        r@ == debug_list_text(views(items@)),
{
    format!("{:?}", items)
}

/// Serves agent binaries over HTTP; binaries are files given by path.
pub struct AgentServer {
    addr: String,
    arches: Vec<String>,
    paths: Vec<String>,
}

/// How a request for a path is answered.
pub enum AgentReply {
    /// The binary at this file path.
    Binary(String),
    /// Not found: the body names the architecture and those available.
    UnknownArch(String),
    /// Any other path: a line saying what the server does.
    Banner(String),
}

spec fn arch_map(arches: Seq<Seq<char>>, paths: Seq<Seq<char>>) -> Map<Seq<char>, Seq<char>>
    decreases arches.len(),
{
    if arches.len() == 0 || paths.len() == 0 {
        Map::empty()
    } else {
        arch_map(arches.drop_last(), paths.drop_last()).insert(arches.last(), paths.last())
    }
}

spec fn distinct(s: Seq<Seq<char>>) -> bool {
    forall|i: int, j: int| 0 <= i < s.len() && 0 <= j < s.len() && i != j ==> s[i] != s[j]
}

proof fn lemma_arch_map(arches: Seq<Seq<char>>, paths: Seq<Seq<char>>)
    requires
        arches.len() == paths.len(),
        distinct(arches),
    ensures
        forall|a: Seq<char>| #[trigger] arch_map(arches, paths).contains_key(a) <==> arches.contains(a),
        forall|i: int| 0 <= i < arches.len() ==> arch_map(arches, paths)[#[trigger] arches[i]] == paths[i],
    decreases arches.len(),
{
    if arches.len() > 0 {
        let da = arches.drop_last();
        let dp = paths.drop_last();
        assert(distinct(da)) by {
            assert forall|i: int, j: int| 0 <= i < da.len() && 0 <= j < da.len() && i != j implies da[i] != da[j] by {
                assert(da[i] == arches[i] && da[j] == arches[j]);
            }
        }
        lemma_arch_map(da, dp);
        assert forall|a: Seq<char>| #[trigger] arch_map(arches, paths).contains_key(a) <==> arches.contains(a) by {
            assert(arch_map(arches, paths).contains_key(a) == (a == arches.last() || arch_map(da, dp).contains_key(a)));
            if arches.contains(a) && a != arches.last() {
                let k = choose|k: int| 0 <= k < arches.len() && arches[k] == a;
                assert(da[k] == a);
            }
            if da.contains(a) {
                let k = choose|k: int| 0 <= k < da.len() && da[k] == a;
                assert(arches[k] == a);
            }
            if a == arches.last() {
                assert(arches[arches.len() - 1] == a);
            }
        }
        assert forall|i: int| 0 <= i < arches.len() implies arch_map(arches, paths)[#[trigger] arches[i]] == paths[i] by {
            if i < arches.len() - 1 {
                assert(da[i] == arches[i]);
                assert(arches[i] != arches[arches.len() - 1]);
            }
        }
    }
}

fn find_arch(arches: &Vec<String>, arch: &str) -> (r: Option<usize>)
    ensures
        match r {
            Some(i) => i < arches@.len() && arches@[i as int]@ == arch@,
            None => !views(arches@).contains(arch@),
        },
{
    let mut i: usize = 0;
    while i < arches.len()
        invariant
            i <= arches@.len(),
            forall|k: int| 0 <= k < i ==> (#[trigger] arches@[k])@ != arch@,
        decreases arches@.len() - i,
    {
        if str_eq(arches[i].as_str(), arch) {
            return Some(i);
        }
        i = i + 1;
    }
    proof {
        if views(arches@).contains(arch@) {
            let k = choose|k: int| 0 <= k < views(arches@).len() && views(arches@)[k] == arch@;
            assert(arches@[k]@ == arch@);
        }
    }
    None
}

/// The banner of any path but `/agent/<arch>`.
pub open spec fn banner() -> Seq<char> {
    "Architect Agent Server. GET /agent/<arch> to download."@
}

impl AgentServer {
    /// The file path registered for each architecture.
    pub closed spec fn view(&self) -> Map<Seq<char>, Seq<char>> {
        arch_map(views(self.arches@), views(self.paths@))
    }

    /// The architectures in the order they were first registered.
    pub closed spec fn spec_arches(&self) -> Seq<Seq<char>> {
        views(self.arches@)
    }

    pub closed spec fn spec_addr(&self) -> Seq<char> {
        self.addr@
    }

    #[verifier::type_invariant]
    closed spec fn inv(&self) -> bool {
        self.arches@.len() == self.paths@.len() && distinct(views(self.arches@))
    }

    /// A server for the given listen address, with no binary yet.
    pub fn new(addr: String) -> (r: Self)
        ensures
            r.view() == Map::<Seq<char>, Seq<char>>::empty(),
            r.spec_arches() == Seq::<Seq<char>>::empty(),
            r.spec_addr() == addr@,
    {
        let r = AgentServer { addr, arches: Vec::new(), paths: Vec::new() };
        assert(views(r.arches@) =~= Seq::<Seq<char>>::empty());
        r
    }

    /// Registers the binary for an architecture, replacing an earlier one.
    pub fn add_binary(&mut self, arch: &str, path: String)
        ensures
            final(self).view() == old(self).view().insert(arch@, path@),
            final(self).spec_arches() == if old(self).spec_arches().contains(arch@) {
                old(self).spec_arches()
            } else {
                old(self).spec_arches().push(arch@)
            },
            final(self).spec_addr() == old(self).spec_addr(),
    {
        proof {
            use_type_invariant(&*self);
            lemma_arch_map(views(self.arches@), views(self.paths@));
        }
        let ghost a0 = views(self.arches@);
        let ghost p0 = views(self.paths@);
        let mut taken = AgentServer::new(String::new());
        std::mem::swap(&mut taken, self);
        let AgentServer { addr, mut arches, mut paths } = taken;
        let pos = find_arch(&arches, arch);
        if let Some(i) = pos {
            paths.set(i, path);
            proof {
                assert(views(arches@)[i as int] == arch@);
                assert(a0.contains(arch@));
                lemma_arch_map(views(arches@), views(paths@));
                assert(arch_map(views(arches@), views(paths@)) =~= arch_map(a0, p0).insert(arch@, views(paths@)[i as int]));
            }
        } else {
            arches.push(owned(arch));
            paths.push(path);
            proof {
                assert(views(arches@) =~= a0.push(arch@));
                assert(views(paths@).drop_last() =~= p0);
                assert(views(arches@).drop_last() =~= a0);
                assert(distinct(views(arches@))) by {
                    assert forall|x: int, y: int| 0 <= x < views(arches@).len() && 0 <= y < views(arches@).len() && x != y
                        implies views(arches@)[x] != views(arches@)[y] by {
                        if x < a0.len() && y < a0.len() {
                        } else if x < a0.len() {
                            assert(views(arches@)[x] == a0[x]);
                        } else {
                            assert(views(arches@)[y] == a0[y]);
                        }
                    }
                }
            }
        }
        *self = AgentServer { addr, arches, paths };
    }

    /// The architectures a binary is registered for.
    pub fn available_architectures(&self) -> (r: Vec<String>)
        ensures
            views(r@) == self.spec_arches(),
    {
        let mut r: Vec<String> = Vec::new();
        let mut i: usize = 0;
        while i < self.arches.len()
            invariant
                i <= self.arches@.len(),
                views(r@) == views(self.arches@).take(i as int),
            decreases self.arches@.len() - i,
        {
            let ghost before = r@;
            r.push(owned(self.arches[i].as_str()));
            proof {
                assert(views(r@) =~= views(before).push(self.arches@[i as int]@));
                assert(views(self.arches@).take(i + 1) =~= views(self.arches@).take(i as int).push(views(self.arches@)[i as int]));
            }
            i = i + 1;
        }
        proof {
            assert(views(self.arches@).take(self.arches@.len() as int) =~= views(self.arches@));
        }
        r
    }

    /// Answers a request for a path: `/agent/<arch>` gets that binary, or a
    /// not-found body naming the architecture and those available; any other
    /// path gets the banner.
    pub fn reply(&self, path: &str) -> (r: AgentReply)
        ensures
            seq_starts_with(path@, "/agent/"@) ==> {
                let arch = path@.skip(7);
                if self.view().contains_key(arch) {
                    r matches AgentReply::Binary(p) && p@ == self.view()[arch]
                } else {
                    r matches AgentReply::UnknownArch(b) && b@ == "Unknown arch: "@ + arch + ". Available: "@
                        + debug_list_text(self.spec_arches())
                }
            },
            !seq_starts_with(path@, "/agent/"@) ==> (r matches AgentReply::Banner(b) && b@ == banner()),
    {
        proof {
            use_type_invariant(self);
            lemma_arch_map(views(self.arches@), views(self.paths@));
            reveal_strlit("/agent/");
        }
        if !str_starts_with(path, "/agent/") {
            return AgentReply::Banner(owned("Architect Agent Server. GET /agent/<arch> to download."));
        }
        let cs = chars_of(path);
        let mut rest: Vec<char> = Vec::new();
        let mut k: usize = 7;
        while k < cs.len()
            invariant
                7 <= k <= cs@.len(),
                rest@ == cs@.subrange(7, k as int),
            decreases cs@.len() - k,
        {
            rest.push(cs[k]);
            k = k + 1;
            assert(rest@ =~= cs@.subrange(7, k as int));
        }
        assert(rest@ =~= path@.skip(7));
        let arch = string_from_chars(rest.as_slice());
        match find_arch(&self.arches, arch.as_str()) {
            Some(i) => {
                proof {
                    assert(views(self.arches@)[i as int] == arch@);
                }
                AgentReply::Binary(owned(self.paths[i].as_str()))
            },
            None => {
                let listed = self.available_architectures();
                let mut b = owned("Unknown arch: ");
                push_str(&mut b, arch.as_str());
                push_str(&mut b, ". Available: ");
                let d = debug_list(&listed);
                push_str(&mut b, d.as_str());
                AgentReply::UnknownArch(b)
            },
        }
    }
}

// ---------------------------------------------------------------------------
// Requests and responses
// ---------------------------------------------------------------------------

/// The end of the line that starts at `i`: the first newline from `i` on, or
/// the end of the text.
pub open spec fn line_end(s: Seq<char>, i: int) -> int
    decreases s.len() - i,
{
    if i >= s.len() || s[i] == '\n' {
        i
    } else {
        line_end(s, i + 1)
    }
}

/// The first position from `i` on that is not whitespace (or the end).
pub open spec fn ws_end(s: Seq<char>, i: int) -> int
    decreases s.len() - i,
{
    if i < s.len() && spec_is_whitespace(s[i]) {
        ws_end(s, i + 1)
    } else {
        i
    }
}

/// The first position from `i` on that is whitespace (or the end).
pub open spec fn word_end(s: Seq<char>, i: int) -> int
    decreases s.len() - i,
{
    if i < s.len() && !spec_is_whitespace(s[i]) {
        word_end(s, i + 1)
    } else {
        i
    }
}

/// The path of an HTTP request: the second whitespace-separated word of its
/// first line, or `/` when there is none.
pub open spec fn spec_request_path(request: Seq<char>) -> Seq<char> {
    let line = request.take(line_end(request, 0));
    let a = ws_end(line, 0);
    let b = word_end(line, a);
    let c = ws_end(line, b);
    let d = word_end(line, c);
    if c < d {
        line.subrange(c, d)
    } else {
        "/"@
    }
}

fn line_end_exec(s: &Vec<char>, i: usize) -> (r: usize)
    requires
        i <= s@.len(),
    ensures
        r == line_end(s@, i as int),
        i <= r <= s@.len(),
{
    let mut j = i;
    while j < s.len() && s[j] != '\n'
        invariant
            i <= j <= s@.len(),
            line_end(s@, i as int) == line_end(s@, j as int),
        decreases s@.len() - j,
    {
        j = j + 1;
    }
    j
}

fn ws_end_exec(s: &Vec<char>, i: usize) -> (r: usize)
    requires
        i <= s@.len(),
    ensures
        r == ws_end(s@, i as int),
        i <= r <= s@.len(),
{
    let mut j = i;
    while j < s.len() && char_is_whitespace(s[j])
        invariant
            i <= j <= s@.len(),
            ws_end(s@, i as int) == ws_end(s@, j as int),
        decreases s@.len() - j,
    {
        j = j + 1;
    }
    j
}

fn word_end_exec(s: &Vec<char>, i: usize) -> (r: usize)
    requires
        i <= s@.len(),
    ensures
        r == word_end(s@, i as int),
        i <= r <= s@.len(),
{
    let mut j = i;
    while j < s.len() && !char_is_whitespace(s[j])
        invariant
            i <= j <= s@.len(),
            word_end(s@, i as int) == word_end(s@, j as int),
        decreases s@.len() - j,
    {
        j = j + 1;
    }
    j
}

/// The path a request asks for (see `spec_request_path`).
pub fn request_path(request: &str) -> (r: String)
    ensures
        r@ == spec_request_path(request@),
{
    let all = chars_of(request);
    let end = line_end_exec(&all, 0);
    let mut line: Vec<char> = Vec::new();
    let mut k: usize = 0;
    while k < end
        invariant
            end <= all@.len(),
            k <= end,
            line@ == all@.take(k as int),
        decreases end - k,
    {
        line.push(all[k]);
        k = k + 1;
        assert(line@ =~= all@.take(k as int));
    }
    let a = ws_end_exec(&line, 0);
    let b = word_end_exec(&line, a);
    let c = ws_end_exec(&line, b);
    let d = word_end_exec(&line, c);
    if c < d {
        let mut w: Vec<char> = Vec::new();
        let mut k: usize = c;
        while k < d
            invariant
                c <= k <= d,
                d <= line@.len(),
                w@ == line@.subrange(c as int, k as int),
            decreases d - k,
        {
            w.push(line[k]);
            k = k + 1;
            assert(w@ =~= line@.subrange(c as int, k as int));
        }
        string_from_chars(w.as_slice())
    } else {
        owned("/")
    }
}

/// The head of an HTTP/1.0 response: its status line (`200 OK` or `404 Not
/// Found`), the body's length, for a binary also its content type, and the
/// blank line.
pub open spec fn response_head(found: bool, octet_stream: bool, content_length: nat) -> Seq<char> {
    (if found { "HTTP/1.0 200 OK\r\n"@ } else { "HTTP/1.0 404 Not Found\r\n"@ })
        + "Content-Length: "@ + decimal_text(content_length) + "\r\n"@
        + (if octet_stream { "Content-Type: application/octet-stream\r\n"@ } else { Seq::<char>::empty() })
        + "\r\n"@
}

/// A response: the head text and the body bytes written after it.
pub struct HttpResponse {
    pub head: String,
    pub body: Vec<u8>,
}

fn head_text(found: bool, octet_stream: bool, len: usize) -> (r: String)
    ensures
        r@ == response_head(found, octet_stream, len as nat),
{
    let mut h = if found { owned("HTTP/1.0 200 OK\r\n") } else { owned("HTTP/1.0 404 Not Found\r\n") };
    push_str(&mut h, "Content-Length: ");
    let n = decimal_string(len as u64);
    push_str(&mut h, n.as_str());
    push_str(&mut h, "\r\n");
    if octet_stream {
        push_str(&mut h, "Content-Type: application/octet-stream\r\n");
    }
    push_str(&mut h, "\r\n");
    proof {
        assert(((len as u64) as nat) == len as nat);
    }
    h
}

/// The UTF-8 bytes of a text.
fn text_bytes(s: &str) -> (r: Vec<u8>)
    ensures
        r@ == encode_utf8(s@),
{
    let b = s.as_bytes();
    let mut out: Vec<u8> = Vec::new();
    let mut k: usize = 0;
    while k < b.len()
        invariant
            k <= b@.len(),
            out@ == b@.take(k as int),
        decreases b@.len() - k,
    {
        out.push(b[k]);
        k = k + 1;
        assert(out@ =~= b@.take(k as int));
    }
    assert(b@.take(b@.len() as int) =~= b@);
    out
}

fn text_response(found: bool, body: &str) -> (r: HttpResponse)
    ensures
        r.body@ == encode_utf8(body@),
        r.head@ == response_head(found, false, r.body@.len()),
{
    let bytes = text_bytes(body);
    let head = head_text(found, false, bytes.len());
    HttpResponse { head, body: bytes }
}

/// The response to a reply. `read` is what reading the file of a `Binary`
/// reply gave (its contents, or the message of the error); it is not looked
/// at for the other replies. A binary goes out with `200 OK` and its content
/// type; an unreadable one gets `404` and `Binary not found: <message>`; an
/// unknown architecture gets `404` with its body; the banner `200 OK`. Every
/// head gives the exact length of the body it precedes.
pub fn answer(reply: &AgentReply, read: Result<Vec<u8>, String>) -> (r: HttpResponse)
    ensures
        match *reply {
            AgentReply::Binary(_) => match read {
                Ok(d) => r.body@ == d@ && r.head@ == response_head(true, true, d@.len()),
                Err(e) => r.body@ == encode_utf8("Binary not found: "@ + e@)
                    && r.head@ == response_head(false, false, r.body@.len()),
            },
            AgentReply::UnknownArch(b) => r.body@ == encode_utf8(b@) && r.head@ == response_head(false, false, r.body@.len()),
            AgentReply::Banner(b) => r.body@ == encode_utf8(b@) && r.head@ == response_head(true, false, r.body@.len()),
        },
{
    match reply {
        AgentReply::Binary(_) => match read {
            Ok(d) => {
                let head = head_text(true, true, d.len());
                HttpResponse { head, body: d }
            },
            Err(e) => {
                let mut m = owned("Binary not found: ");
                push_str(&mut m, e.as_str());
                text_response(false, m.as_str())
            },
        },
        AgentReply::UnknownArch(b) => text_response(false, b.as_str()),
        AgentReply::Banner(b) => text_response(true, b.as_str()),
    }
}

} // verus!
