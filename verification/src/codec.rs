//! The persisted document: a TOML-shaped plain-text form of the project
//! collection, with an exact writer and a strict parser. The document holds
//! one `[[projects]]` block per project, in order, each with a quoted
//! `name`, `description` and `status` line; an empty collection is written
//! as `projects = []`. The selection index and the file path are never part
//! of the document.

use vstd::prelude::*;
use vstd::string::*;

use crate::library::{library_well_formed, ProjectLibrary};
use crate::project::{Project, ProjectData};
use crate::status::ProjectStatus;

verus! {

/// Why a document could not be read, understood, or written back.
#[derive(Clone, Copy, Debug, PartialEq, Eq, Structural)]
pub enum PersistenceError {
    /// The document could not be read at all.
    Unreadable,
    /// The document could not be written back.
    Unwritable,
    /// A document was read but violates the expected shape: wrong framing,
    /// a bad escape, a missing field, or an unrecognized status token.
    Schema,
}

/// The fixed description of each failure.
pub open spec fn message_of(e: PersistenceError) -> Seq<char> {
    match e {
        PersistenceError::Unreadable => "could not read the project document"@,
        PersistenceError::Unwritable => "could not write the project document"@,
        PersistenceError::Schema => "the project document does not match the expected schema"@,
    }
}

impl PersistenceError {
    /// A short human-readable description of the failure.
    pub fn message(&self) -> (r: &str)
        ensures
            r@ == message_of(*self),
            r@.len() > 0,
    {
        proof {
            reveal_strlit("could not read the project document");
            reveal_strlit("could not write the project document");
            reveal_strlit("the project document does not match the expected schema");
        }
        match self {
            PersistenceError::Unreadable => "could not read the project document",
            PersistenceError::Unwritable => "could not write the project document",
            PersistenceError::Schema => "the project document does not match the expected schema",
        }
    }
}

/// How one character of a quoted string is written in the document:
/// backslash, quote, newline, carriage return and tab take a two-character
/// escape; every other character stands for itself.
pub open spec fn escaped_char(c: char) -> Seq<char> {
    if c == '\\' {
        seq!['\\', '\\']
    } else if c == '"' {
        seq!['\\', '"']
    } else if c == '\n' {
        seq!['\\', 'n']
    } else if c == '\r' {
        seq!['\\', 'r']
    } else if c == '\t' {
        seq!['\\', 't']
    } else {
        seq![c]
    }
}

/// How a whole string is written between the quotes of a document line.
pub open spec fn escaped(s: Seq<char>) -> Seq<char>
    decreases s.len(),
{
    if s.len() == 0 {
        Seq::<char>::empty()
    } else {
        escaped_char(s[0]) + escaped(s.drop_first())
    }
}

/// The snake-case token that names a status in the document. These four
/// are the only recognized tokens.
pub open spec fn status_token(s: ProjectStatus) -> Seq<char> {
    match s {
        ProjectStatus::Finished => "finished"@,
        ProjectStatus::InProgress => "in_progress"@,
        ProjectStatus::Idea => "idea"@,
        ProjectStatus::Paused => "paused"@,
    }
}

/// The document block that records one project.
pub open spec fn block_of(p: ProjectData) -> Seq<char> {
    "[[projects]]\n"@ + "name = \""@ + escaped(p.name) + "\"\n"@ + "description = \""@
        + escaped(p.description) + "\"\n"@ + "status = \""@ + status_token(p.status) + "\"\n"@
}

/// The concatenated blocks of a project sequence, in order.
pub open spec fn blocks_of(ps: Seq<ProjectData>) -> Seq<char>
    decreases ps.len(),
{
    if ps.len() == 0 {
        Seq::<char>::empty()
    } else {
        block_of(ps[0]) + blocks_of(ps.drop_first())
    }
}

/// The whole document of a project sequence: an explicit empty list for an
/// empty collection, else one block per project.
pub open spec fn document_of(ps: Seq<ProjectData>) -> Seq<char> {
    if ps.len() == 0 {
        "projects = []\n"@
    } else {
        blocks_of(ps)
    }
}

/// Escaping distributes over concatenation.
proof fn lemma_escaped_append(a: Seq<char>, b: Seq<char>)
    ensures
        escaped(a + b) == escaped(a) + escaped(b),
    decreases a.len(),
{
    if a.len() == 0 {
        assert(a + b =~= b);
        assert(escaped(a) + escaped(b) =~= escaped(b));
    } else {
        lemma_escaped_append(a.drop_first(), b);
        assert((a + b).drop_first() =~= a.drop_first() + b);
        assert(escaped(a + b) =~= escaped(a) + escaped(b));
    }
}

/// Escaping one extra character appends that character's escape.
proof fn lemma_escaped_snoc(s: Seq<char>, i: int)
    requires
        0 <= i < s.len(),
    ensures
        escaped(s.take(i + 1)) == escaped(s.take(i)) + escaped_char(s[i]),
{
    let one = seq![s[i]];
    assert(s.take(i + 1) =~= s.take(i) + one);
    lemma_escaped_append(s.take(i), one);
    assert(one.drop_first() =~= Seq::<char>::empty());
    assert(escaped(one) == escaped_char(one[0]) + escaped(one.drop_first()));
    assert(escaped_char(s[i]) + Seq::<char>::empty() =~= escaped_char(s[i]));
}

/// One block appended: the blocks of a longer prefix extend those of the
/// shorter one.
proof fn lemma_blocks_append(a: Seq<ProjectData>, b: Seq<ProjectData>)
    ensures
        blocks_of(a + b) == blocks_of(a) + blocks_of(b),
    decreases a.len(),
{
    if a.len() == 0 {
        assert(a + b =~= b);
        assert(blocks_of(a) + blocks_of(b) =~= blocks_of(b));
    } else {
        lemma_blocks_append(a.drop_first(), b);
        assert((a + b).drop_first() =~= a.drop_first() + b);
        assert(blocks_of(a + b) =~= blocks_of(a) + blocks_of(b));
    }
}

proof fn lemma_blocks_snoc(ps: Seq<ProjectData>, i: int)
    requires
        0 <= i < ps.len(),
    ensures
        blocks_of(ps.take(i + 1)) == blocks_of(ps.take(i)) + block_of(ps[i]),
{
    let one = seq![ps[i]];
    assert(ps.take(i + 1) =~= ps.take(i) + one);
    lemma_blocks_append(ps.take(i), one);
    assert(one.drop_first() =~= Seq::<ProjectData>::empty());
    assert(blocks_of(one) == block_of(one[0]) + blocks_of(one.drop_first()));
    assert(block_of(ps[i]) + Seq::<char>::empty() =~= block_of(ps[i]));
}

/// A quoted document field followed by arbitrary text: the escaped value,
/// the closing quote, the line's newline, then the rest.
pub open spec fn quoted_form(v: Seq<char>, rest: Seq<char>) -> Seq<char> {
    escaped(v) + "\"\n"@ + rest
}

/// A status field's tail followed by arbitrary text: the token, the closing
/// quote, the line's newline, then the rest.
pub open spec fn token_form(s: ProjectStatus, rest: Seq<char>) -> Seq<char> {
    status_token(s) + "\"\n"@ + rest
}

/// Splitting a suffix of `t` that is a concatenation: the first part sits
/// right at `a`, the second right after it.
proof fn lemma_prefix_at(t: Seq<char>, a: int, x: Seq<char>, y: Seq<char>)
    requires
        0 <= a <= t.len(),
        t.subrange(a, t.len() as int) == x + y,
    ensures
        a + x.len() <= t.len(),
        t.subrange(a, a + x.len()) == x,
        t.subrange(a + x.len(), t.len() as int) == y,
{
    assert(t.subrange(a, t.len() as int).len() == x.len() + y.len());
    assert(t.subrange(a, a + x.len()) =~= x) by {
        assert forall|i: int| 0 <= i < x.len() implies t.subrange(a, a + x.len())[i] == x[i] by {
            assert(t.subrange(a, t.len() as int)[i] == (x + y)[i]);
        }
    }
    assert(t.subrange(a + x.len(), t.len() as int) =~= y) by {
        assert forall|i: int| 0 <= i < y.len() implies t.subrange(a + x.len(), t.len() as int)[i]
            == y[i] by {
            assert(t.subrange(a + x.len(), t.len() as int)[i] == t[a + x.len() + i]);
            assert(t.subrange(a, t.len() as int)[x.len() + i] == t[a + x.len() + i]);
            assert((x + y)[x.len() + i] == y[i]);
        }
    }
}

/// A string can stand in quoted form inside one text in only one way.
proof fn lemma_quoted_unique(v1: Seq<char>, r1: Seq<char>, v2: Seq<char>, r2: Seq<char>)
    requires
        quoted_form(v1, r1) == quoted_form(v2, r2),
    ensures
        v1 == v2,
        r1 == r2,
{
    reveal_strlit("\"\n");
    lemma_escaped_no_newline(v1);
    lemma_escaped_no_newline(v2);
    assert(quoted_form(v1, r1) =~= escaped(v1) + ("\"\n"@ + r1));
    assert(quoted_form(v2, r2) =~= escaped(v2) + ("\"\n"@ + r2));
    lemma_newline_delimited(escaped(v1), "\"\n"@ + r1, escaped(v2), "\"\n"@ + r2);
    lemma_escaped_injective(v1, v2);
    lemma_append_cancel_left("\"\n"@, r1, r2);
}

/// A status token can stand in token form inside one text in only one way.
proof fn lemma_token_unique(s1: ProjectStatus, r1: Seq<char>, s2: ProjectStatus, r2: Seq<char>)
    requires
        token_form(s1, r1) == token_form(s2, r2),
    ensures
        s1 == s2,
        r1 == r2,
{
    reveal_strlit("\"\n");
    lemma_token_no_newline(s1);
    lemma_token_no_newline(s2);
    assert(token_form(s1, r1) =~= status_token(s1) + ("\"\n"@ + r1));
    assert(token_form(s2, r2) =~= status_token(s2) + ("\"\n"@ + r2));
    lemma_newline_delimited(status_token(s1), "\"\n"@ + r1, status_token(s2), "\"\n"@ + r2);
    lemma_token_injective(s1, s2);
    lemma_append_cancel_left("\"\n"@, r1, r2);
}

/// The blocks of a non-empty sequence, regrouped so that each field's
/// quoted form stands out after its literal prefix.
proof fn lemma_blocks_head_shape(qs: Seq<ProjectData>)
    requires
        qs.len() > 0,
    ensures
        blocks_of(qs) == "[[projects]]\n"@ + ("name = \""@ + quoted_form(
            qs[0].name,
            "description = \""@ + quoted_form(
                qs[0].description,
                "status = \""@ + token_form(qs[0].status, blocks_of(qs.drop_first())),
            ),
        )),
{
    assert(blocks_of(qs) == block_of(qs[0]) + blocks_of(qs.drop_first()));
    assert(block_of(qs[0]) + blocks_of(qs.drop_first()) =~= "[[projects]]\n"@ + ("name = \""@
        + quoted_form(
        qs[0].name,
        "description = \""@ + quoted_form(
            qs[0].description,
            "status = \""@ + token_form(qs[0].status, blocks_of(qs.drop_first())),
        ),
    )));
}

/// Where the two literal prefixes and the name field of a block sit inside
/// a text whose suffix at `a` is the blocks of a non-empty sequence.
proof fn lemma_block_positions(t: Seq<char>, a: int, qs: Seq<ProjectData>)
    requires
        0 <= a <= t.len(),
        qs.len() > 0,
        t.subrange(a, t.len() as int) == blocks_of(qs),
    ensures
        a + "[[projects]]\n"@.len() + "name = \""@.len() <= t.len(),
        t.subrange(a, a + "[[projects]]\n"@.len()) == "[[projects]]\n"@,
        t.subrange(
            a + "[[projects]]\n"@.len(),
            a + "[[projects]]\n"@.len() + "name = \""@.len(),
        ) == "name = \""@,
        t.subrange(a + "[[projects]]\n"@.len() + "name = \""@.len(), t.len() as int)
            == quoted_form(
            qs[0].name,
            "description = \""@ + quoted_form(
                qs[0].description,
                "status = \""@ + token_form(qs[0].status, blocks_of(qs.drop_first())),
            ),
        ),
{
    lemma_blocks_head_shape(qs);
    let inner = quoted_form(
        qs[0].name,
        "description = \""@ + quoted_form(
            qs[0].description,
            "status = \""@ + token_form(qs[0].status, blocks_of(qs.drop_first())),
        ),
    );
    lemma_prefix_at(t, a, "[[projects]]\n"@, "name = \""@ + inner);
    lemma_prefix_at(t, a + "[[projects]]\n"@.len(), "name = \""@, inner);
}

/// A parsed quoted field agrees with the field the canonical shape demands
/// at the same position, and leaves exactly the shape's remainder.
proof fn lemma_quoted_step(t: Seq<char>, a: int, b: int, v: Seq<char>, v0: Seq<char>, r0: Seq<char>)
    requires
        0 <= a <= b <= t.len(),
        t.subrange(a, b) == escaped(v) + "\"\n"@,
        t.subrange(a, t.len() as int) == quoted_form(v0, r0),
    ensures
        v == v0,
        t.subrange(b, t.len() as int) == r0,
{
    assert(t.subrange(a, t.len() as int) =~= t.subrange(a, b) + t.subrange(b, t.len() as int));
    assert(t.subrange(a, b) + t.subrange(b, t.len() as int) =~= quoted_form(
        v,
        t.subrange(b, t.len() as int),
    ));
    lemma_quoted_unique(v, t.subrange(b, t.len() as int), v0, r0);
}

/// A parsed status field agrees with the status the canonical shape demands
/// at the same position, and leaves exactly the shape's remainder.
proof fn lemma_token_step(
    t: Seq<char>,
    a: int,
    b: int,
    st: ProjectStatus,
    st0: ProjectStatus,
    r0: Seq<char>,
)
    requires
        0 <= a <= b <= t.len(),
        t.subrange(a, b) == status_token(st) + "\"\n"@,
        t.subrange(a, t.len() as int) == token_form(st0, r0),
    ensures
        st == st0,
        t.subrange(b, t.len() as int) == r0,
{
    assert(t.subrange(a, t.len() as int) =~= t.subrange(a, b) + t.subrange(b, t.len() as int));
    assert(t.subrange(a, b) + t.subrange(b, t.len() as int) =~= token_form(
        st,
        t.subrange(b, t.len() as int),
    ));
    lemma_token_unique(st, t.subrange(b, t.len() as int), st0, r0);
}

/// Non-empty project sequences have non-empty blocks.
proof fn lemma_blocks_len_pos(qs: Seq<ProjectData>)
    requires
        qs.len() > 0,
    ensures
        blocks_of(qs).len() >= "[[projects]]\n"@.len(),
        blocks_of(qs)[0] == '[',
{
    reveal_strlit("[[projects]]\n");
    assert(blocks_of(qs) == block_of(qs[0]) + blocks_of(qs.drop_first()));
    assert(blocks_of(qs)[0] == block_of(qs[0])[0]);
}

/// Appends the escaped form of `s` to `out`.
fn append_escaped(out: &mut String, s: &str)
    ensures
        final(out)@ == old(out)@ + escaped(s@),
{
    let len = s.unicode_len();
    let mut i: usize = 0;
    while i < len
        invariant
            i <= len,
            len == s@.len(),
            out@ == old(out)@ + escaped(s@.take(i as int)),
        decreases len - i,
    {
        let c = s.get_char(i);
        if c == '\\' {
            out.append("\\\\");
            proof {
                reveal_strlit("\\\\");
                assert("\\\\"@ =~= escaped_char(c));
            }
        } else if c == '"' {
            out.append("\\\"");
            proof {
                reveal_strlit("\\\"");
                assert("\\\""@ =~= escaped_char(c));
            }
        } else if c == '\n' {
            out.append("\\n");
            proof {
                reveal_strlit("\\n");
                assert("\\n"@ =~= escaped_char(c));
            }
        } else if c == '\r' {
            out.append("\\r");
            proof {
                reveal_strlit("\\r");
                assert("\\r"@ =~= escaped_char(c));
            }
        } else if c == '\t' {
            out.append("\\t");
            proof {
                reveal_strlit("\\t");
                assert("\\t"@ =~= escaped_char(c));
            }
        } else {
            out.append(s.substring_char(i, i + 1));
            proof {
                assert(s@.subrange(i as int, i + 1) =~= escaped_char(c));
            }
        }
        proof {
            lemma_escaped_snoc(s@, i as int);
            assert(out@ =~= old(out)@ + escaped(s@.take(i + 1)));
        }
        i = i + 1;
    }
    proof {
        assert(s@.take(len as int) =~= s@);
    }
}

impl ProjectLibrary {
    /// Writes the library's projects as a document. The selection index is
    /// never part of the output, so two libraries with the same projects
    /// write the same document.
    pub fn to_document(&self) -> (r: String)
        ensures
            r@ == document_of(self@.projects),
    {
        let n = self.project_count();
        if n == 0 {
            return "projects = []\n".to_owned();
        }
        let mut out = String::new();
        let mut i: usize = 0;
        while i < n
            invariant
                i <= n,
                n == self@.projects.len(),
                out@ == blocks_of(self@.projects.take(i as int)),
            decreases n - i,
        {
            let p = self.project_at(i);
            let ghost start = out@;
            out.append("[[projects]]\n");
            out.append("name = \"");
            append_escaped(&mut out, p.name());
            out.append("\"\n");
            out.append("description = \"");
            append_escaped(&mut out, p.description());
            out.append("\"\n");
            out.append("status = \"");
            match p.status() {
                ProjectStatus::Finished => out.append("finished"),
                ProjectStatus::InProgress => out.append("in_progress"),
                ProjectStatus::Idea => out.append("idea"),
                ProjectStatus::Paused => out.append("paused"),
            }
            out.append("\"\n");
            proof {
                lemma_blocks_snoc(self@.projects, i as int);
                assert(out@ =~= start + block_of(self@.projects[i as int]));
                assert(out@ =~= blocks_of(self@.projects.take(i + 1)));
            }
            i = i + 1;
        }
        proof {
            assert(self@.projects.take(n as int) =~= self@.projects);
        }
        out
    }
}

/// True exactly when `lit` occurs in `s` starting at character position
/// `pos`.
fn match_at(s: &str, pos: usize, lit: &str) -> (r: bool)
    requires
        pos <= s@.len(),
    ensures
        r <==> (pos + lit@.len() <= s@.len() && s@.subrange(
            pos as int,
            pos + lit@.len(),
        ) == lit@),
{
    let n = lit.unicode_len();
    let total = s.unicode_len();
    if n > total - pos {
        return false;
    }
    let mut i: usize = 0;
    while i < n
        invariant
            i <= n,
            n == lit@.len(),
            total == s@.len(),
            pos + n <= total,
            forall|j: int| 0 <= j < i ==> s@[pos + j] == lit@[j],
        decreases n - i,
    {
        if s.get_char(pos + i) != lit.get_char(i) {
            proof {
                assert(s@.subrange(pos as int, pos + lit@.len())[i as int] == s@[pos + i]);
            }
            return false;
        }
        i = i + 1;
    }
    proof {
        assert(s@.subrange(pos as int, pos + lit@.len()) =~= lit@);
    }
    true
}

/// How the text from a scan position on relates to the quoted field it
/// still has to hold: it shows the closing quote at once, a two-character
/// escape, or one plain character, and nothing else.
proof fn lemma_quoted_suffix_cases(w: Seq<char>, rest: Seq<char>, t: Seq<char>)
    requires
        t == quoted_form(w, rest),
    ensures
        t.len() >= 2,
        w.len() == 0 ==> t[0] == '"' && t[1] == '\n',
        w.len() > 0 && needs_escape(w[0]) ==> t[0] == '\\' && t[1] == escaped_char(w[0])[1]
            && t.skip(2) == quoted_form(w.drop_first(), rest),
        w.len() > 0 && !needs_escape(w[0]) ==> t[0] == w[0] && t.skip(1) == quoted_form(
            w.drop_first(),
            rest,
        ),
{
    reveal_strlit("\"\n");
    if w.len() == 0 {
        assert(escaped(w) =~= Seq::<char>::empty());
        assert(t =~= "\"\n"@ + rest);
        assert(t[0] == "\"\n"@[0]);
        assert(t[1] == "\"\n"@[1]);
    } else {
        assert(escaped(w) == escaped_char(w[0]) + escaped(w.drop_first()));
        assert(t =~= escaped_char(w[0]) + quoted_form(w.drop_first(), rest));
        if needs_escape(w[0]) {
            assert(t[0] == escaped_char(w[0])[0]);
            assert(t[1] == escaped_char(w[0])[1]);
            assert(t.skip(2) =~= quoted_form(w.drop_first(), rest));
        } else {
            assert(escaped_char(w[0]) =~= seq![w[0]]);
            assert(t[0] == w[0]);
            assert(t.skip(1) =~= quoted_form(w.drop_first(), rest));
        }
    }
}

/// Reads a quoted string's content starting just after the opening quote at
/// `pos`, up to and including the closing quote and the newline that ends
/// the line. On success returns the unescaped value and the position just
/// past the newline; the consumed text is exactly the value's escaped form
/// followed by the closing `"` and the newline. The parse fails only where
/// no string stands in quoted form at `pos`.
#[verifier::rlimit(100)]
fn parse_string_value(s: &str, pos: usize) -> (r: Result<(String, usize), PersistenceError>)
    requires
        pos <= s@.len(),
    ensures
        r matches Ok(p) ==> pos <= p.1 <= s@.len() && s@.subrange(pos as int, p.1 as int)
            == escaped(p.0@) + "\"\n"@,
        (exists|v: Seq<char>, rest: Seq<char>|
            #[trigger] quoted_form(v, rest) == s@.subrange(pos as int, s@.len() as int)) ==> r
            is Ok,
{
    let total = s.unicode_len();
    let mut i: usize = pos;
    let mut out = String::new();
    proof {
        assert forall|v: Seq<char>, rest: Seq<char>|
            #[trigger] quoted_form(v, rest) == s@.subrange(pos as int, total as int) implies (
        Seq::<char>::empty() =~= v.take(0) && quoted_form(v.skip(0), rest) == s@.subrange(
            pos as int,
            total as int,
        )) by {
            assert(v.take(0) =~= Seq::<char>::empty());
            assert(v.skip(0) =~= v);
        }
    }
    while i < total
        invariant
            pos <= i <= total,
            total == s@.len(),
            escaped(out@) == s@.subrange(pos as int, i as int),
            forall|v: Seq<char>, rest: Seq<char>|
                #[trigger] quoted_form(v, rest) == s@.subrange(pos as int, total as int) ==> {
                    &&& out@.len() <= v.len()
                    &&& out@ == v.take(out@.len() as int)
                    &&& s@.subrange(i as int, total as int) == quoted_form(
                        v.skip(out@.len() as int),
                        rest,
                    )
                },
        decreases total - i,
    {
        let ghost out0 = out@;
        let ghost i0 = i as int;
        let c = s.get_char(i);
        if c == '"' {
            if i + 1 >= total {
                proof {
                    assert forall|v: Seq<char>, rest: Seq<char>| #[trigger] quoted_form(v, rest)
                        != s@.subrange(pos as int, total as int) by {
                        if quoted_form(v, rest) == s@.subrange(pos as int, total as int) {
                            let w = v.skip(out0.len() as int);
                            lemma_quoted_suffix_cases(w, rest, s@.subrange(i0, total as int));
                            assert(s@.subrange(i0, total as int).len() >= 2);
                        }
                    }
                }
                return Err(PersistenceError::Schema);
            }
            if s.get_char(i + 1) != '\n' {
                proof {
                    assert forall|v: Seq<char>, rest: Seq<char>| #[trigger] quoted_form(v, rest)
                        != s@.subrange(pos as int, total as int) by {
                        if quoted_form(v, rest) == s@.subrange(pos as int, total as int) {
                            let w = v.skip(out0.len() as int);
                            let t = s@.subrange(i0, total as int);
                            lemma_quoted_suffix_cases(w, rest, t);
                            assert(t[0] == s@[i0]);
                            assert(t[1] == s@[i0 + 1]);
                            if w.len() > 0 {
                                assert(t[0] != '"');
                            } else {
                                assert(s@[i0 + 1] == '\n');
                            }
                        }
                    }
                }
                return Err(PersistenceError::Schema);
            }
            proof {
                reveal_strlit("\"\n");
                assert(s@.subrange(pos as int, i + 2) =~= s@.subrange(pos as int, i as int)
                    + seq![s@[i as int], s@[i + 1]]);
                assert(seq![s@[i as int], s@[i + 1]] =~= "\"\n"@);
            }
            return Ok((out, i + 2));
        } else if c == '\\' {
            if i + 1 >= total {
                proof {
                    assert forall|v: Seq<char>, rest: Seq<char>| #[trigger] quoted_form(v, rest)
                        != s@.subrange(pos as int, total as int) by {
                        if quoted_form(v, rest) == s@.subrange(pos as int, total as int) {
                            let w = v.skip(out0.len() as int);
                            let t = s@.subrange(i0, total as int);
                            lemma_quoted_suffix_cases(w, rest, t);
                            assert(t[0] == s@[i0]);
                            if w.len() > 0 && needs_escape(w[0]) {
                                assert(quoted_form(w.drop_first(), rest).len() >= 2);
                                assert(t.len() >= 4);
                            } else {
                                assert(t[0] != '\\');
                            }
                        }
                    }
                }
                return Err(PersistenceError::Schema);
            }
            let d = s.get_char(i + 1);
            let ghost prev = out@;
            if d == '\\' {
                out.append("\\");
                proof {
                    reveal_strlit("\\");
                }
            } else if d == '"' {
                out.append("\"");
                proof {
                    reveal_strlit("\"");
                }
            } else if d == 'n' {
                out.append("\n");
                proof {
                    reveal_strlit("\n");
                }
            } else if d == 'r' {
                out.append("\r");
                proof {
                    reveal_strlit("\r");
                }
            } else if d == 't' {
                out.append("\t");
                proof {
                    reveal_strlit("\t");
                }
            } else {
                proof {
                    assert forall|v: Seq<char>, rest: Seq<char>| #[trigger] quoted_form(v, rest)
                        != s@.subrange(pos as int, total as int) by {
                        if quoted_form(v, rest) == s@.subrange(pos as int, total as int) {
                            let w = v.skip(out0.len() as int);
                            let t = s@.subrange(i0, total as int);
                            lemma_quoted_suffix_cases(w, rest, t);
                            assert(t[0] == s@[i0]);
                            assert(t[1] == s@[i0 + 1]);
                            if w.len() == 0 {
                                assert(t[0] == '"');
                            } else if !needs_escape(w[0]) {
                                assert(t[0] == w[0]);
                            } else {
                                assert(s@[i0 + 1] == escaped_char(w[0])[1]);
                            }
                        }
                    }
                }
                return Err(PersistenceError::Schema);
            }
            proof {
                assert(out@ =~= prev + seq![out@[out@.len() - 1]]);
                lemma_escaped_append(prev, seq![out@[out@.len() - 1]]);
                assert(escaped(seq![out@[out@.len() - 1]]) == escaped_char(out@[out@.len() - 1])
                    + escaped(seq![out@[out@.len() - 1]].drop_first()));
                assert(seq![out@[out@.len() - 1]].drop_first() =~= Seq::<char>::empty());
                assert(escaped_char(out@[out@.len() - 1]) =~= seq![s@[i as int], s@[i + 1]]);
                assert(s@.subrange(pos as int, i + 2) =~= s@.subrange(pos as int, i as int)
                    + seq![s@[i as int], s@[i + 1]]);
                assert(escaped(out@) =~= s@.subrange(pos as int, i + 2));
                assert forall|v: Seq<char>, rest: Seq<char>|
                    #[trigger] quoted_form(v, rest) == s@.subrange(pos as int, total as int)
                        implies {
                    &&& out@.len() <= v.len()
                    &&& out@ == v.take(out@.len() as int)
                    &&& s@.subrange(i0 + 2, total as int) == quoted_form(
                        v.skip(out@.len() as int),
                        rest,
                    )
                } by {
                    let w = v.skip(out0.len() as int);
                    let t = s@.subrange(i0, total as int);
                    lemma_quoted_suffix_cases(w, rest, t);
                    assert(t[0] == s@[i0]);
                    assert(t[1] == s@[i0 + 1]);
                    let b = out@[out@.len() - 1];
                    assert(w.len() > 0 && needs_escape(w[0])) by {
                        if w.len() == 0 {
                            assert(t[0] == '"');
                        } else if !needs_escape(w[0]) {
                            assert(t[0] == w[0]);
                        }
                    }
                    assert(escaped_char(w[0])[1] == s@[i0 + 1]);
                    assert(needs_escape(b));
                    assert(w[0] == b);
                    assert(v.skip(out0.len() as int)[0] == v[out0.len() as int]);
                    assert(v.take(out0.len() as int + 1) =~= v.take(out0.len() as int).push(
                        v[out0.len() as int],
                    ));
                    assert(out@ == v.take(out@.len() as int));
                    assert(w.drop_first() =~= v.skip(out0.len() as int + 1));
                    assert(t.skip(2) =~= s@.subrange(i0 + 2, total as int));
                }
            }
            i = i + 2;
        } else if c == '\n' || c == '\r' || c == '\t' {
            proof {
                assert forall|v: Seq<char>, rest: Seq<char>| #[trigger] quoted_form(v, rest)
                    != s@.subrange(pos as int, total as int) by {
                    if quoted_form(v, rest) == s@.subrange(pos as int, total as int) {
                        let w = v.skip(out0.len() as int);
                        let t = s@.subrange(i0, total as int);
                        lemma_quoted_suffix_cases(w, rest, t);
                        assert(t[0] == s@[i0]);
                        if w.len() == 0 {
                            assert(t[0] == '"');
                        } else if needs_escape(w[0]) {
                            assert(t[0] == '\\');
                        } else {
                            assert(t[0] == w[0]);
                            assert(needs_escape(w[0]));
                        }
                    }
                }
            }
            return Err(PersistenceError::Schema);
        } else {
            let ghost prev = out@;
            out.append(s.substring_char(i, i + 1));
            proof {
                assert(out@ =~= prev + seq![s@[i as int]]);
                lemma_escaped_append(prev, seq![s@[i as int]]);
                assert(escaped(seq![s@[i as int]]) == escaped_char(s@[i as int])
                    + escaped(seq![s@[i as int]].drop_first()));
                assert(seq![s@[i as int]].drop_first() =~= Seq::<char>::empty());
                assert(escaped_char(s@[i as int]) =~= seq![s@[i as int]]);
                assert(s@.subrange(pos as int, i + 1) =~= s@.subrange(pos as int, i as int)
                    + seq![s@[i as int]]);
                assert(escaped(out@) =~= s@.subrange(pos as int, i + 1));
                assert forall|v: Seq<char>, rest: Seq<char>|
                    #[trigger] quoted_form(v, rest) == s@.subrange(pos as int, total as int)
                        implies {
                    &&& out@.len() <= v.len()
                    &&& out@ == v.take(out@.len() as int)
                    &&& s@.subrange(i0 + 1, total as int) == quoted_form(
                        v.skip(out@.len() as int),
                        rest,
                    )
                } by {
                    let w = v.skip(out0.len() as int);
                    let t = s@.subrange(i0, total as int);
                    lemma_quoted_suffix_cases(w, rest, t);
                    assert(t[0] == s@[i0]);
                    assert(w.len() > 0 && !needs_escape(w[0])) by {
                        if w.len() == 0 {
                            assert(t[0] == '"');
                        } else if needs_escape(w[0]) {
                            assert(t[0] == '\\');
                        }
                    }
                    assert(w[0] == s@[i0]);
                    assert(v.skip(out0.len() as int)[0] == v[out0.len() as int]);
                    assert(v.take(out0.len() as int + 1) =~= v.take(out0.len() as int).push(
                        v[out0.len() as int],
                    ));
                    assert(out@ == v.take(out@.len() as int));
                    assert(w.drop_first() =~= v.skip(out0.len() as int + 1));
                    assert(t.skip(1) =~= s@.subrange(i0 + 1, total as int));
                }
            }
            i = i + 1;
        }
    }
    proof {
        assert forall|v: Seq<char>, rest: Seq<char>| #[trigger] quoted_form(v, rest)
            != s@.subrange(pos as int, total as int) by {
            if quoted_form(v, rest) == s@.subrange(pos as int, total as int) {
                let w = v.skip(out@.len() as int);
                lemma_quoted_suffix_cases(w, rest, s@.subrange(i as int, total as int));
                assert(s@.subrange(i as int, total as int).len() >= 2);
            }
        }
    }
    Err(PersistenceError::Schema)
}

/// Reads a status token starting at `pos`, up to and including the closing
/// quote and newline. Exactly the four recognized tokens are accepted; any
/// other token is a schema error, never a silently-defaulted status.
fn parse_status_value(s: &str, pos: usize) -> (r: Result<(ProjectStatus, usize), PersistenceError>)
    requires
        pos <= s@.len(),
    ensures
        r matches Ok(p) ==> pos <= p.1 <= s@.len() && s@.subrange(pos as int, p.1 as int)
            == status_token(p.0) + "\"\n"@,
        (exists|st: ProjectStatus, rest: Seq<char>|
            #[trigger] token_form(st, rest) == s@.subrange(pos as int, s@.len() as int)) ==> r
            is Ok,
{
    let _total = s.unicode_len();
    proof {
        reveal_strlit("finished\"\n");
        reveal_strlit("in_progress\"\n");
        reveal_strlit("idea\"\n");
        reveal_strlit("paused\"\n");
        reveal_strlit("finished");
        reveal_strlit("in_progress");
        reveal_strlit("idea");
        reveal_strlit("paused");
        reveal_strlit("\"\n");
    }
    if match_at(s, pos, "finished\"\n") {
        proof {
            assert("finished\"\n"@ =~= status_token(ProjectStatus::Finished) + "\"\n"@);
        }
        let next = pos + "finished\"\n".unicode_len();
        return Ok((ProjectStatus::Finished, next));
    }
    if match_at(s, pos, "in_progress\"\n") {
        proof {
            assert("in_progress\"\n"@ =~= status_token(ProjectStatus::InProgress) + "\"\n"@);
        }
        let next = pos + "in_progress\"\n".unicode_len();
        return Ok((ProjectStatus::InProgress, next));
    }
    if match_at(s, pos, "idea\"\n") {
        proof {
            assert("idea\"\n"@ =~= status_token(ProjectStatus::Idea) + "\"\n"@);
        }
        let next = pos + "idea\"\n".unicode_len();
        return Ok((ProjectStatus::Idea, next));
    }
    if match_at(s, pos, "paused\"\n") {
        proof {
            assert("paused\"\n"@ =~= status_token(ProjectStatus::Paused) + "\"\n"@);
        }
        let next = pos + "paused\"\n".unicode_len();
        return Ok((ProjectStatus::Paused, next));
    }
    proof {
        assert forall|st: ProjectStatus, rest: Seq<char>| #[trigger] token_form(st, rest)
            != s@.subrange(pos as int, s@.len() as int) by {
            if token_form(st, rest) == s@.subrange(pos as int, s@.len() as int) {
                reveal_strlit("finished\"\n");
                reveal_strlit("in_progress\"\n");
                reveal_strlit("idea\"\n");
                reveal_strlit("paused\"\n");
                reveal_strlit("finished");
                reveal_strlit("in_progress");
                reveal_strlit("idea");
                reveal_strlit("paused");
                reveal_strlit("\"\n");
                match st {
                    ProjectStatus::Finished => {
                        assert(token_form(st, rest) =~= "finished\"\n"@ + rest);
                        lemma_prefix_at(s@, pos as int, "finished\"\n"@, rest);
                    },
                    ProjectStatus::InProgress => {
                        assert(token_form(st, rest) =~= "in_progress\"\n"@ + rest);
                        lemma_prefix_at(s@, pos as int, "in_progress\"\n"@, rest);
                    },
                    ProjectStatus::Idea => {
                        assert(token_form(st, rest) =~= "idea\"\n"@ + rest);
                        lemma_prefix_at(s@, pos as int, "idea\"\n"@, rest);
                    },
                    ProjectStatus::Paused => {
                        assert(token_form(st, rest) =~= "paused\"\n"@ + rest);
                        lemma_prefix_at(s@, pos as int, "paused\"\n"@, rest);
                    },
                }
            }
        }
    }
    Err(PersistenceError::Schema)
}

impl ProjectLibrary {
    /// Parses a document into a library. The parser is strict: it accepts
    /// exactly the form that `to_document` writes, so a successful parse
    /// guarantees that the input is precisely the document of the returned
    /// projects, and the parse succeeds on every written document. The
    /// selection index is always reset to the first entry.
    #[verifier::rlimit(100)]
    pub fn from_document(text: &str) -> (r: Result<ProjectLibrary, PersistenceError>)
        ensures
            r matches Ok(lib) ==> text@ == document_of(lib@.projects) && lib@.selected == 0
                && library_well_formed(lib@),
            (exists|ps: Seq<ProjectData>| #[trigger] document_of(ps) == text@) ==> r is Ok,
    {
        let total = text.unicode_len();
        if match_at(text, 0, "projects = []\n") {
            if total == "projects = []\n".unicode_len() {
                let lib = ProjectLibrary::from_projects(Vec::new());
                proof {
                    assert(lib@.projects =~= Seq::<ProjectData>::empty());
                    assert(text@.subrange(0, "projects = []\n"@.len() as int) =~= text@);
                }
                return Ok(lib);
            }
            proof {
                assert forall|ps: Seq<ProjectData>| #[trigger] document_of(ps) != text@ by {
                    if document_of(ps) == text@ {
                        if ps.len() == 0 {
                            assert(text@.len() == "projects = []\n"@.len());
                        } else {
                            reveal_strlit("projects = []\n");
                            lemma_blocks_len_pos(ps);
                            assert(text@.subrange(0, "projects = []\n"@.len() as int)[0]
                                == text@[0]);
                        }
                    }
                }
            }
            return Err(PersistenceError::Schema);
        }
        let mut projects: Vec<Project> = Vec::new();
        let mut pos: usize = 0;
        proof {
            assert forall|ps: Seq<ProjectData>| #[trigger] document_of(ps) == text@ implies (
            ps.take(0) =~= Seq::<ProjectData>::empty() && text@.subrange(0, total as int)
                == blocks_of(ps.skip(0))) by {
                if ps.len() == 0 {
                    assert(text@.subrange(0, "projects = []\n"@.len() as int) =~= "projects = []\n"@);
                } else {
                    assert(ps.skip(0) =~= ps);
                    assert(text@.subrange(0, total as int) =~= text@);
                }
                assert(ps.take(0) =~= Seq::<ProjectData>::empty());
            }
        }
        while pos < total
            invariant
                pos <= total,
                total == text@.len(),
                text@.subrange(0, pos as int) == blocks_of(projects.deep_view()),
                forall|ps: Seq<ProjectData>| #[trigger] document_of(ps) == text@ ==> {
                    &&& projects.deep_view().len() <= ps.len()
                    &&& projects.deep_view() == ps.take(projects.deep_view().len() as int)
                    &&& text@.subrange(pos as int, total as int) == blocks_of(
                        ps.skip(projects.deep_view().len() as int),
                    )
                },
            decreases total - pos,
        {
            let ghost block_start = pos as int;
            let ghost views0 = projects.deep_view();
            if !match_at(text, pos, "[[projects]]\n") {
                proof {
                    assert forall|ps: Seq<ProjectData>| #[trigger] document_of(ps) != text@ by {
                        if document_of(ps) == text@ {
                            let qs = ps.skip(views0.len() as int);
                            if qs.len() == 0 {
                                assert(blocks_of(qs).len() == 0);
                            }
                            lemma_block_positions(text@, block_start, qs);
                        }
                    }
                }
                return Err(PersistenceError::Schema);
            }
            let pos1 = pos + "[[projects]]\n".unicode_len();
            if !match_at(text, pos1, "name = \"") {
                proof {
                    assert forall|ps: Seq<ProjectData>| #[trigger] document_of(ps) != text@ by {
                        if document_of(ps) == text@ {
                            let qs = ps.skip(views0.len() as int);
                            if qs.len() == 0 {
                                assert(blocks_of(qs).len() == 0);
                            }
                            lemma_block_positions(text@, block_start, qs);
                        }
                    }
                }
                return Err(PersistenceError::Schema);
            }
            let pos2 = pos1 + "name = \"".unicode_len();
            let (name, pos3) = match parse_string_value(text, pos2) {
                Ok(p) => p,
                Err(e) => {
                    proof {
                        assert forall|ps: Seq<ProjectData>| #[trigger] document_of(ps) != text@ by {
                            if document_of(ps) == text@ {
                                let qs = ps.skip(views0.len() as int);
                                if qs.len() == 0 {
                                    assert(blocks_of(qs).len() == 0);
                                }
                                lemma_block_positions(text@, block_start, qs);
                            }
                        }
                    }
                    return Err(e);
                },
            };
            if !match_at(text, pos3, "description = \"") {
                proof {
                    assert forall|ps: Seq<ProjectData>| #[trigger] document_of(ps) != text@ by {
                        if document_of(ps) == text@ {
                            let qs = ps.skip(views0.len() as int);
                            if qs.len() == 0 {
                                assert(blocks_of(qs).len() == 0);
                            }
                            lemma_block_positions(text@, block_start, qs);
                            let b = blocks_of(qs.drop_first());
                            let rn = "description = \""@ + quoted_form(
                                qs[0].description,
                                "status = \""@ + token_form(qs[0].status, b),
                            );
                            lemma_quoted_step(
                                text@,
                                pos2 as int,
                                pos3 as int,
                                name@,
                                qs[0].name,
                                rn,
                            );
                            lemma_prefix_at(
                                text@,
                                pos3 as int,
                                "description = \""@,
                                quoted_form(
                                    qs[0].description,
                                    "status = \""@ + token_form(qs[0].status, b),
                                ),
                            );
                        }
                    }
                }
                return Err(PersistenceError::Schema);
            }
            let pos4 = pos3 + "description = \"".unicode_len();
            let (description, pos5) = match parse_string_value(text, pos4) {
                Ok(p) => p,
                Err(e) => {
                    proof {
                        assert forall|ps: Seq<ProjectData>| #[trigger] document_of(ps) != text@ by {
                            if document_of(ps) == text@ {
                                let qs = ps.skip(views0.len() as int);
                                if qs.len() == 0 {
                                    assert(blocks_of(qs).len() == 0);
                                }
                                lemma_block_positions(text@, block_start, qs);
                                let b = blocks_of(qs.drop_first());
                                let rn = "description = \""@ + quoted_form(
                                    qs[0].description,
                                    "status = \""@ + token_form(qs[0].status, b),
                                );
                                lemma_quoted_step(
                                    text@,
                                    pos2 as int,
                                    pos3 as int,
                                    name@,
                                    qs[0].name,
                                    rn,
                                );
                                lemma_prefix_at(
                                    text@,
                                    pos3 as int,
                                    "description = \""@,
                                    quoted_form(
                                        qs[0].description,
                                        "status = \""@ + token_form(qs[0].status, b),
                                    ),
                                );
                            }
                        }
                    }
                    return Err(e);
                },
            };
            if !match_at(text, pos5, "status = \"") {
                proof {
                    assert forall|ps: Seq<ProjectData>| #[trigger] document_of(ps) != text@ by {
                        if document_of(ps) == text@ {
                            let qs = ps.skip(views0.len() as int);
                            if qs.len() == 0 {
                                assert(blocks_of(qs).len() == 0);
                            }
                            lemma_block_positions(text@, block_start, qs);
                            let b = blocks_of(qs.drop_first());
                            let rn = "description = \""@ + quoted_form(
                                qs[0].description,
                                "status = \""@ + token_form(qs[0].status, b),
                            );
                            lemma_quoted_step(
                                text@,
                                pos2 as int,
                                pos3 as int,
                                name@,
                                qs[0].name,
                                rn,
                            );
                            lemma_prefix_at(
                                text@,
                                pos3 as int,
                                "description = \""@,
                                quoted_form(
                                    qs[0].description,
                                    "status = \""@ + token_form(qs[0].status, b),
                                ),
                            );
                            lemma_quoted_step(
                                text@,
                                pos4 as int,
                                pos5 as int,
                                description@,
                                qs[0].description,
                                "status = \""@ + token_form(qs[0].status, b),
                            );
                            lemma_prefix_at(
                                text@,
                                pos5 as int,
                                "status = \""@,
                                token_form(qs[0].status, b),
                            );
                        }
                    }
                }
                return Err(PersistenceError::Schema);
            }
            let pos6 = pos5 + "status = \"".unicode_len();
            let (status, pos7) = match parse_status_value(text, pos6) {
                Ok(p) => p,
                Err(e) => {
                    proof {
                        assert forall|ps: Seq<ProjectData>| #[trigger] document_of(ps) != text@ by {
                            if document_of(ps) == text@ {
                                let qs = ps.skip(views0.len() as int);
                                if qs.len() == 0 {
                                    assert(blocks_of(qs).len() == 0);
                                }
                                lemma_block_positions(text@, block_start, qs);
                                let b = blocks_of(qs.drop_first());
                                let rn = "description = \""@ + quoted_form(
                                    qs[0].description,
                                    "status = \""@ + token_form(qs[0].status, b),
                                );
                                lemma_quoted_step(
                                    text@,
                                    pos2 as int,
                                    pos3 as int,
                                    name@,
                                    qs[0].name,
                                    rn,
                                );
                                lemma_prefix_at(
                                    text@,
                                    pos3 as int,
                                    "description = \""@,
                                    quoted_form(
                                        qs[0].description,
                                        "status = \""@ + token_form(qs[0].status, b),
                                    ),
                                );
                                lemma_quoted_step(
                                    text@,
                                    pos4 as int,
                                    pos5 as int,
                                    description@,
                                    qs[0].description,
                                    "status = \""@ + token_form(qs[0].status, b),
                                );
                                lemma_prefix_at(
                                    text@,
                                    pos5 as int,
                                    "status = \""@,
                                    token_form(qs[0].status, b),
                                );
                            }
                        }
                    }
                    return Err(e);
                },
            };
            let mut project = Project::new(name.as_str(), description.as_str());
            project.set_status(status);
            proof {
                assert(project@ == (ProjectData { name: name@, description: description@, status }));
            }
            let ghost old_views = projects.deep_view();
            projects.push(project);
            proof {
                reveal_strlit("[[projects]]\n");
                assert(projects.deep_view() =~= old_views.push(project@));
                let t = text@;
                assert(t.subrange(block_start, pos2 as int) =~= t.subrange(block_start, pos1 as int)
                    + t.subrange(pos1 as int, pos2 as int));
                assert(t.subrange(block_start, pos3 as int) =~= t.subrange(block_start, pos2 as int)
                    + t.subrange(pos2 as int, pos3 as int));
                assert(t.subrange(block_start, pos4 as int) =~= t.subrange(block_start, pos3 as int)
                    + t.subrange(pos3 as int, pos4 as int));
                assert(t.subrange(block_start, pos5 as int) =~= t.subrange(block_start, pos4 as int)
                    + t.subrange(pos4 as int, pos5 as int));
                assert(t.subrange(block_start, pos6 as int) =~= t.subrange(block_start, pos5 as int)
                    + t.subrange(pos5 as int, pos6 as int));
                assert(t.subrange(block_start, pos7 as int) =~= t.subrange(block_start, pos6 as int)
                    + t.subrange(pos6 as int, pos7 as int));
                assert(t.subrange(block_start, pos7 as int) =~= block_of(project@));
                lemma_blocks_append(old_views, seq![project@]);
                assert(seq![project@].drop_first() =~= Seq::<ProjectData>::empty());
                assert(blocks_of(seq![project@]) == block_of(project@) + blocks_of(
                    seq![project@].drop_first(),
                ));
                assert(block_of(project@) + Seq::<char>::empty() =~= block_of(project@));
                assert(old_views + seq![project@] =~= projects.deep_view());
                assert(t.subrange(0, pos7 as int) =~= t.subrange(0, block_start) + t.subrange(
                    block_start,
                    pos7 as int,
                ));
                assert(t.subrange(0, pos7 as int) =~= blocks_of(projects.deep_view()));
                assert(pos7 > pos);
                assert forall|ps: Seq<ProjectData>| #[trigger] document_of(ps) == text@ implies {
                    &&& projects.deep_view().len() <= ps.len()
                    &&& projects.deep_view() == ps.take(projects.deep_view().len() as int)
                    &&& text@.subrange(pos7 as int, total as int) == blocks_of(
                        ps.skip(projects.deep_view().len() as int),
                    )
                } by {
                    let k0 = views0.len() as int;
                    let qs = ps.skip(k0);
                    if qs.len() == 0 {
                        assert(blocks_of(qs).len() == 0);
                    }
                    lemma_block_positions(text@, block_start, qs);
                    let b = blocks_of(qs.drop_first());
                    let rn = "description = \""@ + quoted_form(
                        qs[0].description,
                        "status = \""@ + token_form(qs[0].status, b),
                    );
                    lemma_quoted_step(text@, pos2 as int, pos3 as int, name@, qs[0].name, rn);
                    lemma_prefix_at(
                        text@,
                        pos3 as int,
                        "description = \""@,
                        quoted_form(
                            qs[0].description,
                            "status = \""@ + token_form(qs[0].status, b),
                        ),
                    );
                    lemma_quoted_step(
                        text@,
                        pos4 as int,
                        pos5 as int,
                        description@,
                        qs[0].description,
                        "status = \""@ + token_form(qs[0].status, b),
                    );
                    lemma_prefix_at(text@, pos5 as int, "status = \""@, token_form(qs[0].status, b));
                    lemma_token_step(text@, pos6 as int, pos7 as int, status, qs[0].status, b);
                    assert(project@ =~= qs[0]);
                    assert(qs[0] == ps[k0]);
                    assert(ps.take(k0 + 1) =~= ps.take(k0).push(ps[k0]));
                    assert(projects.deep_view() == ps.take(k0 + 1));
                    assert(qs.drop_first() =~= ps.skip(k0 + 1));
                }
            }
            pos = pos7;
        }
        if projects.len() == 0 {
            proof {
                assert forall|ps: Seq<ProjectData>| #[trigger] document_of(ps) != text@ by {
                    if document_of(ps) == text@ {
                        assert(projects.deep_view().len() == 0);
                        assert(blocks_of(projects.deep_view()).len() == 0);
                        assert(pos == 0);
                        assert(total == 0);
                        assert(ps.skip(0) =~= ps);
                        if ps.len() > 0 {
                            lemma_blocks_len_pos(ps);
                            reveal_strlit("[[projects]]\n");
                            assert(blocks_of(ps).len() > 0);
                        } else {
                            reveal_strlit("projects = []\n");
                            assert(document_of(ps).len() > 0);
                        }
                    }
                }
            }
            return Err(PersistenceError::Schema);
        }
        let ghost views = projects.deep_view();
        let lib = ProjectLibrary::from_projects(projects);
        proof {
            assert(text@.subrange(0, total as int) =~= text@);
            assert(lib@.projects == views);
            assert(document_of(lib@.projects) == blocks_of(lib@.projects));
        }
        Ok(lib)
    }
}

/// The characters that take a two-character escape in a quoted string.
pub open spec fn needs_escape(c: char) -> bool {
    c == '\\' || c == '"' || c == '\n' || c == '\r' || c == '\t'
}

/// Escaped text never contains a raw newline: the newline that ends each
/// document line is therefore an unambiguous delimiter.
proof fn lemma_escaped_no_newline(s: Seq<char>)
    ensures
        forall|i: int| 0 <= i < escaped(s).len() ==> escaped(s)[i] != '\n',
    decreases s.len(),
{
    if s.len() > 0 {
        lemma_escaped_no_newline(s.drop_first());
        assert forall|i: int| 0 <= i < escaped(s).len() implies escaped(s)[i] != '\n' by {
            if i < escaped_char(s[0]).len() {
                assert(escaped(s)[i] == escaped_char(s[0])[i]);
            } else {
                assert(escaped(s)[i] == escaped(s.drop_first())[i - escaped_char(s[0]).len()]);
            }
        }
    }
}

/// No status token contains a newline.
proof fn lemma_token_no_newline(s: ProjectStatus)
    ensures
        forall|i: int| 0 <= i < status_token(s).len() ==> status_token(s)[i] != '\n',
{
    reveal_strlit("finished");
    reveal_strlit("in_progress");
    reveal_strlit("idea");
    reveal_strlit("paused");
}

/// The four status tokens are pairwise distinct, so a token names exactly
/// one status.
proof fn lemma_token_injective(s1: ProjectStatus, s2: ProjectStatus)
    requires
        status_token(s1) == status_token(s2),
    ensures
        s1 == s2,
{
    reveal_strlit("finished");
    reveal_strlit("in_progress");
    reveal_strlit("idea");
    reveal_strlit("paused");
    assert("finished"@.len() == 8);
    assert("in_progress"@.len() == 11);
    assert("idea"@.len() == 4);
    assert("paused"@.len() == 6);
}

/// Two strings with the same escaped form are the same string.
proof fn lemma_escaped_injective(a: Seq<char>, b: Seq<char>)
    requires
        escaped(a) == escaped(b),
    ensures
        a == b,
    decreases a.len(),
{
    if a.len() == 0 {
        if b.len() > 0 {
            assert(escaped(b).len() >= escaped_char(b[0]).len());
            assert(escaped_char(b[0]).len() >= 1);
            assert(false);
        }
        assert(a =~= b);
    } else if b.len() == 0 {
        assert(escaped(a).len() >= escaped_char(a[0]).len());
        assert(escaped_char(a[0]).len() >= 1);
        assert(false);
    } else {
        let ca = a[0];
        let cb = b[0];
        assert(escaped(a)[0] == escaped_char(ca)[0]);
        assert(escaped(b)[0] == escaped_char(cb)[0]);
        if needs_escape(ca) || needs_escape(cb) {
            assert(needs_escape(ca) && needs_escape(cb));
            assert(escaped(a)[1] == escaped_char(ca)[1]);
            assert(escaped(b)[1] == escaped_char(cb)[1]);
            assert(ca == cb);
            assert(escaped(a.drop_first()) =~= escaped(a).skip(2));
            assert(escaped(b.drop_first()) =~= escaped(b).skip(2));
        } else {
            assert(ca == cb);
            assert(escaped(a.drop_first()) =~= escaped(a).skip(1));
            assert(escaped(b.drop_first()) =~= escaped(b).skip(1));
        }
        lemma_escaped_injective(a.drop_first(), b.drop_first());
        assert(a.len() == 1 + a.drop_first().len());
        assert(b.len() == 1 + b.drop_first().len());
        assert forall|i: int| 0 <= i < a.len() implies a[i] == b[i] by {
            if i > 0 {
                assert(a[i] == a.drop_first()[i - 1]);
                assert(b[i] == b.drop_first()[i - 1]);
            }
        }
        assert(a =~= b);
    }
}

/// Dropping an identical prefix from two equal concatenations leaves equal
/// remainders.
proof fn lemma_append_cancel_left(x: Seq<char>, a: Seq<char>, b: Seq<char>)
    requires
        x + a == x + b,
    ensures
        a == b,
{
    assert((x + a).len() == (x + b).len());
    assert(a =~= (x + a).subrange(x.len() as int, (x + a).len() as int));
    assert(b =~= (x + b).subrange(x.len() as int, (x + b).len() as int));
}

/// A quoted field ends at the first newline: two newline-free prefixes that
/// are each followed by the closing `"` and a newline split one string the
/// same way.
proof fn lemma_newline_delimited(e1: Seq<char>, s1: Seq<char>, e2: Seq<char>, s2: Seq<char>)
    requires
        e1 + s1 == e2 + s2,
        forall|i: int| 0 <= i < e1.len() ==> e1[i] != '\n',
        forall|i: int| 0 <= i < e2.len() ==> e2[i] != '\n',
        s1.len() >= 2,
        s1[0] == '"',
        s1[1] == '\n',
        s2.len() >= 2,
        s2[0] == '"',
        s2[1] == '\n',
    ensures
        e1 == e2,
        s1 == s2,
{
    let t = e1 + s1;
    if e1.len() < e2.len() {
        assert(t[e1.len() as int + 1] == s1[1]);
        if e1.len() + 1 < e2.len() {
            assert(t[e1.len() as int + 1] == e2[e1.len() as int + 1]);
        } else {
            assert(e1.len() + 1 == e2.len());
            assert(t[e1.len() as int + 1] == s2[0]);
        }
        assert(false);
    }
    if e2.len() < e1.len() {
        assert(t[e2.len() as int + 1] == s2[1]);
        if e2.len() + 1 < e1.len() {
            assert(t[e2.len() as int + 1] == e1[e2.len() as int + 1]);
        } else {
            assert(e2.len() + 1 == e1.len());
            assert(t[e2.len() as int + 1] == s1[0]);
        }
        assert(false);
    }
    assert(e1.len() == e2.len());
    assert forall|i: int| 0 <= i < e1.len() implies e1[i] == e2[i] by {
        assert(t[i] == e1[i]);
        assert((e2 + s2)[i] == e2[i]);
    }
    assert(e1 =~= e2);
    lemma_append_cancel_left(e1, s1, s2);
}

/// A block followed by arbitrary text determines the block's project and
/// the following text: document blocks decompose uniquely.
#[verifier::rlimit(100)]
proof fn lemma_block_decompose(p1: ProjectData, r1: Seq<char>, p2: ProjectData, r2: Seq<char>)
    requires
        block_of(p1) + r1 == block_of(p2) + r2,
    ensures
        p1 == p2,
        r1 == r2,
{
    reveal_strlit("\"\n");
    let pre = "[[projects]]\n"@ + "name = \""@;
    let n1 = escaped(p1.name);
    let n2 = escaped(p2.name);
    let d1 = escaped(p1.description);
    let d2 = escaped(p2.description);
    let t1 = status_token(p1.status);
    let t2 = status_token(p2.status);
    let tail_n1 = "\"\n"@ + "description = \""@ + d1 + "\"\n"@ + "status = \""@ + t1 + "\"\n"@
        + r1;
    let tail_n2 = "\"\n"@ + "description = \""@ + d2 + "\"\n"@ + "status = \""@ + t2 + "\"\n"@
        + r2;
    assert(block_of(p1) + r1 =~= pre + (n1 + tail_n1));
    assert(block_of(p2) + r2 =~= pre + (n2 + tail_n2));
    lemma_append_cancel_left(pre, n1 + tail_n1, n2 + tail_n2);
    lemma_escaped_no_newline(p1.name);
    lemma_escaped_no_newline(p2.name);
    lemma_newline_delimited(n1, tail_n1, n2, tail_n2);
    lemma_escaped_injective(p1.name, p2.name);

    let mid = "\"\n"@ + "description = \""@;
    let tail_d1 = "\"\n"@ + "status = \""@ + t1 + "\"\n"@ + r1;
    let tail_d2 = "\"\n"@ + "status = \""@ + t2 + "\"\n"@ + r2;
    assert(tail_n1 =~= mid + (d1 + tail_d1));
    assert(tail_n2 =~= mid + (d2 + tail_d2));
    lemma_append_cancel_left(mid, d1 + tail_d1, d2 + tail_d2);
    lemma_escaped_no_newline(p1.description);
    lemma_escaped_no_newline(p2.description);
    lemma_newline_delimited(d1, tail_d1, d2, tail_d2);
    lemma_escaped_injective(p1.description, p2.description);

    let mid_s = "\"\n"@ + "status = \""@;
    let tail_t1 = "\"\n"@ + r1;
    let tail_t2 = "\"\n"@ + r2;
    assert(tail_d1 =~= mid_s + (t1 + tail_t1));
    assert(tail_d2 =~= mid_s + (t2 + tail_t2));
    lemma_append_cancel_left(mid_s, t1 + tail_t1, t2 + tail_t2);
    lemma_token_no_newline(p1.status);
    lemma_token_no_newline(p2.status);
    lemma_newline_delimited(t1, tail_t1, t2, tail_t2);
    lemma_token_injective(p1.status, p2.status);
    lemma_append_cancel_left("\"\n"@, r1, r2);
    assert(p1 =~= p2);
}

/// Concatenated blocks determine the project sequence.
proof fn lemma_blocks_injective(ps1: Seq<ProjectData>, ps2: Seq<ProjectData>)
    requires
        blocks_of(ps1) == blocks_of(ps2),
    ensures
        ps1 == ps2,
    decreases ps1.len(),
{
    reveal_strlit("[[projects]]\n");
    if ps1.len() == 0 {
        if ps2.len() > 0 {
            assert(blocks_of(ps2).len() >= block_of(ps2[0]).len());
            assert(block_of(ps2[0]).len() >= "[[projects]]\n"@.len());
            assert(false);
        }
        assert(ps1 =~= ps2);
    } else if ps2.len() == 0 {
        assert(blocks_of(ps1).len() >= block_of(ps1[0]).len());
        assert(block_of(ps1[0]).len() >= "[[projects]]\n"@.len());
        assert(false);
    } else {
        lemma_block_decompose(
            ps1[0],
            blocks_of(ps1.drop_first()),
            ps2[0],
            blocks_of(ps2.drop_first()),
        );
        lemma_blocks_injective(ps1.drop_first(), ps2.drop_first());
        assert(ps1.len() == 1 + ps1.drop_first().len());
        assert(ps2.len() == 1 + ps2.drop_first().len());
        assert forall|i: int| 0 <= i < ps1.len() implies ps1[i] == ps2[i] by {
            if i > 0 {
                assert(ps1[i] == ps1.drop_first()[i - 1]);
                assert(ps2[i] == ps2.drop_first()[i - 1]);
            }
        }
        assert(ps1 =~= ps2);
    }
}

/// Round trip: the document pins the projects down. Two project sequences
/// with the same document are the same sequence, so a library parsed back
/// from a written document holds exactly the projects that were written —
/// same names, descriptions, statuses and order — while the selection index,
/// never part of the document, is reset on load.
pub proof fn lemma_document_round_trip(ps1: Seq<ProjectData>, ps2: Seq<ProjectData>)
    requires
        document_of(ps1) == document_of(ps2),
    ensures
        ps1 == ps2,
{
    reveal_strlit("[[projects]]\n");
    reveal_strlit("projects = []\n");
    if ps1.len() == 0 && ps2.len() == 0 {
        assert(ps1 =~= ps2);
    } else if ps1.len() == 0 {
        assert(blocks_of(ps2).len() >= block_of(ps2[0]).len());
        assert(blocks_of(ps2)[0] == block_of(ps2[0])[0]);
        assert(block_of(ps2[0])[0] == '[');
        assert(document_of(ps1)[0] == 'p');
        assert(false);
    } else if ps2.len() == 0 {
        assert(blocks_of(ps1).len() >= block_of(ps1[0]).len());
        assert(blocks_of(ps1)[0] == block_of(ps1[0])[0]);
        assert(block_of(ps1[0])[0] == '[');
        assert(document_of(ps2)[0] == 'p');
        assert(false);
    } else {
        lemma_blocks_injective(ps1, ps2);
    }
}

} // verus!
