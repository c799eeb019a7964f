//! Putting a mermaid diagram between the two marker comments of a markdown text.

use vstd::prelude::*;
use crate::text::{chars_of, contains_text, count_occurrences, occurs_at, push_chars, push_range, push_str, to_owned_string};

verus! {

/// Errors that can occur during markdown injection.
#[derive(Debug, Clone, Copy, PartialEq, Eq, Structural)]
pub enum InjectError {
    /// Neither marker found in the markdown text.
    MissingTags,
    /// One of the markers is missing, they are in the wrong order, or one occurs twice.
    MalformedTags,
}

impl InjectError {
    /// The message that describes the error.
    pub fn message(&self) -> (r: String)
        ensures
            *self == InjectError::MissingTags ==> r@ == "Missing CODEVIZ sentinel tags in markdown"@,
            *self == InjectError::MalformedTags ==> r@ == "Malformed CODEVIZ sentinel tags (missing one or wrong order)"@,
    {
        match self {
            InjectError::MissingTags => to_owned_string("Missing CODEVIZ sentinel tags in markdown"),
            InjectError::MalformedTags => to_owned_string("Malformed CODEVIZ sentinel tags (missing one or wrong order)"),
        }
    }
}

/// The opening marker.
pub open spec fn tag_start() -> Seq<char> {
    "<!-- CODEVIZ_START -->"@
}

/// The closing marker.
pub open spec fn tag_end() -> Seq<char> {
    "<!-- CODEVIZ_END -->"@
}

/// Whether `p` occurs in `s` at `i` and nowhere else.
pub open spec fn unique_at(s: Seq<char>, p: Seq<char>, i: int) -> bool {
    occurs_at(s, p, i) && forall|j: int| #[trigger] occurs_at(s, p, j) ==> j == i
}

/// Whether the markers stand once each, the opening one first.
pub open spec fn well_tagged(s: Seq<char>) -> bool {
    exists|a: int, b: int| unique_at(s, tag_start(), a) && unique_at(s, tag_end(), b) && a < b
}

/// The diagram text inside the fence: as given, with a final line break added where it
/// lacks one; nothing for an empty diagram.
pub open spec fn fence_body(m: Seq<char>) -> Seq<char> {
    if m.len() == 0 {
        m
    } else if m.last() == '\n' {
        m
    } else {
        m.push('\n')
    }
}

/// The markdown text with the diagram put between the markers at `a` and `b`.
pub open spec fn injected(s: Seq<char>, m: Seq<char>, a: int, b: int) -> Seq<char> {
    s.take(a + tag_start().len()) + "\n```mermaid\n"@ + fence_body(m) + "```\n"@ + s.skip(b)
}

/// Injects mermaid content between the CODEVIZ_START and CODEVIZ_END markers.
/// All content before the opening marker (included) and from the closing marker on is
/// kept as it is.
pub fn inject_mermaid(markdown: &str, mermaid: &str) -> (r: Result<String, InjectError>)
    ensures
        r == Err::<String, InjectError>(InjectError::MissingTags) <==>
            (!contains_text(markdown@, tag_start()) && !contains_text(markdown@, tag_end())),
        r is Ok <==> well_tagged(markdown@),
        r matches Ok(out) ==> injects_to(markdown@, mermaid@, out@),
{
    let md = chars_of(markdown);
    let ts = chars_of("<!-- CODEVIZ_START -->");
    let te = chars_of("<!-- CODEVIZ_END -->");
    proof {
        reveal_strlit("<!-- CODEVIZ_START -->");
        reveal_strlit("<!-- CODEVIZ_END -->");
    }
    let (ns, a) = count_occurrences(&md, &ts);
    let (ne, b) = count_occurrences(&md, &te);
    if ns == 0 && ne == 0 {
        return Err(InjectError::MissingTags);
    }
    if ns != 1 || ne != 1 {
        proof {
            if well_tagged(md@) {
                let (a2, b2) = choose|a2: int, b2: int| unique_at(md@, tag_start(), a2) && unique_at(md@, tag_end(), b2) && a2 < b2;
                if ns != 1 {
                    if ns == 0 {
                        assert(contains_text(md@, tag_start()));
                    }
                    assert(a == a2);
                }
                if ne != 1 {
                    if ne == 0 {
                        assert(contains_text(md@, tag_end()));
                    }
                    assert(b == b2);
                }
            }
        }
        return Err(InjectError::MalformedTags);
    }
    if a >= b {
        proof {
            if well_tagged(md@) {
                let (a2, b2) = choose|a2: int, b2: int| unique_at(md@, tag_start(), a2) && unique_at(md@, tag_end(), b2) && a2 < b2;
                assert(a == a2 && b == b2);
            }
        }
        return Err(InjectError::MalformedTags);
    }
    assert(occurs_at(md@, ts@, a as int) && occurs_at(md@, te@, b as int));
    let mlen = md.len();
    assert(a + ts@.len() <= mlen);
    let mut out = String::new();
    push_range(&mut out, &md, 0, a + ts.len());
    push_str(&mut out, "\n```mermaid\n");
    let m = chars_of(mermaid);
    if m.len() > 0 {
        push_chars(&mut out, m.as_slice());
        if m[m.len() - 1] != '\n' {
            push_str(&mut out, "\n");
        }
    }
    push_str(&mut out, "```\n");
    push_range(&mut out, &md, b, md.len());
    proof {
        reveal_strlit("\n");
        assert(md@.subrange(0, a + ts@.len()) =~= md@.take(a + tag_start().len()));
        assert(md@.subrange(b as int, md@.len() as int) =~= md@.skip(b as int));
        assert(out@ =~= injected(md@, m@, a as int, b as int));
        assert(unique_at(md@, tag_start(), a as int) && unique_at(md@, tag_end(), b as int));
    }
    Ok(out)
}


/// Whether the character can stand in a marker: none of those of the fence lines.
pub open spec fn marker_char(c: char) -> bool {
    c != '\n' && c != '`' && c != 'm' && c != 'e' && c != 'r' && c != 'a' && c != 'i' && c != 'd'
}

proof fn lemma_marker_chars()
    ensures
        forall|k: int| 0 <= k < tag_start().len() ==> marker_char(#[trigger] tag_start()[k]),
        forall|k: int| 0 <= k < tag_end().len() ==> marker_char(#[trigger] tag_end()[k]),
        forall|k: int| 0 <= k < "\n```mermaid\n"@.len() ==> !marker_char(#[trigger] "\n```mermaid\n"@[k]),
        forall|k: int| 0 <= k < "```\n"@.len() ==> !marker_char(#[trigger] "```\n"@[k]),
        tag_start().len() == 22,
        tag_end().len() == 20,
        "\n```mermaid\n"@.len() == 12,
        "```\n"@.len() == 4,
        tag_start()[0] == '<',
        tag_end()[0] == '<',
        forall|k: int| 0 < k < tag_start().len() ==> #[trigger] tag_start()[k] != '<',
{
    reveal_strlit("<!-- CODEVIZ_START -->");
    reveal_strlit("<!-- CODEVIZ_END -->");
    reveal_strlit("\n```mermaid\n");
    reveal_strlit("```\n");
}

/// A marker occurrence does not overlap a stretch of fence characters.
proof fn lemma_no_overlap(t: Seq<char>, p: Seq<char>, j: int, lo: int, f: Seq<char>)
    requires
        occurs_at(t, p, j),
        p.len() > 0,
        f.len() > 0,
        0 <= lo,
        lo + f.len() <= t.len(),
        t.subrange(lo, lo + f.len()) == f,
        forall|k: int| 0 <= k < f.len() ==> !marker_char(#[trigger] f[k]),
        forall|k: int| 0 <= k < p.len() ==> marker_char(#[trigger] p[k]),
    ensures
        j + p.len() <= lo || j >= lo + f.len(),
{
    if !(j + p.len() <= lo || j >= lo + f.len()) {
        let k = if j >= lo { j } else { lo };
        assert(t[k] == t.subrange(lo, lo + f.len())[k - lo]);
        assert(t[k] == t.subrange(j, j + p.len())[k - j]);
        assert(marker_char(p[k - j]));
        assert(!marker_char(f[k - lo]));
    }
}

/// An occurrence inside a stretch of the text is an occurrence in the stretch.
proof fn lemma_occurs_within(t: Seq<char>, u: Seq<char>, p: Seq<char>, j: int, off: int)
    requires
        occurs_at(t, p, j),
        0 <= off,
        off + u.len() <= t.len(),
        t.subrange(off, off + u.len()) == u,
        off <= j,
        j + p.len() <= off + u.len(),
    ensures
        occurs_at(u, p, j - off),
{
    assert(u.subrange(j - off, j - off + p.len()) =~= t.subrange(j, j + p.len()));
}

/// Injecting a diagram that holds neither marker into a text it was injected into gives
/// that text again: the markers stay where they were, once each.
pub proof fn lemma_inject_idempotent(s: Seq<char>, m: Seq<char>, a: int, b: int)
    requires
        unique_at(s, tag_start(), a),
        unique_at(s, tag_end(), b),
        a < b,
        !contains_text(m, tag_start()),
        !contains_text(m, tag_end()),
    ensures
        ({
            let t = injected(s, m, a, b);
            let b2 = a + tag_start().len() + 12 + fence_body(m).len() + 4;
            &&& unique_at(t, tag_start(), a)
            &&& unique_at(t, tag_end(), b2)
            &&& a < b2
            &&& injected(t, m, a, b2) == t
        }),
{
    lemma_marker_chars();
    let ls = tag_start().len() as int;
    let f1 = "\n```mermaid\n"@;
    let f2 = "```\n"@;
    let body = fence_body(m);
    let pre = s.take(a + ls);
    let post = s.skip(b);
    let t = injected(s, m, a, b);
    assert(t == pre + f1 + body + f2 + post);
    let o1 = a + ls;
    let ob = o1 + 12;
    let o2 = ob + body.len();
    let oq = o2 + 4;
    // The closing marker of the text comes after the whole opening one.
    assert(b >= a + ls) by {
        if b < a + ls {
            assert(s[b] == s.subrange(b, b + tag_end().len())[0]);
            assert(s[b] == s.subrange(a, a + ls)[b - a]);
        }
    }
    assert(t.subrange(0, o1) =~= pre);
    assert(t.subrange(o1, o1 + 12) =~= f1);
    assert(t.subrange(ob, ob + body.len()) =~= body);
    assert(t.subrange(o2, o2 + 4) =~= f2);
    assert(t.subrange(oq, t.len() as int) =~= post);
    // Where each marker occurs in the new text.
    assert forall|p: Seq<char>, j: int| (p == tag_start() || p == tag_end()) && #[trigger] occurs_at(t, p, j) implies
        (p == tag_start() ==> j == a) && (p == tag_end() ==> j == oq) by {
        lemma_no_overlap(t, p, j, o1, f1);
        lemma_no_overlap(t, p, j, o2, f2);
        if j + p.len() <= o1 {
            lemma_occurs_within(t, pre, p, j, 0);
            assert(s.subrange(j, j + p.len()) =~= pre.subrange(j, j + p.len()));
            assert(occurs_at(s, p, j));
            if p == tag_end() {
                assert(j == b);
            }
        } else if j >= oq {
            lemma_occurs_within(t, post, p, j, oq);
            assert(s.subrange(j - oq + b, j - oq + b + p.len()) =~= post.subrange(j - oq, j - oq + p.len()));
            assert(occurs_at(s, p, j - oq + b));
        } else {
            assert(ob <= j && j + p.len() <= o2);
            lemma_occurs_within(t, body, p, j, ob);
            if m.len() > 0 && m.last() != '\n' {
                assert(body == m.push('\n'));
                if j - ob + p.len() > m.len() {
                    let k = m.len() - (j - ob);
                    assert(body[m.len() as int] == '\n');
                    assert(p[k] == body.subrange(j - ob, j - ob + p.len())[k]);
                    assert(marker_char(p[k]));
                }
                assert(m.subrange(j - ob, j - ob + p.len()) =~= body.subrange(j - ob, j - ob + p.len()));
                assert(occurs_at(m, p, j - ob));
            } else {
                assert(body == m);
            }
            assert(contains_text(m, p));
        }
    }
    assert(occurs_at(t, tag_start(), a)) by {
        assert(t.subrange(a, a + ls) =~= s.subrange(a, a + ls));
    }
    assert(occurs_at(t, tag_end(), oq)) by {
        assert(t.subrange(oq, oq + tag_end().len()) =~= s.subrange(b, b + tag_end().len()));
    }
    assert(t.take(a + ls) =~= pre);
    assert(t.skip(oq) =~= post);
}
/// Injection is idempotent: where injecting a diagram that holds neither marker into a
/// text succeeds, the result is well tagged, and injecting the same diagram into the result
/// (at its markers, wherever `inject_mermaid` finds them) gives the result back.
pub proof fn lemma_inject_twice(md: Seq<char>, m: Seq<char>, out: Seq<char>)
    requires
        exists|a: int, b: int| unique_at(md, tag_start(), a) && unique_at(md, tag_end(), b) && a < b
            && out == #[trigger] injected(md, m, a, b),
        !contains_text(m, tag_start()),
        !contains_text(m, tag_end()),
    ensures
        well_tagged(out),
        forall|a2: int, b2: int| unique_at(out, tag_start(), a2) && unique_at(out, tag_end(), b2) && a2 < b2
            ==> #[trigger] injected(out, m, a2, b2) == out,
{
    let (a, b) = choose|a: int, b: int| unique_at(md, tag_start(), a) && unique_at(md, tag_end(), b) && a < b
        && out == #[trigger] injected(md, m, a, b);
    lemma_inject_idempotent(md, m, a, b);
    let b2 = a + tag_start().len() + 12 + fence_body(m).len() + 4;
    assert(unique_at(out, tag_start(), a) && unique_at(out, tag_end(), b2) && a < b2);
    assert forall|x: int, y: int| unique_at(out, tag_start(), x) && unique_at(out, tag_end(), y) && x < y
        implies #[trigger] injected(out, m, x, y) == out by {
        assert(occurs_at(out, tag_start(), x));
        assert(occurs_at(out, tag_end(), y));
    }
}


/// Whether `out` is an answer `inject_mermaid(md, m)` may give (see its contract): the
/// diagram put between the one start marker and the one end marker that follows it.
pub open spec fn injects_to(md: Seq<char>, m: Seq<char>, out: Seq<char>) -> bool {
    exists|a: int, b: int| unique_at(md, tag_start(), a) && unique_at(md, tag_end(), b) && a < b
        && out == #[trigger] injected(md, m, a, b)
}

/// Injecting the same diagram again changes nothing: where `inject_mermaid(md, m)` gives
/// `out` and the diagram holds neither marker, `inject_mermaid(out, m)` succeeds (the
/// result is well tagged) and gives `out` again.
pub proof fn lemma_inject_again_same(md: Seq<char>, m: Seq<char>, out: Seq<char>, out2: Seq<char>)
    requires
        injects_to(md, m, out),
        injects_to(out, m, out2),
        !contains_text(m, tag_start()),
        !contains_text(m, tag_end()),
    ensures
        well_tagged(out),
        out2 == out,
{
    lemma_inject_twice(md, m, out);
    let (a2, b2) = choose|a: int, b: int| unique_at(out, tag_start(), a) && unique_at(out, tag_end(), b) && a < b
        && out2 == #[trigger] injected(out, m, a, b);
    assert(injected(out, m, a2, b2) == out);
}

} // verus!
