//! Go module paths: an import under the module that `go.mod` declares is made relative to
//! the module's root; any other import is kept.

use vstd::prelude::*;
use crate::text::{chars_of, matches_at, starts_with, string_from_chars};
use crate::textops::{slice_chars, trim_ws, trim_ws_exec};

verus! {

/// The text split at each line break, as `str::lines` reads it before each line is trimmed:
/// no line after a final break.
pub open spec fn split_lines(s: Seq<char>) -> Seq<Seq<char>>
    decreases s.len(),
{
    if s.len() == 0 {
        seq![]
    } else {
        let k = first_break(s, 0);
        proof {
            lemma_first_break(s, 0);
        }
        if k < 0 { seq![s] } else { seq![s.take(k)] + split_lines(s.skip(k + 1)) }
    }
}

/// The position of the first line break from `i` on, or -1.
pub open spec fn first_break(s: Seq<char>, i: nat) -> int
    decreases s.len() - i,
{
    if i >= s.len() { -1 } else if s[i as int] == '\n' { i as int } else { first_break(s, i + 1) }
}

pub proof fn lemma_first_break(s: Seq<char>, i: nat)
    ensures
        -1 <= first_break(s, i) < s.len(),
        first_break(s, i) >= 0 ==> first_break(s, i) >= i,
    decreases s.len() - i,
{
    if i < s.len() && s[i as int] != '\n' {
        lemma_first_break(s, i + 1);
    }
}

/// The text without any number of leading copies of the prefix.
pub open spec fn strip_all_prefix(s: Seq<char>, p: Seq<char>) -> Seq<char>
    decreases s.len(),
{
    if p.len() > 0 && starts_with(s, p) { strip_all_prefix(s.skip(p.len() as int), p) } else { s }
}

/// The text without its leading slashes.
pub open spec fn strip_slashes(s: Seq<char>) -> Seq<char>
    decreases s.len(),
{
    if s.len() > 0 && s[0] == '/' { strip_slashes(s.skip(1)) } else { s }
}

/// The module a trimmed `module` line declares.
pub open spec fn module_of(line: Seq<char>) -> Seq<char> {
    trim_ws(strip_all_prefix(line, "module "@))
}

/// The import resolved against the lines of `go.mod`: by the first `module` line whose
/// module the import starts with, made relative to that module (nothing for the module
/// itself); else the import as it is.
pub open spec fn resolve_in_lines(lines: Seq<Seq<char>>, import: Seq<char>) -> Seq<char>
    decreases lines.len(),
{
    if lines.len() == 0 {
        import
    } else {
        let t = trim_ws(lines[0]);
        let m = module_of(t);
        if starts_with(t, "module "@) && starts_with(import, m) {
            if import == m { Seq::empty() } else { strip_slashes(import.skip(m.len() as int)) }
        } else {
            resolve_in_lines(lines.skip(1), import)
        }
    }
}

/// The import resolved against the text of `go.mod`, where there is one.
pub open spec fn resolve_import_spec(import: Seq<char>, go_mod: Option<Seq<char>>) -> Seq<char> {
    match go_mod {
        Some(c) => resolve_in_lines(split_lines(c), import),
        None => import,
    }
}

fn starts_with_exec(s: &Vec<char>, p: &Vec<char>) -> (r: bool)
    ensures
        r == starts_with(s@, p@),
{
    if p.len() <= s.len() {
        let r = matches_at(s.as_slice(), 0, p.as_slice());
        assert(s@.subrange(0, p@.len() as int) =~= s@.take(p@.len() as int));
        r
    } else {
        false
    }
}

fn strip_all_prefix_exec(s: &Vec<char>, p: &Vec<char>) -> (r: Vec<char>)
    ensures
        r@ == strip_all_prefix(s@, p@),
{
    let mut lo: usize = 0;
    assert(s@.skip(0) =~= s@);
    if p.len() == 0 {
        return slice_chars(s, 0, s.len());
    }
    while p.len() <= s.len() - lo && matches_at(s.as_slice(), lo, p.as_slice())
        invariant
            lo <= s@.len(),
            p@.len() > 0,
            strip_all_prefix(s@, p@) == strip_all_prefix(s@.skip(lo as int), p@),
        decreases s@.len() - lo,
    {
        assert(s@.skip(lo as int).take(p@.len() as int) =~= s@.subrange(lo as int, lo + p@.len()));
        assert(s@.skip(lo as int).skip(p@.len() as int) =~= s@.skip(lo + p@.len()));
        lo = lo + p.len();
    }
    proof {
        if lo + p@.len() <= s@.len() {
            assert(s@.skip(lo as int).take(p@.len() as int) =~= s@.subrange(lo as int, lo + p@.len()));
        }
    }
    let r = slice_chars(s, lo, s.len());
    assert(r@ =~= s@.skip(lo as int));
    r
}

fn strip_slashes_exec(s: &Vec<char>) -> (r: Vec<char>)
    ensures
        r@ == strip_slashes(s@),
{
    let mut lo: usize = 0;
    assert(s@.skip(0) =~= s@);
    while lo < s.len() && s[lo] == '/'
        invariant
            lo <= s@.len(),
            strip_slashes(s@) == strip_slashes(s@.skip(lo as int)),
        decreases s@.len() - lo,
    {
        assert(s@.skip(lo as int).skip(1) =~= s@.skip(lo + 1));
        lo = lo + 1;
    }
    let r = slice_chars(s, lo, s.len());
    assert(r@ =~= s@.skip(lo as int));
    r
}

fn resolve_line(line: &Vec<char>, import: &Vec<char>) -> (r: Option<Vec<char>>)
    ensures
        ({
            let t = trim_ws(line@);
            let m = module_of(t);
            if starts_with(t, "module "@) && starts_with(import@, m) {
                r matches Some(v) && v@ == (if import@ == m { Seq::empty() } else { strip_slashes(import@.skip(m.len() as int)) })
            } else {
                r is None
            }
        }),
{
    let t = trim_ws_exec(line);
    let keyword = chars_of("module ");
    if !starts_with_exec(&t, &keyword) {
        return None;
    }
    let stripped = strip_all_prefix_exec(&t, &keyword);
    let m = trim_ws_exec(&stripped);
    if !starts_with_exec(import, &m) {
        return None;
    }
    if import.len() == m.len() {
        assert(import@ =~= m@) by {
            assert(import@.take(m@.len() as int) =~= import@);
        }
        Some(Vec::new())
    } else {
        let rest = slice_chars(import, m.len(), import.len());
        assert(rest@ =~= import@.skip(m@.len() as int));
        assert(import@ != m@);
        Some(strip_slashes_exec(&rest))
    }
}

/// Resolves a Go import against the text of the `go.mod` in the working directory, where
/// one was read (see `resolve_import_spec`).
pub fn resolve_import_path(import_path: &str, go_mod: Option<&str>) -> (r: String)
    ensures
        r@ == resolve_import_spec(import_path@, match go_mod { Some(c) => Some(c@), None => None }),
{
    let import = chars_of(import_path);
    let content = match go_mod {
        Some(c) => chars_of(c),
        None => {
            return string_from_chars(import.as_slice());
        },
    };
    let ghost c = content@;
    let mut start: usize = 0;
    assert(c.skip(0) =~= c);
    while start < content.len()
        invariant
            start <= content@.len(),
            c == content@,
            go_mod matches Some(g) && g@ == c,
            import@ == import_path@,
            resolve_in_lines(split_lines(c), import@) == resolve_in_lines(split_lines(c.skip(start as int)), import@),
        decreases content@.len() - start,
    {
        let ghost rest = c.skip(start as int);
        let mut end: usize = start;
        while end < content.len() && content[end] != '\n'
            invariant
                start <= end <= content@.len(),
                c == content@,
                rest == c.skip(start as int),
                first_break(rest, 0) == first_break(rest, (end - start) as nat),
            decreases content@.len() - end,
        {
            assert(rest[(end - start) as int] == c[end as int]);
            end = end + 1;
        }
        proof {
            if end < content@.len() {
                assert(rest[(end - start) as int] == c[end as int]);
            }
        }
        let line = slice_chars(&content, start, end);
        assert(line@ =~= rest.take((end - start) as int));
        let ghost lines = split_lines(rest);
        match resolve_line(&line, &import) {
            Some(v) => {
                assert(rest.len() > 0);
                assert(lines.len() > 0 && lines[0] == line@) by {
                    if end < content@.len() {
                        assert(first_break(rest, 0) == end - start);
                    } else {
                        assert(first_break(rest, 0) == -1);
                        assert(rest.take((end - start) as int) =~= rest);
                    }
                }
                assert(resolve_in_lines(lines, import@) == v@);
                assert(resolve_in_lines(split_lines(c), import@) == v@);
                return string_from_chars(v.as_slice());
            },
            None => {
                if end < content.len() {
                    assert(first_break(rest, 0) == end - start);
                    assert(lines[0] == line@);
                    assert(lines.skip(1) =~= split_lines(rest.skip(end - start + 1)));
                    assert(rest.skip(end - start + 1) =~= c.skip(end + 1));
                    start = end + 1;
                } else {
                    assert(first_break(rest, 0) == -1);
                    assert(rest.take((end - start) as int) =~= rest);
                    assert(lines[0] == line@);
                    assert(lines.skip(1) =~= Seq::<Seq<char>>::empty());
                    assert(c.skip(end as int) =~= Seq::<char>::empty());
                    start = end;
                }
            },
        }
    }
    assert(c.skip(start as int) =~= Seq::<char>::empty());
    string_from_chars(import.as_slice())
}

} // verus!
