//! Path text helpers.

use vstd::prelude::*;
use crate::text::push_char;

verus! {

/// A character of a path with the backslash turned into a forward slash.
pub open spec fn forward_slash(c: char) -> char {
    if c == '\\' { '/' } else { c }
}

/// Normalizes a file path to always use forward slashes, so that ids read the same on
/// every platform.
pub fn normalize_path(path: &str) -> (r: String)
    ensures
        r@ == path@.map_values(|c: char| forward_slash(c)),
{
    let mut r = String::new();
    for c in it: path.chars()
        invariant
            r@ == it.seq().take(it.index() as int).map_values(|c: char| forward_slash(c)),
            it.seq() == path@,
    {
        let ghost r0 = r@;
        if c == '\\' {
            push_char(&mut r, '/');
        } else {
            push_char(&mut r, c);
        }
        assert(it.seq().take(it.index() + 1) =~= it.seq().take(it.index() as int).push(c));
        assert(r@ =~= it.seq().take(it.index() + 1).map_values(|c: char| forward_slash(c)));
    }
    assert(path@.take(path@.len() as int) =~= path@);
    r
}

/// Normalizing twice is normalizing once.
pub proof fn lemma_normalize_idempotent(p: Seq<char>)
    ensures
        p.map_values(|c: char| forward_slash(c)).map_values(|c: char| forward_slash(c))
            == p.map_values(|c: char| forward_slash(c)),
{
    assert(p.map_values(|c: char| forward_slash(c)).map_values(|c: char| forward_slash(c))
        =~= p.map_values(|c: char| forward_slash(c)));
}

/// A normalized path holds no backslash.
pub proof fn lemma_normalized_has_no_backslash(p: Seq<char>)
    ensures
        !p.map_values(|c: char| forward_slash(c)).contains('\\'),
{
    let q = p.map_values(|c: char| forward_slash(c));
    if q.contains('\\') {
        let k = choose|k: int| 0 <= k < q.len() && q[k] == '\\';
        assert(q[k] == forward_slash(p[k]));
    }
}

} // verus!
