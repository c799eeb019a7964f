//! Text operations of the extractors: trimming, cutting at a pattern, splitting paths.

use vstd::prelude::*;
use crate::extract::{char_is_uppercase, upper_case};
use crate::text::{matches_at, occurs_at};

verus! {

/// Whether the character is white space, as `char::is_whitespace` says (the Unicode
/// `White_Space` property).
pub open spec fn is_ws(c: char) -> bool {
    ('\t' <= c && c <= '\r') || c == ' ' || c == '\u{85}' || c == '\u{a0}' || c == '\u{1680}'
        || ('\u{2000}' <= c && c <= '\u{200a}') || c == '\u{2028}' || c == '\u{2029}' || c == '\u{202f}'
        || c == '\u{205f}' || c == '\u{3000}'
}

fn is_ws_exec(c: char) -> (r: bool)
    ensures
        r == is_ws(c),
{
    ('\t' <= c && c <= '\r') || c == ' ' || c == '\u{85}' || c == '\u{a0}' || c == '\u{1680}'
        || ('\u{2000}' <= c && c <= '\u{200a}') || c == '\u{2028}' || c == '\u{2029}' || c == '\u{202f}'
        || c == '\u{205f}' || c == '\u{3000}'
}

/// The text without white space at either end (`str::trim`).
pub open spec fn trim_ws(s: Seq<char>) -> Seq<char>
    decreases s.len(),
{
    if s.len() > 0 && is_ws(s[0]) {
        trim_ws(s.skip(1))
    } else if s.len() > 0 && is_ws(s.last()) {
        trim_ws(s.drop_last())
    } else {
        s
    }
}

/// The characters from `lo` up to `hi`.
pub fn slice_chars(v: &Vec<char>, lo: usize, hi: usize) -> (r: Vec<char>)
    requires
        lo <= hi <= v@.len(),
    ensures
        r@ == v@.subrange(lo as int, hi as int),
{
    let mut r: Vec<char> = Vec::new();
    let mut k: usize = lo;
    while k < hi
        invariant
            lo <= k <= hi <= v@.len(),
            r@ == v@.subrange(lo as int, k as int),
        decreases hi - k,
    {
        r.push(v[k]);
        assert(v@.subrange(lo as int, k + 1) =~= v@.subrange(lo as int, k as int).push(v@[k as int]));
        k = k + 1;
    }
    r
}

/// The text without white space at either end (`str::trim`).
pub fn trim_ws_exec(v: &Vec<char>) -> (r: Vec<char>)
    ensures
        r@ == trim_ws(v@),
{
    let mut lo: usize = 0;
    let mut hi: usize = v.len();
    assert(v@.subrange(0, v@.len() as int) =~= v@);
    while lo < hi && (is_ws_exec(v[lo]) || is_ws_exec(v[hi - 1]))
        invariant
            lo <= hi <= v@.len(),
            trim_ws(v@) == trim_ws(v@.subrange(lo as int, hi as int)),
        decreases hi - lo,
    {
        let ghost w = v@.subrange(lo as int, hi as int);
        if is_ws_exec(v[lo]) {
            assert(w.skip(1) =~= v@.subrange(lo + 1, hi as int));
            lo = lo + 1;
        } else {
            assert(w.drop_last() =~= v@.subrange(lo as int, hi - 1));
            hi = hi - 1;
        }
    }
    slice_chars(v, lo, hi)
}

/// The first position from `i` on where `p` occurs in `s`, or -1.
pub open spec fn first_occ(s: Seq<char>, p: Seq<char>, i: nat) -> int
    decreases s.len() + 1 - i,
{
    if i > s.len() {
        -1
    } else if occurs_at(s, p, i as int) {
        i as int
    } else {
        first_occ(s, p, i + 1)
    }
}

/// The text before the first occurrence of `p`, or all of it (`str::find` and a slice).
pub open spec fn cut_at(s: Seq<char>, p: Seq<char>) -> Seq<char> {
    let k = first_occ(s, p, 0);
    if k >= 0 { s.take(k) } else { s }
}

/// The text before the first occurrence of `p`, or all of it.
pub fn cut_at_exec(v: &Vec<char>, p: &Vec<char>) -> (r: Vec<char>)
    ensures
        r@ == cut_at(v@, p@),
{
    let mut i: usize = 0;
    while i < v.len()
        invariant
            i <= v@.len(),
            first_occ(v@, p@, 0) == first_occ(v@, p@, i as nat),
        decreases v@.len() - i,
    {
        if matches_at(v.as_slice(), i, p.as_slice()) {
            return slice_chars(v, 0, i);
        }
        i = i + 1;
    }
    if matches_at(v.as_slice(), i, p.as_slice()) {
        return slice_chars(v, 0, i);
    }
    assert(first_occ(v@, p@, (i + 1) as nat) == -1);
    slice_chars(v, 0, v.len())
}

/// The position of the last "::" that a left-to-right split of `s` from `i` on finds
/// (`str::split("::")`), or `found` where it finds none.
pub open spec fn last_split(s: Seq<char>, i: nat, found: int) -> int
    decreases s.len() + 2 - i,
{
    if i + 1 < s.len() && s[i as int] == ':' && s[i + 1int] == ':' {
        last_split(s, i + 2, i as int)
    } else if i < s.len() {
        last_split(s, i + 1, found)
    } else {
        found
    }
}

/// The module that a `use` path names: all but its last segment where that segment
/// begins with an upper case character (an item), else the whole path.
pub open spec fn base_module(target: Seq<char>) -> Seq<char> {
    let k = last_split(target, 0, -1);
    if k >= 0 && target.len() > k + 2 && upper_case(target[k + 2]) { target.take(k) } else { target }
}

/// The module that a `use` path names.
pub fn base_module_exec(v: &Vec<char>) -> (r: Vec<char>)
    ensures
        r@ == base_module(v@),
{
    let mut i: usize = 0;
    let mut found: Option<usize> = None;
    while i < v.len()
        invariant
            i <= v@.len(),
            found matches Some(f) ==> f < v@.len(),
            last_split(v@, 0, -1) == last_split(v@, i as nat, match found { Some(f) => f as int, None => -1 }),
        decreases v@.len() - i,
    {
        if i + 1 < v.len() && v[i] == ':' && v[i + 1] == ':' {
            found = Some(i);
            i = i + 2;
        } else {
            i = i + 1;
        }
    }
    match found {
        Some(k) => {
            if v.len() - k > 2 && char_is_uppercase(v[k + 2]) {
                slice_chars(v, 0, k)
            } else {
                slice_chars(v, 0, v.len())
            }
        },
        None => slice_chars(v, 0, v.len()),
    }
}

} // verus!
