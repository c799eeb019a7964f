//! The lexicographic order of texts, sorting by it, and joining texts.

use vstd::prelude::*;
use crate::text::{chars_of, push_str};
use vstd::multiset::Multiset;

verus! {

/// Whether `a` comes before `b` or equals it, character by character (the order of
/// `String`'s `Ord`).
pub open spec fn lex_le(a: Seq<char>, b: Seq<char>) -> bool
    decreases a.len(),
{
    if a.len() == 0 {
        true
    } else if b.len() == 0 {
        false
    } else if a[0] != b[0] {
        a[0] < b[0]
    } else {
        lex_le(a.skip(1), b.skip(1))
    }
}

/// Any two texts are ordered one way or the other.
pub proof fn lemma_lex_total(a: Seq<char>, b: Seq<char>)
    ensures
        lex_le(a, b) || lex_le(b, a),
    decreases a.len(),
{
    if a.len() > 0 && b.len() > 0 && a[0] == b[0] {
        lemma_lex_total(a.skip(1), b.skip(1));
    }
}

/// Every text comes before or equals itself.
pub proof fn lemma_lex_refl(a: Seq<char>)
    ensures
        lex_le(a, a),
    decreases a.len(),
{
    if a.len() > 0 {
        lemma_lex_refl(a.skip(1));
    }
}

/// The order is transitive.
pub proof fn lemma_lex_trans(a: Seq<char>, b: Seq<char>, c: Seq<char>)
    requires
        lex_le(a, b),
        lex_le(b, c),
    ensures
        lex_le(a, c),
    decreases a.len(),
{
    if a.len() > 0 && b.len() > 0 && c.len() > 0 && a[0] == b[0] && b[0] == c[0] {
        lemma_lex_trans(a.skip(1), b.skip(1), c.skip(1));
    }
}

/// The order is antisymmetric.
pub proof fn lemma_lex_antisym(a: Seq<char>, b: Seq<char>)
    requires
        lex_le(a, b),
        lex_le(b, a),
    ensures
        a == b,
    decreases a.len(),
{
    if a.len() > 0 && b.len() > 0 {
        lemma_lex_antisym(a.skip(1), b.skip(1));
        assert(a =~= seq![a[0]] + a.skip(1));
        assert(b =~= seq![b[0]] + b.skip(1));
    }
}

/// Whether `a` comes before or equals `b`.
pub fn lex_le_exec(a: &String, b: &String) -> (r: bool)
    ensures
        r == lex_le(a@, b@),
{
    let av = chars_of(a.as_str());
    let bv = chars_of(b.as_str());
    let mut i: usize = 0;
    assert(av@.skip(0) =~= av@);
    assert(bv@.skip(0) =~= bv@);
    while i < av.len() && i < bv.len() && av[i] == bv[i]
        invariant
            i <= av@.len(),
            i <= bv@.len(),
            lex_le(a@, b@) == lex_le(av@.skip(i as int), bv@.skip(i as int)),
            av@ == a@,
            bv@ == b@,
        decreases av@.len() - i,
    {
        assert(av@.skip(i as int).skip(1) =~= av@.skip(i + 1));
        assert(bv@.skip(i as int).skip(1) =~= bv@.skip(i + 1));
        i = i + 1;
    }
    if i == av.len() {
        true
    } else if i == bv.len() {
        false
    } else {
        av[i] < bv[i]
    }
}

/// Whether the texts stand in order.
pub open spec fn sorted(s: Seq<Seq<char>>) -> bool {
    forall|i: int, j: int| 0 <= i < j < s.len() ==> lex_le(s[i], s[j])
}

/// Sorts the texts.
pub fn sort_texts(v: Vec<String>) -> (r: Vec<String>)
    ensures
        sorted(r.deep_view()),
        r.deep_view().to_multiset() == v.deep_view().to_multiset(),
{
    let mut rest = v;
    let mut out: Vec<String> = Vec::new();
    let ghost all = rest.deep_view().to_multiset();
    proof {
        broadcast use vstd::multiset::group_multiset_axioms;
        out.deep_view().to_multiset_ensures();
        assert(out.deep_view() =~= Seq::<Seq<char>>::empty());
        assert(out.deep_view().to_multiset() =~= Multiset::<Seq<char>>::empty());
        assert(out.deep_view().to_multiset().add(rest.deep_view().to_multiset()) =~= all);
    }
    while rest.len() > 0
        invariant
            sorted(out.deep_view()),
            forall|i: int, j: int| 0 <= i < out.deep_view().len() && 0 <= j < rest.deep_view().len()
                ==> lex_le(#[trigger] out.deep_view()[i], #[trigger] rest.deep_view()[j]),
            out.deep_view().to_multiset().add(rest.deep_view().to_multiset()) == all,
        decreases rest@.len(),
    {
        let mut m: usize = 0;
        let mut k: usize = 1;
        proof {
            lemma_lex_refl(rest.deep_view()[0]);
        }
        while k < rest.len()
            invariant
                0 < rest@.len(),
                m < rest@.len(),
                1 <= k <= rest@.len(),
                forall|j: int| 0 <= j < k ==> lex_le(rest.deep_view()[m as int], #[trigger] rest.deep_view()[j]),
            decreases rest@.len() - k,
        {
            if !lex_le_exec(&rest[m], &rest[k]) {
                proof {
                    lemma_lex_total(rest.deep_view()[m as int], rest.deep_view()[k as int]);
                    lemma_lex_refl(rest.deep_view()[k as int]);
                    assert forall|j: int| 0 <= j < k + 1 implies lex_le(rest.deep_view()[k as int], #[trigger] rest.deep_view()[j]) by {
                        if j < k {
                            lemma_lex_trans(rest.deep_view()[k as int], rest.deep_view()[m as int], rest.deep_view()[j]);
                        }
                    }
                }
                m = k;
            } else {
                assert(lex_le(rest.deep_view()[m as int], rest.deep_view()[k as int]));
            }
            k = k + 1;
        }
        let ghost r0 = rest.deep_view();
        let ghost o0 = out.deep_view();
        let x = rest.remove(m);
        assert(rest.deep_view() =~= r0.remove(m as int)) by {
            assert forall|j: int| 0 <= j < rest.deep_view().len() implies rest.deep_view()[j] == r0.remove(m as int)[j] by {
                if j < m {
                    assert(rest.deep_view()[j] == r0[j]);
                } else {
                    assert(rest.deep_view()[j] == r0[j + 1]);
                }
            }
        }
        assert(x@ == r0[m as int]);
        out.push(x);
        assert(out.deep_view() =~= o0.push(r0[m as int]));
        proof {
            broadcast use vstd::multiset::group_multiset_axioms;
            vstd::seq_lib::to_multiset_build(o0, r0[m as int]);
            vstd::seq_lib::to_multiset_remove(r0, m as int);
            r0.to_multiset_ensures();
            assert(r0.contains(r0[m as int]));
            assert(r0.to_multiset().count(r0[m as int]) > 0);
            assert(out.deep_view().to_multiset().add(rest.deep_view().to_multiset()) =~= o0.to_multiset().add(r0.to_multiset()));
            assert forall|i: int, j: int| 0 <= i < j < out.deep_view().len() implies lex_le(out.deep_view()[i], out.deep_view()[j]) by {
                if j == o0.len() {
                    assert(lex_le(o0[i], r0[m as int]));
                }
            }
            assert forall|i: int, j: int| 0 <= i < out.deep_view().len() && 0 <= j < rest.deep_view().len()
                implies lex_le(#[trigger] out.deep_view()[i], #[trigger] rest.deep_view()[j]) by {
                let jj = if j < m { j } else { j + 1 };
                assert(rest.deep_view()[j] == r0[jj]);
                if i < o0.len() {
                    assert(lex_le(o0[i], r0[jj]));
                } else {
                    assert(lex_le(r0[m as int], r0[jj]));
                }
            }
        }
    }
    proof {
        broadcast use vstd::multiset::group_multiset_axioms;
        assert(rest.deep_view() =~= Seq::<Seq<char>>::empty());
        rest.deep_view().to_multiset_ensures();
        assert(rest.deep_view().to_multiset() =~= Multiset::<Seq<char>>::empty());
        assert(out.deep_view().to_multiset() =~= out.deep_view().to_multiset().add(rest.deep_view().to_multiset()));
    }
    out
}

/// The texts joined, with the separator between each two.
pub open spec fn join(s: Seq<Seq<char>>, sep: Seq<char>) -> Seq<char>
    decreases s.len(),
{
    if s.len() == 0 {
        seq![]
    } else if s.len() == 1 {
        s[0]
    } else {
        join(s.drop_last(), sep) + sep + s.last()
    }
}

/// The texts joined, with the separator between each two.
pub fn join_texts(v: &Vec<String>, sep: &str) -> (r: String)
    ensures
        r@ == join(v.deep_view(), sep@),
{
    let mut r = String::new();
    let mut i: usize = 0;
    while i < v.len()
        invariant
            i <= v@.len(),
            r@ == join(v.deep_view().take(i as int), sep@),
        decreases v@.len() - i,
    {
        assert(v.deep_view().take(i + 1).drop_last() =~= v.deep_view().take(i as int));
        if i > 0 {
            push_str(&mut r, sep);
        }
        push_str(&mut r, v[i].as_str());
        i = i + 1;
        assert(r@ =~= join(v.deep_view().take(i as int), sep@));
    }
    assert(v.deep_view().take(v@.len() as int) =~= v.deep_view());
    r
}

} // verus!
