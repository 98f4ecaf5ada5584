use crate::text::{chars_of, views};
use vstd::prelude::*;

verus! {

broadcast use vstd::string::group_string_axioms;

/// Whether `a` comes no later than `b` in lexicographic order by code point, given
/// that their first `k` characters agree.
pub open spec fn lex_le_from(a: Seq<char>, b: Seq<char>, k: int) -> bool
    decreases a.len() - k,
{
    if k < 0 || k >= a.len() {
        true
    } else if k >= b.len() {
        false
    } else if a[k] != b[k] {
        a[k] < b[k]
    } else {
        lex_le_from(a, b, k + 1)
    }
}

/// Lexicographic order by code point, the order of file names.
pub open spec fn lex_le(a: Seq<char>, b: Seq<char>) -> bool {
    lex_le_from(a, b, 0)
}

/// Whether `s` is in lexicographic order.
pub open spec fn sorted(s: Seq<Seq<char>>) -> bool {
    forall|i: int, j: int| 0 <= i < j < s.len() ==> lex_le(#[trigger] s[i], #[trigger] s[j])
}

proof fn lemma_lex_total(a: Seq<char>, b: Seq<char>, k: int)
    requires
        k >= 0,
    ensures
        lex_le_from(a, b, k) || lex_le_from(b, a, k),
    decreases a.len() - k,
{
    if k < a.len() && k < b.len() && a[k] == b[k] {
        lemma_lex_total(a, b, k + 1);
    }
}

proof fn lemma_lex_trans(a: Seq<char>, b: Seq<char>, c: Seq<char>, k: int)
    requires
        k >= 0,
        lex_le_from(a, b, k),
        lex_le_from(b, c, k),
    ensures
        lex_le_from(a, c, k),
    decreases a.len() - k,
{
    if k < a.len() && k < b.len() && k < c.len() && a[k] == b[k] && b[k] == c[k] {
        lemma_lex_trans(a, b, c, k + 1);
    }
}

/// Whether `a` comes no later than `b`.
pub fn lex_le_exec(a: &str, b: &str) -> (r: bool)
    ensures
        r == lex_le(a@, b@),
{
    let va = chars_of(a);
    let vb = chars_of(b);
    let mut k: usize = 0;
    while k < va.len()
        invariant
            k <= va.len(),
            va@ == a@,
            vb@ == b@,
            k <= vb.len(),
            lex_le(a@, b@) == lex_le_from(a@, b@, k as int),
        decreases va.len() - k,
    {
        if k >= vb.len() {
            return false;
        }
        if va[k] != vb[k] {
            return va[k] < vb[k];
        }
        k = k + 1;
    }
    true
}

/// `names` in lexicographic order.
pub fn sort_file_names(names: Vec<String>) -> (r: Vec<String>)
    ensures
        sorted(views(r@)),
        views(r@).to_multiset() == views(names@).to_multiset(),
{
    broadcast use vstd::seq_lib::group_to_multiset_ensures;

    let mut out: Vec<String> = Vec::new();
    let mut i: usize = 0;
    assert(views(out@) =~= views(names@).subrange(0, 0));
    while i < names.len()
        invariant
            i <= names.len(),
            sorted(views(out@)),
            views(out@).to_multiset() == views(names@).subrange(0, i as int).to_multiset(),
        decreases names.len() - i,
    {
        let x = names[i].clone();
        let mut p: usize = 0;
        while p < out.len() && lex_le_exec(out[p].as_str(), x.as_str())
            invariant
                p <= out.len(),
                i < names.len(),
                x@ == names@[i as int]@,
                sorted(views(out@)),
                views(out@).to_multiset() == views(names@).subrange(0, i as int).to_multiset(),
                forall|q: int| 0 <= q < p ==> lex_le(#[trigger] out@[q]@, x@),
            decreases out.len() - p,
        {
            p = p + 1;
        }
        let ghost before = views(out@);
        proof {
            if p < out.len() {
                lemma_lex_total(out@[p as int]@, x@, 0);
            }
        }
        out.insert(p, x);
        assert(views(out@) =~= before.insert(p as int, x@));
        assert(views(names@).subrange(0, i + 1) =~= views(names@).subrange(0, i as int).push(
            names@[i as int]@,
        ));
        proof {
            vstd::seq_lib::to_multiset_insert(before, p as int, x@);
            let prefix = views(names@).subrange(0, i as int);
            prefix.to_multiset_ensures();
            assert(prefix.push(x@).to_multiset() == prefix.to_multiset().insert(x@));
            let s = views(out@);
            assert forall|a: int, b: int| 0 <= a < b < s.len() implies lex_le(
                #[trigger] s[a],
                #[trigger] s[b],
            ) by {
                if a < p && b < p {
                    assert(s[a] == before[a] && s[b] == before[b]);
                } else if a < p && b == p {
                    assert(s[a] == before[a]);
                } else if a < p && b > p {
                    assert(s[a] == before[a] && s[b] == before[b - 1]);
                    assert(lex_le(before[a], x@));
                    assert(lex_le(x@, before[p as int]));
                    if b - 1 > p {
                        assert(lex_le(before[p as int], before[b - 1]));
                        lemma_lex_trans(x@, before[p as int], before[b - 1], 0);
                    }
                    lemma_lex_trans(before[a], x@, before[b - 1], 0);
                } else if a == p {
                    assert(s[b] == before[b - 1]);
                    assert(lex_le(x@, before[p as int]));
                    if b - 1 > p {
                        assert(lex_le(before[p as int], before[b - 1]));
                        lemma_lex_trans(x@, before[p as int], before[b - 1], 0);
                    }
                } else {
                    assert(s[a] == before[a - 1] && s[b] == before[b - 1]);
                }
            }
        }
        i = i + 1;
    }
    assert(views(names@).subrange(0, names.len() as int) =~= views(names@));
    out
}

} // verus!
