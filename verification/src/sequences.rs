//! Facts about sequences that the loops of the crate share.

use vstd::prelude::*;

verus! {

/// Filtering one element more appends that element if it passes.
pub proof fn lemma_filter_step<A>(s: Seq<A>, keep: spec_fn(A) -> bool, i: int)
    requires
        0 <= i < s.len(),
    ensures
        s.take(i + 1).filter(keep) == (if keep(s[i]) {
            s.take(i).filter(keep).push(s[i])
        } else {
            s.take(i).filter(keep)
        }),
{
    reveal(Seq::filter);
    assert(s.take(i + 1).drop_last() =~= s.take(i));
    assert(s.take(i + 1).last() == s[i]);
}

/// Whatever passes the filter stood in the sequence and satisfies the predicate.
pub proof fn lemma_filter_members<A>(s: Seq<A>, keep: spec_fn(A) -> bool)
    ensures
        forall|a: A| #[trigger] s.filter(keep).contains(a) <==> s.contains(a) && keep(a),
    decreases s.len(),
{
    reveal(Seq::filter);
    if s.len() > 0 {
        let rest = s.drop_last();
        lemma_filter_members(rest, keep);
        let out = s.filter(keep);
        assert forall|a: A| #[trigger] out.contains(a) <==> s.contains(a) && keep(a) by {
            if out.contains(a) {
                let k = choose|k: int| 0 <= k < out.len() && out[k] == a;
                if keep(s.last()) && k == out.len() - 1 {
                    assert(s[s.len() - 1] == a);
                } else {
                    assert(rest.filter(keep)[k] == a);
                    assert(rest.filter(keep).contains(a));
                    let j = choose|j: int| 0 <= j < rest.len() && rest[j] == a;
                    assert(s[j] == a);
                }
            }
            if s.contains(a) && keep(a) {
                let j = choose|j: int| 0 <= j < s.len() && s[j] == a;
                if j == s.len() - 1 {
                    assert(out[out.len() - 1] == a);
                } else {
                    assert(rest[j] == a);
                    assert(rest.contains(a));
                    assert(rest.filter(keep).contains(a));
                    let k = choose|k: int| 0 <= k < rest.filter(keep).len() && rest.filter(keep)[k] == a;
                    assert(out[k] == a);
                }
            }
        }
    }
}

/// Filtering keeps distinct elements distinct.
pub proof fn lemma_filter_no_duplicates<A>(s: Seq<A>, keep: spec_fn(A) -> bool)
    requires
        s.no_duplicates(),
    ensures
        s.filter(keep).no_duplicates(),
    decreases s.len(),
{
    reveal(Seq::filter);
    if s.len() > 0 {
        let rest = s.drop_last();
        lemma_filter_no_duplicates(rest, keep);
        lemma_filter_members(rest, keep);
        let out = s.filter(keep);
        if keep(s.last()) {
            assert(!rest.contains(s.last()));
            assert(out == rest.filter(keep).push(s.last()));
            assert forall|i: int, j: int| 0 <= i < j < out.len() implies out[i] != out[j] by {
                if j == out.len() - 1 {
                    assert(rest.filter(keep).contains(rest.filter(keep)[i]));
                }
            }
        }
    }
}

} // verus!
