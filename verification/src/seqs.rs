//! Lemmas on sequences that the loops of this crate lean on.

use vstd::prelude::*;

verus! {

/// Filtering one element more: the filtered prefix grows by that element if
/// it passes, and stays as it is if not.
pub proof fn lemma_filter_step<A>(s: Seq<A>, pred: spec_fn(A) -> bool, i: int)
    requires
        0 <= i < s.len(),
    ensures
        s.take(i + 1).filter(pred) == if pred(s[i]) {
            s.take(i).filter(pred).push(s[i])
        } else {
            s.take(i).filter(pred)
        },
{
    reveal(Seq::filter);
    assert(s.take(i + 1).drop_last() == s.take(i));
    assert(s.take(i + 1).last() == s[i]);
}

/// Nothing passes the filter of an empty sequence.
pub proof fn lemma_filter_empty<A>(s: Seq<A>, pred: spec_fn(A) -> bool)
    requires
        s.len() == 0,
    ensures
        s.filter(pred) == Seq::<A>::empty(),
{
    reveal(Seq::filter);
    assert(s =~= Seq::<A>::empty());
}

/// The whole sequence is its own longest prefix.
pub proof fn lemma_take_all<A>(s: Seq<A>)
    ensures
        s.take(s.len() as int) == s,
{
    assert(s.take(s.len() as int) =~= s);
}

/// An element is in the filtered sequence exactly if it is in the sequence
/// and passes.
pub proof fn lemma_filter_contains<A>(s: Seq<A>, pred: spec_fn(A) -> bool, x: A)
    ensures
        s.filter(pred).contains(x) <==> s.contains(x) && pred(x),
    decreases s.len(),
{
    reveal(Seq::filter);
    if s.len() == 0 {
        assert(!s.contains(x));
        assert(!s.filter(pred).contains(x));
    } else {
        let front = s.drop_last();
        lemma_filter_contains(front, pred, x);
        if s.contains(x) {
            let k = choose|k: int| 0 <= k < s.len() && s[k] == x;
            if k < s.len() - 1 {
                assert(front[k] == x);
            }
        }
        if front.contains(x) {
            let k = choose|k: int| 0 <= k < front.len() && front[k] == x;
            assert(s[k] == x);
        }
        if pred(s.last()) {
            let kept = front.filter(pred);
            assert(kept.push(s.last()).last() == s.last());
            if kept.push(s.last()).contains(x) {
                let k = choose|k: int| 0 <= k < kept.len() + 1 && kept.push(s.last())[k] == x;
                if k < kept.len() {
                    assert(kept[k] == x);
                }
            }
            if kept.contains(x) {
                let k = choose|k: int| 0 <= k < kept.len() && kept[k] == x;
                assert(kept.push(s.last())[k] == x);
            }
            if x == s.last() {
                assert(kept.push(s.last())[kept.len() as int] == x);
                assert(s[s.len() - 1] == x);
            }
        }
    }
}

} // verus!
