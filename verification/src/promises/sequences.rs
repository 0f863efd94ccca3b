//! Picking and mapping elements of sequences.
use vstd::prelude::*;

verus! {

/// What is picked from a sequence by `p` and mapped by `g` grows with the sequence.
pub proof fn lemma_filter_map_last<A, B>(list: Seq<A>, p: spec_fn(A) -> bool, g: spec_fn(A) -> B)
    requires
        list.len() > 0,
    ensures
        list.filter(p).map_values(g) == if p(list.last()) {
            list.drop_last().filter(p).map_values(g).push(g(list.last()))
        } else {
            list.drop_last().filter(p).map_values(g)
        },
{
    reveal(Seq::filter);
    let front = list.drop_last().filter(p);
    if p(list.last()) {
        assert(list.filter(p) == front.push(list.last()));
        assert(front.push(list.last()).map_values(g) =~= front.map_values(g).push(g(list.last())));
    }
}

pub proof fn lemma_filter_map_none<A, B>(list: Seq<A>, p: spec_fn(A) -> bool, g: spec_fn(A) -> B)
    requires
        list.len() == 0,
    ensures
        list.filter(p).map_values(g) == Seq::<B>::empty(),
{
    reveal(Seq::filter);
    assert(list.filter(p).map_values(g) =~= Seq::<B>::empty());
}

} // verus!
