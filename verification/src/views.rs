//! Views of sequences of values that have a view.

use vstd::prelude::*;

verus! {

/// The views of the items of `s`, in order.
pub open spec fn views<T: View>(s: Seq<T>) -> Seq<T::V> {
    s.map_values(|t: T| t@)
}

pub proof fn lemma_views_push<T: View>(s: Seq<T>, t: T)
    ensures
        views(s.push(t)) == views(s).push(t@),
{
    assert(views(s.push(t)) =~= views(s).push(t@));
}

pub proof fn lemma_views_add<T: View>(a: Seq<T>, b: Seq<T>)
    ensures
        views(a + b) == views(a) + views(b),
{
    assert(views(a + b) =~= views(a) + views(b));
}

pub proof fn lemma_views_empty<T: View>()
    ensures
        views(Seq::<T>::empty()) == Seq::<T::V>::empty(),
{
    assert(views(Seq::<T>::empty()) =~= Seq::<T::V>::empty());
}

pub proof fn lemma_views_drop_last<T: View>(s: Seq<T>)
    requires
        s.len() > 0,
    ensures
        views(s.drop_last()) == views(s).drop_last(),
        views(s).last() == s.last()@,
{
    assert(views(s.drop_last()) =~= views(s).drop_last());
}

} // verus!
