use vstd::prelude::*;

verus! {

/// What pushing each element of `xs` in turn, first to last, makes of a
/// container that holds `s`.
pub open spec fn pushed_each<T>(s: Seq<T>, xs: Seq<T>) -> Seq<T>
    decreases xs.len(),
{
    if xs.len() == 0 {
        s
    } else {
        pushed_each(s, xs.drop_last()).push(xs.last())
    }
}

/// The values that one pop after another returns from a container that
/// holds `s`, until it is empty: each pop takes the last element.
pub open spec fn popped_until_empty<T>(s: Seq<T>) -> Seq<T>
    decreases s.len(),
{
    if s.len() == 0 {
        Seq::empty()
    } else {
        seq![s.last()] + popped_until_empty(s.drop_last())
    }
}

/// Pushing elements one by one appends them in order.
pub proof fn lemma_pushed_each<T>(s: Seq<T>, xs: Seq<T>)
    ensures
        pushed_each(s, xs) == s + xs,
    decreases xs.len(),
{
    if xs.len() > 0 {
        lemma_pushed_each(s, xs.drop_last());
        assert(s + xs =~= (s + xs.drop_last()).push(xs.last()));
    } else {
        assert(s + xs =~= s);
    }
}

/// Popping until empty returns the elements back to front.
pub proof fn lemma_popped_until_empty<T>(s: Seq<T>)
    ensures
        popped_until_empty(s) == s.reverse(),
    decreases s.len(),
{
    if s.len() > 0 {
        lemma_popped_until_empty(s.drop_last());
        assert(popped_until_empty(s) =~= s.reverse());
    }
}

/// Pushing `xs` onto an empty container and then popping until it is empty
/// gives back `xs` in reverse order, and as many values as were pushed.
pub proof fn lemma_pops_reverse_pushes<T>(xs: Seq<T>)
    ensures
        popped_until_empty(pushed_each(Seq::empty(), xs)) == xs.reverse(),
        popped_until_empty(pushed_each(Seq::empty(), xs)).len() == xs.len(),
{
    lemma_pushed_each(Seq::empty(), xs);
    assert(Seq::<T>::empty() + xs =~= xs);
    lemma_popped_until_empty(xs);
}

} // verus!
