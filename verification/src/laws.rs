//! Laws relating sequences of container operations, stated over the
//! mathematical model (`Seq`) that the operations' contracts use.

use vstd::prelude::*;

verus! {

/// The view reached by appending the elements of `items`, in order, each
/// with `push_back`, starting from the empty list. `push_back` ensures
/// `final(self)@ == old(self)@.push(item)`, so this spec function mirrors a
/// run of `push_back` calls exactly.
pub open spec fn view_after_push_back_all<T>(items: Seq<T>) -> Seq<T>
    decreases items.len(),
{
    if items.len() == 0 {
        Seq::empty()
    } else {
        view_after_push_back_all(items.drop_last()).push(items.last())
    }
}

/// Round trip: pushing `n` elements with `push_back` and then reading the
/// indices `0..n` back returns them in push order (`get` returns
/// `self@[i]`).
pub proof fn lemma_push_back_round_trip<T>(items: Seq<T>)
    ensures
        view_after_push_back_all(items) == items,
    decreases items.len(),
{
    if items.len() == 0 {
        assert(view_after_push_back_all(items) =~= items);
    } else {
        lemma_push_back_round_trip(items.drop_last());
        assert(view_after_push_back_all(items) =~= items);
    }
}

/// The view reached by prepending the elements of `items`, in order, each
/// with `push_front`, starting from the empty list. `push_front` ensures
/// `final(self)@ == seq![item] + old(self)@`.
pub open spec fn view_after_push_front_all<T>(items: Seq<T>) -> Seq<T>
    decreases items.len(),
{
    if items.len() == 0 {
        Seq::empty()
    } else {
        seq![items.last()] + view_after_push_front_all(items.drop_last())
    }
}

/// Round trip: pushing `n` elements with `push_front` and then reading the
/// indices `0..n` back returns them in reverse push order.
pub proof fn lemma_push_front_round_trip<T>(items: Seq<T>)
    ensures
        view_after_push_front_all(items) == items.reverse(),
    decreases items.len(),
{
    if items.len() == 0 {
        assert(view_after_push_front_all(items) =~= items.reverse());
    } else {
        lemma_push_front_round_trip(items.drop_last());
        assert(view_after_push_front_all(items) =~= items.reverse());
    }
}

/// Structural idempotence: appending an element with `push_back` and then
/// removing it again with `delete` at the last position restores the
/// logical contents. (The arena does not shrink back: `delete` recycles the
/// slot, so `spec_true_len` keeps any growth — see the two contracts.)
pub proof fn lemma_push_back_then_delete_last<T>(v: Seq<T>, x: T)
    ensures
        v.push(x).remove(v.len() as int) == v,
{
    assert(v.push(x).remove(v.len() as int) =~= v);
}

} // verus!
