//! Sequence constructor: builds a list purely by repeated calls to
//! the engine's `push_front` insertion primitive, from an explicit
//! sequence of values or from a single value repeated.
//!
//! Because `push_front` appends at the tail-side terminal, a list
//! built from a value sequence has that same sequence as its view,
//! and draining it with `pop_front` (tail-side first) yields the
//! values in reverse, while draining with `pop_back` yields them in
//! the original order.

use vstd::prelude::*;

verus! {

use crate::unsafe_linked_list::UnsafeLinkedList;

/// A list holding the given values: the view equals `values`.
pub fn from_values<T>(values: Vec<T>) -> (r: UnsafeLinkedList<T>)
    ensures
        r.wf(),
        r@ == values@,
{
    let ghost all = values@;
    let mut rest = values;
    proof {
        vstd::std_specs::vec::axiom_spec_len(&rest);
    }
    let mut list = UnsafeLinkedList::new();
    while rest.len() > 0
        invariant
            list.wf(),
            list@ + rest@ == all,
            all.len() <= usize::MAX,
        decreases rest@.len(),
    {
        let x = rest.remove(0);
        list.push_front(x);
        proof {
            assert(list@ + rest@ =~= all);
        }
    }
    proof {
        assert(list@ =~= all);
    }
    list
}

/// A list holding `value` repeated `count` times.
pub fn repeated<T: Copy>(value: T, count: usize) -> (r: UnsafeLinkedList<T>)
    ensures
        r.wf(),
        r@ == Seq::new(count as nat, |i: int| value),
{
    let mut list = UnsafeLinkedList::new();
    let mut i: usize = 0;
    proof {
        assert(list@ =~= Seq::new(0, |j: int| value));
    }
    while i < count
        invariant
            list.wf(),
            i <= count,
            list@ == Seq::new(i as nat, |j: int| value),
        decreases count - i,
    {
        list.push_front(value);
        proof {
            assert(list@ =~= Seq::new((i + 1) as nat, |j: int| value));
        }
        i = i + 1;
    }
    list
}

} // verus!
