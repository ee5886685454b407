//! Doubly-linked list abstract data type, implemented twice under two
//! different ownership disciplines, plus a small sequence constructor.
//!
//! Both engines keep their nodes in an arena: a growable slot table in
//! which relations between nodes are optional slot indices rather than
//! addresses.  Every operation is specified against the list's abstract
//! sequence of values, ordered from the head-side terminal to the
//! tail-side terminal (the order a rendering of the list shows).
//!
//! Naming note: in this crate `push_front` appends at the tail-side
//! terminal of the rendered order and `pop_front` removes it, while
//! `push_back` and `pop_back` work at the head-side terminal.  The
//! contracts state exactly which end each operation touches.

use vstd::prelude::*;

pub mod builder;
pub mod render;
pub mod safe_linked_list;
pub mod unsafe_linked_list;

verus! {

/// Round-trip law at the tail-side terminal: for any prior list view
/// `s` and any value `x`, inserting at that end and immediately
/// removing from it yields `x` back and restores `s`.  `push_front`
/// ensures the view becomes `s.push(x)`, and `pop_front` on a
/// non-empty list returns the last view element and leaves
/// `drop_last`, so this lemma closes the loop.
pub proof fn lemma_push_front_pop_front_round_trip<T>(s: Seq<T>, x: T)
    ensures
        s.push(x).len() == s.len() + 1,
        s.push(x).last() == x,
        s.push(x).drop_last() == s,
{
    assert(s.push(x).drop_last() =~= s);
}

/// Round-trip law at the head-side terminal: for any prior list view
/// `s` and any value `x`, inserting at that end and immediately
/// removing from it yields `x` back and restores `s`.  `push_back`
/// ensures the view becomes `seq![x] + s`, and `pop_back` on a
/// non-empty list returns the first view element and leaves
/// `drop_first`, so this lemma closes the loop.
pub proof fn lemma_push_back_pop_back_round_trip<T>(s: Seq<T>, x: T)
    ensures
        (seq![x] + s).len() == s.len() + 1,
        (seq![x] + s).first() == x,
        (seq![x] + s).drop_first() == s,
{
    assert((seq![x] + s).drop_first() =~= s);
}

/// One end-insertion or end-removal, named after the engine method it
/// stands for.  `apply_op` gives each operation the exact effect on
/// the abstract sequence that the engines' contracts ensure, so a
/// statement about `apply_ops` is a statement about any run of calls
/// against either engine.
pub enum ListOp<T> {
    PushFront(T),
    PushBack(T),
    PopFront,
    PopBack,
}

/// The view after one operation: insertions extend the matching end,
/// removals shorten it, and a removal from an empty list changes
/// nothing.
pub open spec fn apply_op<T>(s: Seq<T>, op: ListOp<T>) -> Seq<T> {
    match op {
        ListOp::PushFront(x) => s.push(x),
        ListOp::PushBack(x) => seq![x] + s,
        ListOp::PopFront => if s.len() == 0 {
            s
        } else {
            s.drop_last()
        },
        ListOp::PopBack => if s.len() == 0 {
            s
        } else {
            s.drop_first()
        },
    }
}

/// The view after a whole sequence of operations, applied in order.
pub open spec fn apply_ops<T>(s: Seq<T>, ops: Seq<ListOp<T>>) -> Seq<T>
    decreases ops.len(),
{
    if ops.len() == 0 {
        s
    } else {
        apply_ops(apply_op(s, ops[0]), ops.drop_first())
    }
}

/// Whether the operation is an insertion.  Insertions always succeed.
pub open spec fn is_insertion<T>(op: ListOp<T>) -> bool {
    match op {
        ListOp::PushFront(_) => true,
        ListOp::PushBack(_) => true,
        ListOp::PopFront => false,
        ListOp::PopBack => false,
    }
}

/// The number of insertions among `ops`.
pub open spec fn insertion_count<T>(ops: Seq<ListOp<T>>) -> int
    decreases ops.len(),
{
    if ops.len() == 0 {
        0
    } else {
        (if is_insertion(ops[0]) {
            1int
        } else {
            0int
        }) + insertion_count(ops.drop_first())
    }
}

/// The number of removals among `ops` that succeed (find a non-empty
/// list) when the operations run in order from the starting view `s`.
pub open spec fn successful_removal_count<T>(s: Seq<T>, ops: Seq<ListOp<T>>) -> int
    decreases ops.len(),
{
    if ops.len() == 0 {
        0
    } else {
        (if !is_insertion(ops[0]) && s.len() > 0 {
            1int
        } else {
            0int
        }) + successful_removal_count(apply_op(s, ops[0]), ops.drop_first())
    }
}

/// Length law: after any sequence of insertions and removals, the
/// list's length equals its starting length plus the number of
/// insertions, minus the number of removals that succeeded.
pub proof fn lemma_length_counts_operations<T>(s: Seq<T>, ops: Seq<ListOp<T>>)
    ensures
        apply_ops(s, ops).len() == s.len() + insertion_count(ops) - successful_removal_count(
            s,
            ops,
        ),
    decreases ops.len(),
{
    if ops.len() > 0 {
        lemma_length_counts_operations(apply_op(s, ops[0]), ops.drop_first());
    }
}

} // verus!
