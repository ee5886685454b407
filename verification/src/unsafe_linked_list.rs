//! Node-graph engine, manual-ownership strategy.
//!
//! Nodes live in an arena: a slot table owned by the list alone, with
//! relations stored as optional slot indices.  A removal clears the
//! removed node's slot and every neighbouring relation that pointed at
//! it in the same step, and the slot index goes onto a free list for
//! reuse by a later insertion.  The list is therefore the sole
//! authority over node lifetime: a node is live exactly while its slot
//! is occupied, and no occupied slot can reference a freed one.

use vstd::prelude::*;

verus! {

use vstd::pervasive::unreached;

struct Node<T> {
    data: T,
    prev: Option<usize>,
    next: Option<usize>,
}

/// Doubly-linked list whose nodes are owned directly by the list's
/// slot table.  `head` names the head-side terminal (index 0 of the
/// view), `tail` the tail-side terminal (the last view index).
pub struct UnsafeLinkedList<T> {
    slots: Vec<Option<Node<T>>>,
    free_list: Vec<usize>,
    head: Option<usize>,
    tail: Option<usize>,
    len: usize,
    order: Ghost<Seq<usize>>,
}

impl<T> UnsafeLinkedList<T> {
    /// The node standing at position `k` of the list order.
    spec fn node_at(&self, k: int) -> Node<T> {
        self.slots@[self.order@[k] as int].unwrap()
    }

    /// Position `k` of the list order names an occupied slot whose
    /// relations point at its neighbours in the order (link symmetry).
    spec fn wf_node(&self, k: int) -> bool {
        let o = self.order@;
        let i = o[k] as int;
        &&& i < self.slots@.len()
        &&& self.slots@[i] is Some
        &&& self.node_at(k).prev == (if k == 0 {
            None::<usize>
        } else {
            Some(o[k - 1])
        })
        &&& self.node_at(k).next == (if k == o.len() - 1 {
            None::<usize>
        } else {
            Some(o[k + 1])
        })
    }

    /// Every free-list entry names a vacant slot, and no slot is named
    /// twice, so a reused slot can never alias a live node.
    spec fn wf_free(&self) -> bool {
        &&& forall|j: int|
            0 <= j < self.free_list@.len() ==> (#[trigger] self.free_list@[j]) < self.slots@.len()
                && self.slots@[self.free_list@[j] as int] is None
        &&& forall|j1: int, j2: int|
            0 <= j1 < j2 < self.free_list@.len() ==> self.free_list@[j1] != self.free_list@[j2]
    }

    /// Structural invariant: the stored count equals the number of
    /// nodes, the order names distinct occupied slots linked
    /// symmetrically, both terminal references agree with the order,
    /// and the free list is sound.
    pub closed spec fn wf(&self) -> bool {
        let o = self.order@;
        &&& self.len == o.len()
        &&& forall|k: int|
            #![trigger self.wf_node(k)]
            #![trigger self.order@[k]]
            0 <= k < o.len() ==> self.wf_node(k)
        &&& forall|k1: int, k2: int| 0 <= k1 < k2 < o.len() ==> o[k1] != o[k2]
        &&& self.head == (if o.len() == 0 {
            None::<usize>
        } else {
            Some(o[0])
        })
        &&& self.tail == (if o.len() == 0 {
            None::<usize>
        } else {
            Some(o[o.len() - 1])
        })
        &&& self.wf_free()
    }
}

impl<T> View for UnsafeLinkedList<T> {
    type V = Seq<T>;

    /// The values of the list from the head-side terminal to the
    /// tail-side terminal.
    closed spec fn view(&self) -> Seq<T> {
        Seq::new(self.order@.len(), |k: int| self.node_at(k).data)
    }
}

impl<T> UnsafeLinkedList<T> {
    /// An empty list.
    pub fn new() -> (r: Self)
        ensures
            r.wf(),
            r@ == Seq::<T>::empty(),
    {
        let r = UnsafeLinkedList {
            slots: Vec::new(),
            free_list: Vec::new(),
            head: None,
            tail: None,
            len: 0,
            order: Ghost(Seq::empty()),
        };
        proof {
            assert(r@ =~= Seq::<T>::empty());
        }
        r
    }

    /// The number of nodes in the list.
    pub fn len(&self) -> (r: usize)
        requires
            self.wf(),
        ensures
            r == self@.len(),
    {
        self.len
    }

    /// Whether the list holds no nodes.
    pub fn is_empty(&self) -> (r: bool)
        requires
            self.wf(),
        ensures
            r == (self@.len() == 0),
    {
        self.len == 0
    }

    /// Stores `node` in a vacant slot, reusing a freed one when
    /// available.  Only the chosen slot changes; every other slot and
    /// the rest of the list are left alone.
    fn alloc_slot(&mut self, node: Node<T>) -> (idx: usize)
        requires
            old(self).wf_free(),
        ensures
            final(self).wf_free(),
            idx < final(self).slots@.len(),
            final(self).slots@[idx as int] == Some(node),
            old(self).slots@.len() <= final(self).slots@.len(),
            idx < old(self).slots@.len() ==> old(self).slots@[idx as int] is None,
            forall|i: int|
                0 <= i < old(self).slots@.len() && i != idx ==> final(self).slots@[i] == old(
                    self,
                ).slots@[i],
            final(self).head == old(self).head,
            final(self).tail == old(self).tail,
            final(self).len == old(self).len,
            final(self).order == old(self).order,
    {
        match self.free_list.pop() {
            Some(f) => {
                proof {
                    assert(old(self).free_list@[old(self).free_list@.len() - 1] == f);
                }
                self.slots[f] = Some(node);
                f
            },
            None => {
                let idx = self.slots.len();
                self.slots.push(Some(node));
                idx
            },
        }
    }

    /// Appends `value` as the new tail-side terminal: the view gains
    /// `value` at its end.  The node goes into a reused vacant slot if
    /// one is available, otherwise into a fresh one.
    pub fn push_front(&mut self, value: T)
        requires
            old(self).wf(),
            old(self)@.len() < usize::MAX,
        ensures
            final(self).wf(),
            final(self)@ == old(self)@.push(value),
    {
        let ghost o = self.order@;
        let node = Node { data: value, prev: self.tail, next: None };
        let idx: usize = self.alloc_slot(node);
        proof {
            // The chosen slot was vacant (or fresh), so it is not the
            // slot of any live node.
            assert forall|k: int| 0 <= k < o.len() implies o[k] != idx by {
                assert(old(self).wf_node(k));
            }
        }
        match self.tail {
            Some(t) => {
                proof {
                    assert(old(self).wf_node(o.len() - 1));
                }
                let mut tail_node = match self.slots[t].take() {
                    Some(nd) => nd,
                    None => unreached(),
                };
                tail_node.next = Some(idx);
                self.slots[t] = Some(tail_node);
            },
            None => {
                self.head = Some(idx);
            },
        }
        self.tail = Some(idx);
        self.len = self.len + 1;
        self.order = Ghost(o.push(idx));
        proof {
            assert forall|k: int| 0 <= k < self.order@.len() implies #[trigger] self.wf_node(k) by {
                if k < o.len() {
                    assert(old(self).wf_node(k));
                }
                if o.len() > 0 {
                    assert(old(self).wf_node(o.len() - 1));
                }
            }
            assert forall|k1: int, k2: int|
                0 <= k1 < k2 < self.order@.len() implies self.order@[k1] != self.order@[k2] by {
                assert(old(self).wf_node(k1));
            }
            assert forall|k: int| 0 <= k < self.order@.len() implies self@[k] == old(self)@.push(
                value,
            )[k] by {
                if k < o.len() {
                    assert(old(self).wf_node(k));
                }
                if o.len() > 0 {
                    assert(old(self).wf_node(o.len() - 1));
                }
            }
            assert(self@ =~= old(self)@.push(value));
        }
    }

    /// Appends `value` as the new head-side terminal: the view gains
    /// `value` at its start.
    pub fn push_back(&mut self, value: T)
        requires
            old(self).wf(),
            old(self)@.len() < usize::MAX,
        ensures
            final(self).wf(),
            final(self)@ == seq![value] + old(self)@,
    {
        let ghost o = self.order@;
        let node = Node { data: value, prev: None, next: self.head };
        let idx: usize = self.alloc_slot(node);
        proof {
            assert forall|k: int| 0 <= k < o.len() implies o[k] != idx by {
                assert(old(self).wf_node(k));
            }
        }
        match self.head {
            Some(h) => {
                proof {
                    assert(old(self).wf_node(0));
                }
                let mut head_node = match self.slots[h].take() {
                    Some(nd) => nd,
                    None => unreached(),
                };
                head_node.prev = Some(idx);
                self.slots[h] = Some(head_node);
            },
            None => {
                self.tail = Some(idx);
            },
        }
        self.head = Some(idx);
        self.len = self.len + 1;
        self.order = Ghost(seq![idx] + o);
        proof {
            assert forall|k: int| 0 <= k < self.order@.len() implies #[trigger] self.wf_node(k) by {
                if 0 < k {
                    assert(old(self).wf_node(k - 1));
                }
                if o.len() > 0 {
                    assert(old(self).wf_node(0));
                }
            }
            assert forall|k1: int, k2: int|
                0 <= k1 < k2 < self.order@.len() implies self.order@[k1] != self.order@[k2] by {
                if 0 < k1 {
                    assert(old(self).wf_node(k1 - 1));
                }
                if 0 < k2 {
                    assert(old(self).wf_node(k2 - 1));
                }
            }
            assert forall|k: int| 0 <= k < self.order@.len() implies self@[k] == (seq![value]
                + old(self)@)[k] by {
                if 0 < k {
                    assert(old(self).wf_node(k - 1));
                }
                if o.len() > 0 {
                    assert(old(self).wf_node(0));
                }
            }
            assert(self@ =~= seq![value] + old(self)@);
        }
    }

    /// Removes the tail-side terminal and returns its value, or
    /// `None` if the list is empty (which changes nothing).  The new
    /// terminal's forward relation and the freed slot are cleared in
    /// the same step.
    pub fn pop_front(&mut self) -> (r: Option<T>)
        requires
            old(self).wf(),
        ensures
            final(self).wf(),
            old(self)@.len() == 0 ==> r is None && final(self)@ == old(self)@,
            old(self)@.len() > 0 ==> r == Some(old(self)@.last()) && final(self)@ == old(
                self,
            )@.drop_last(),
    {
        let ghost o = self.order@;
        let t: usize = match self.tail {
            Some(t) => t,
            None => {
                return None;
            },
        };
        proof {
            assert(old(self).wf_node(o.len() - 1));
        }
        let node = match self.slots[t].take() {
            Some(nd) => nd,
            None => unreached(),
        };
        self.free_list.push(t);
        self.len = self.len - 1;
        match node.prev {
            Some(p) => {
                proof {
                    assert(old(self).wf_node(o.len() - 2));
                }
                let mut prev_node = match self.slots[p].take() {
                    Some(nd) => nd,
                    None => unreached(),
                };
                prev_node.next = None;
                self.slots[p] = Some(prev_node);
                self.tail = Some(p);
            },
            None => {
                self.tail = None;
                self.head = None;
            },
        }
        self.order = Ghost(o.drop_last());
        proof {
            assert forall|k: int| 0 <= k < self.order@.len() implies #[trigger] self.wf_node(k) by {
                assert(old(self).wf_node(k));
                assert(old(self).wf_node(o.len() - 1));
                if o.len() >= 2 {
                    assert(old(self).wf_node(o.len() - 2));
                }
            }
            assert forall|j: int|
                0 <= j < self.free_list@.len() implies (#[trigger] self.free_list@[j])
                    < self.slots@.len() && self.slots@[self.free_list@[j] as int] is None by {
                if j < o.len() - 1 {
                }
            }
            assert forall|k: int| 0 <= k < self.order@.len() implies self@[k] == old(
                self,
            )@.drop_last()[k] by {
                assert(old(self).wf_node(k));
                assert(old(self).wf_node(o.len() - 1));
                if o.len() >= 2 {
                    assert(old(self).wf_node(o.len() - 2));
                }
            }
            assert(self@ =~= old(self)@.drop_last());
        }
        Some(node.data)
    }

    /// Removes the head-side terminal and returns its value, or
    /// `None` if the list is empty (which changes nothing).  The new
    /// terminal's backward relation and the freed slot are cleared in
    /// the same step.
    pub fn pop_back(&mut self) -> (r: Option<T>)
        requires
            old(self).wf(),
        ensures
            final(self).wf(),
            old(self)@.len() == 0 ==> r is None && final(self)@ == old(self)@,
            old(self)@.len() > 0 ==> r == Some(old(self)@.first()) && final(self)@ == old(
                self,
            )@.drop_first(),
    {
        let ghost o = self.order@;
        let h: usize = match self.head {
            Some(h) => h,
            None => {
                return None;
            },
        };
        proof {
            assert(old(self).wf_node(0));
        }
        let node = match self.slots[h].take() {
            Some(nd) => nd,
            None => unreached(),
        };
        self.free_list.push(h);
        self.len = self.len - 1;
        match node.next {
            Some(nx) => {
                proof {
                    assert(old(self).wf_node(1));
                }
                let mut next_node = match self.slots[nx].take() {
                    Some(nd) => nd,
                    None => unreached(),
                };
                next_node.prev = None;
                self.slots[nx] = Some(next_node);
                self.head = Some(nx);
            },
            None => {
                self.head = None;
                self.tail = None;
            },
        }
        self.order = Ghost(o.drop_first());
        proof {
            assert forall|k: int| 0 <= k < self.order@.len() implies #[trigger] self.wf_node(k) by {
                assert(old(self).wf_node(k + 1));
                assert(old(self).wf_node(0));
                if o.len() >= 2 {
                    assert(old(self).wf_node(1));
                }
            }
            assert forall|j: int|
                0 <= j < self.free_list@.len() implies (#[trigger] self.free_list@[j])
                    < self.slots@.len() && self.slots@[self.free_list@[j] as int] is None by {
                if j < o.len() - 1 {
                }
            }
            assert forall|k: int| 0 <= k < self.order@.len() implies self@[k] == old(
                self,
            )@.drop_first()[k] by {
                assert(old(self).wf_node(k + 1));
                assert(old(self).wf_node(0));
                if o.len() >= 2 {
                    assert(old(self).wf_node(1));
                }
            }
            assert(self@ =~= old(self)@.drop_first());
        }
        Some(node.data)
    }

    /// Read-only access to the tail-side terminal's value, or `None`
    /// if the list is empty.
    pub fn front(&self) -> (r: Option<&T>)
        requires
            self.wf(),
        ensures
            self@.len() == 0 ==> r is None,
            self@.len() > 0 ==> r is Some && *r.unwrap() == self@.last(),
    {
        match self.tail {
            Some(t) => {
                proof {
                    assert(self.wf_node(self.order@.len() - 1));
                }
                match &self.slots[t] {
                    Some(nd) => Some(&nd.data),
                    None => unreached(),
                }
            },
            None => None,
        }
    }

    /// Read-only access to the head-side terminal's value, or `None`
    /// if the list is empty.
    pub fn back(&self) -> (r: Option<&T>)
        requires
            self.wf(),
        ensures
            self@.len() == 0 ==> r is None,
            self@.len() > 0 ==> r is Some && *r.unwrap() == self@.first(),
    {
        match self.head {
            Some(h) => {
                proof {
                    assert(self.wf_node(0));
                }
                match &self.slots[h] {
                    Some(nd) => Some(&nd.data),
                    None => unreached(),
                }
            },
            None => None,
        }
    }

    /// Exclusive access to the tail-side terminal's value, or `None`
    /// if the list is empty.  Only that value can change through the
    /// returned reference.
    pub fn front_mut(&mut self) -> (r: Option<&mut T>)
        requires
            old(self).wf(),
        ensures
            final(self).wf(),
            old(self)@.len() == 0 ==> r is None && final(self)@ == old(self)@,
            old(self)@.len() > 0 ==> r is Some && *r.unwrap() == old(self)@.last()
                && final(self)@ =~= old(self)@.update(old(self)@.len() - 1, *final(r.unwrap())),
    {
        let t: usize = match self.tail {
            Some(t) => t,
            None => {
                return None;
            },
        };
        proof {
            assert(old(self).wf_node(old(self).order@.len() - 1));
        }
        match &mut self.slots[t] {
            Some(nd) => Some(&mut nd.data),
            None => unreached(),
        }
    }

    /// Exclusive access to the head-side terminal's value, or `None`
    /// if the list is empty.  Only that value can change through the
    /// returned reference.
    pub fn back_mut(&mut self) -> (r: Option<&mut T>)
        requires
            old(self).wf(),
        ensures
            final(self).wf(),
            old(self)@.len() == 0 ==> r is None && final(self)@ == old(self)@,
            old(self)@.len() > 0 ==> r is Some && *r.unwrap() == old(self)@.first()
                && final(self)@ =~= old(self)@.update(0, *final(r.unwrap())),
    {
        let h: usize = match self.head {
            Some(h) => h,
            None => {
                return None;
            },
        };
        proof {
            assert(old(self).wf_node(0));
        }
        match &mut self.slots[h] {
            Some(nd) => Some(&mut nd.data),
            None => unreached(),
        }
    }

    /// Removes and destroys all nodes, returning the list to the
    /// empty state.
    pub fn clear(&mut self)
        requires
            old(self).wf(),
        ensures
            final(self).wf(),
            final(self)@ == Seq::<T>::empty(),
    {
        *self = UnsafeLinkedList::new();
    }
}

impl<T: Copy> UnsafeLinkedList<T> {
    /// The value at position `index`, counting from the head-side
    /// terminal, or `None` if the index is out of range.  Traverses
    /// from whichever terminal is closer, so at most half the nodes
    /// are visited.
    pub fn nth(&self, index: usize) -> (r: Option<T>)
        requires
            self.wf(),
        ensures
            index < self@.len() ==> r == Some(self@[index as int]),
            index >= self@.len() ==> r is None,
    {
        if index >= self.len {
            return None;
        }
        if index < self.len / 2 {
            let mut k: usize = 0;
            let mut cur: usize = match self.head {
                Some(h) => h,
                None => unreached(),
            };
            while k < index
                invariant
                    self.wf(),
                    k <= index < self@.len(),
                    cur == self.order@[k as int],
                decreases index - k,
            {
                proof {
                    assert(self.wf_node(k as int));
                }
                let nd = match &self.slots[cur] {
                    Some(nd) => nd,
                    None => unreached(),
                };
                cur = match nd.next {
                    Some(nx) => nx,
                    None => unreached(),
                };
                k = k + 1;
            }
            proof {
                assert(self.wf_node(k as int));
            }
            match &self.slots[cur] {
                Some(nd) => Some(nd.data),
                None => unreached(),
            }
        } else {
            let mut k: usize = self.len - 1;
            let mut cur: usize = match self.tail {
                Some(t) => t,
                None => unreached(),
            };
            while k > index
                invariant
                    self.wf(),
                    index <= k < self@.len(),
                    cur == self.order@[k as int],
                decreases k,
            {
                proof {
                    assert(self.wf_node(k as int));
                }
                let nd = match &self.slots[cur] {
                    Some(nd) => nd,
                    None => unreached(),
                };
                cur = match nd.prev {
                    Some(p) => p,
                    None => unreached(),
                };
                k = k - 1;
            }
            proof {
                assert(self.wf_node(k as int));
            }
            match &self.slots[cur] {
                Some(nd) => Some(nd.data),
                None => unreached(),
            }
        }
    }
}

/// Consuming iteration over an `UnsafeLinkedList`: a destructive
/// drain that removes the head-side terminal at every step, so
/// running it to completion empties the list.
pub struct Iter<T> {
    list: UnsafeLinkedList<T>,
}

impl<T> Iter<T> {
    /// Structural invariant of the drained list.
    pub closed spec fn wf(&self) -> bool {
        self.list.wf()
    }
}

impl<T> View for Iter<T> {
    type V = Seq<T>;

    /// The values not yet drained, head-side terminal first.
    closed spec fn view(&self) -> Seq<T> {
        self.list@
    }
}

impl<T> UnsafeLinkedList<T> {
    /// Turns the list into a destructive drain of its values.
    pub fn into_iter(self) -> (r: Iter<T>)
        requires
            self.wf(),
        ensures
            r.wf(),
            r@ == self@,
    {
        Iter { list: self }
    }
}

impl<T> Iter<T> {
    /// Removes and returns the next value (the current head-side
    /// terminal), or `None` once the drained list is empty.
    pub fn next(&mut self) -> (r: Option<T>)
        requires
            old(self).wf(),
        ensures
            final(self).wf(),
            old(self)@.len() == 0 ==> r is None && final(self)@ == old(self)@,
            old(self)@.len() > 0 ==> r == Some(old(self)@.first()) && final(self)@ == old(
                self,
            )@.drop_first(),
    {
        self.list.pop_back()
    }
}

} // verus!
