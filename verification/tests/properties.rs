use std::collections::VecDeque;

use linked_lists::builder::from_values;
use linked_lists::builder::repeated;
use linked_lists::safe_linked_list::SafeLinkedList;
use linked_lists::unsafe_linked_list::UnsafeLinkedList;

#[test]
fn push_then_pop_restores_prior_state() {
    let mut list = from_values(vec![3u64, 1, 4]);
    let before = list.render();

    list.push_front(9);
    assert_eq!(list.pop_front(), Some(9));
    assert_eq!(list.render(), before);

    list.push_back(9);
    assert_eq!(list.pop_back(), Some(9));
    assert_eq!(list.render(), before);
}

#[test]
fn push_then_pop_restores_prior_state_safe() {
    let mut list = SafeLinkedList::new();
    list.push_front(3u64);
    list.push_front(1);
    let before = list.render();

    list.push_front(9);
    assert_eq!(list.pop_front(), Some(9));
    assert_eq!(list.render(), before);

    list.push_back(9);
    assert_eq!(list.pop_back(), Some(9));
    assert_eq!(list.render(), before);
}

#[test]
fn single_node_removal_succeeds_safe() {
    let mut list = SafeLinkedList::new();
    list.push_front(42);

    assert_eq!(list.len(), 1);
    assert_eq!(list.pop_front(), Some(42));
    assert_eq!(list.len(), 0);
    assert_eq!(list.pop_front(), None);

    list.push_back(7);
    assert_eq!(list.pop_back(), Some(7));
    assert_eq!(list.pop_back(), None);
    assert_eq!(list.len(), 0);
}

#[test]
fn pop_on_empty_returns_absent_and_keeps_length() {
    let mut list: UnsafeLinkedList<i32> = UnsafeLinkedList::new();
    assert_eq!(list.pop_front(), None);
    assert_eq!(list.pop_back(), None);
    assert_eq!(list.len(), 0);

    let mut safe: SafeLinkedList<i32> = SafeLinkedList::new();
    assert_eq!(safe.pop_front(), None);
    assert_eq!(safe.pop_back(), None);
    assert_eq!(safe.len(), 0);
}

#[test]
fn empty_list_renders_brackets() {
    let unsafe_list: UnsafeLinkedList<u64> = UnsafeLinkedList::new();
    assert_eq!(unsafe_list.render(), "[]");

    let safe_list: SafeLinkedList<u64> = SafeLinkedList::new();
    assert_eq!(safe_list.render(), "[]");
}

#[test]
fn render_multi_digit_values() {
    let list = from_values(vec![10u64, 200, 3, 0]);
    assert_eq!(list.render(), "[10, 200, 3, 0]");
}

#[test]
fn from_values_drains_reversed_at_front_and_in_order_at_back() {
    let mut front_drain = from_values(vec![0, 1, 2]);
    assert_eq!(front_drain.pop_front(), Some(2));
    assert_eq!(front_drain.pop_front(), Some(1));
    assert_eq!(front_drain.pop_front(), Some(0));
    assert_eq!(front_drain.pop_front(), None);

    let mut back_drain = from_values(vec![0, 1, 2]);
    assert_eq!(back_drain.pop_back(), Some(0));
    assert_eq!(back_drain.pop_back(), Some(1));
    assert_eq!(back_drain.pop_back(), Some(2));
    assert_eq!(back_drain.pop_back(), None);
}

#[test]
fn nth_matches_head_order_and_rejects_out_of_range() {
    let list = from_values(vec![5, 6, 7, 8]);

    assert_eq!(list.nth(0), Some(5));
    assert_eq!(list.nth(1), Some(6));
    assert_eq!(list.nth(2), Some(7));
    assert_eq!(list.nth(3), Some(8));
    assert_eq!(list.nth(4), None);

    let empty: UnsafeLinkedList<i32> = UnsafeLinkedList::new();
    assert_eq!(empty.nth(0), None);
}

#[test]
fn length_tracks_insertions_minus_removals() {
    let mut list = UnsafeLinkedList::new();
    let mut expected: usize = 0;

    for i in 0..6 {
        if i % 2 == 0 {
            list.push_front(i);
        } else {
            list.push_back(i);
        }
        expected += 1;
        assert_eq!(list.len(), expected);
    }
    for i in 0..3 {
        if i % 2 == 0 {
            list.pop_front();
        } else {
            list.pop_back();
        }
        expected -= 1;
        assert_eq!(list.len(), expected);
    }
    assert_eq!(list.pop_back(), Some(3));
    assert_eq!(list.len(), 2);
}

#[test]
fn repeated_values_sum() {
    let list = repeated(10u64, 100);
    assert_eq!(list.len(), 100);

    let mut it = list.into_iter();
    let mut sum: u64 = 0;
    let mut count: usize = 0;
    while let Some(x) = it.next() {
        assert_eq!(x, 10);
        sum += x;
        count += 1;
    }
    assert_eq!(sum, 1000);
    assert_eq!(count, 100);
}

#[test]
fn mutable_peek_writes_through() {
    let mut list = from_values(vec![1, 2, 3]);
    if let Some(v) = list.front_mut() {
        *v = 30;
    }
    if let Some(v) = list.back_mut() {
        *v = 10;
    }
    assert_eq!(list.front(), Some(&30));
    assert_eq!(list.back(), Some(&10));
    assert_eq!(list.nth(1), Some(2));

    let mut safe = SafeLinkedList::new();
    safe.push_front(1);
    safe.push_front(2);
    if let Some(v) = safe.peek_front_mut() {
        *v = 20;
    }
    if let Some(v) = safe.peek_back_mut() {
        *v = 11;
    }
    assert_eq!(safe.pop_front(), Some(20));
    assert_eq!(safe.pop_front(), Some(11));
}

// In the reference deque, index 0 is the head-side terminal, so the
// engines' "front" operations (which work at the tail-side terminal)
// map to the deque's back.
fn next_state(state: u64) -> u64 {
    state
        .wrapping_mul(6364136223846793005)
        .wrapping_add(1442695040888963407)
}

#[test]
fn mixed_operations_match_reference_model() {
    let mut list = UnsafeLinkedList::new();
    let mut model: VecDeque<u64> = VecDeque::new();
    let mut state: u64 = 0x853c49e6748fea9b;

    for step in 0..500u64 {
        state = next_state(state);
        match (state >> 33) % 6 {
            0 => {
                list.push_front(step);
                model.push_back(step);
            }
            1 => {
                list.push_back(step);
                model.push_front(step);
            }
            2 => assert_eq!(list.pop_front(), model.pop_back()),
            3 => assert_eq!(list.pop_back(), model.pop_front()),
            4 => {
                let i = ((state >> 10) as usize) % (model.len() + 1);
                assert_eq!(list.nth(i), model.get(i).copied());
            }
            _ => {
                assert_eq!(list.front(), model.back());
                assert_eq!(list.back(), model.front());
                assert_eq!(list.len(), model.len());
                assert_eq!(list.is_empty(), model.is_empty());
            }
        }
    }

    assert_eq!(list.len(), model.len());
    while let Some(x) = model.pop_back() {
        assert_eq!(list.pop_front(), Some(x));
    }
    assert_eq!(list.pop_front(), None);
    assert!(list.is_empty());
}

#[test]
fn mixed_operations_match_reference_model_safe() {
    let mut list = SafeLinkedList::new();
    let mut model: VecDeque<u64> = VecDeque::new();
    let mut state: u64 = 0xda3e39cb94b95bdb;

    for step in 0..500u64 {
        state = next_state(state);
        match (state >> 33) % 6 {
            0 => {
                list.push_front(step);
                model.push_back(step);
            }
            1 => {
                list.push_back(step);
                model.push_front(step);
            }
            2 => assert_eq!(list.pop_front(), model.pop_back()),
            3 => assert_eq!(list.pop_back(), model.pop_front()),
            4 => {
                let i = ((state >> 10) as usize) % (model.len() + 1);
                assert_eq!(list.nth(i), model.get(i).copied());
            }
            _ => {
                assert_eq!(list.peek_front(), model.back());
                assert_eq!(list.peek_back(), model.front());
                assert_eq!(list.len(), model.len());
                assert_eq!(list.is_empty(), model.is_empty());
            }
        }
    }

    assert_eq!(list.len(), model.len());
    while let Some(x) = model.pop_front() {
        assert_eq!(list.pop_back(), Some(x));
    }
    assert_eq!(list.pop_back(), None);
    assert!(list.is_empty());
}

#[test]
fn clear_resets_to_empty_state() {
    let mut list = from_values(vec![4u64, 5, 6]);
    list.clear();

    assert!(list.is_empty());
    assert_eq!(list.len(), 0);
    assert_eq!(list.render(), "[]");
    assert_eq!(list.pop_front(), None);

    list.push_front(9);
    assert_eq!(list.len(), 1);
    assert_eq!(list.render(), "[9]");
}

#[test]
fn clear_resets_to_empty_state_safe() {
    let mut list = SafeLinkedList::new();
    list.push_front(4u64);
    list.push_front(5);
    list.clear();

    assert!(list.is_empty());
    assert_eq!(list.len(), 0);
    assert_eq!(list.render(), "[]");
    assert_eq!(list.pop_front(), None);

    list.push_front(9);
    assert_eq!(list.len(), 1);
    assert_eq!(list.render(), "[9]");
}
