use veclist::BoundedList;
use veclist::VecList;

#[test]
fn test() {
    let mut l = VecList::new();
    let a = l.push_back(1);
    let b = l.push_back(2);
    let c = l.push_back(3);
    let a = l.push_front(1);
    let b = l.push_front(2);
    let c = l.push_front(3);
    l.delete(a);
    l.delete(b);
    let c = l.push_back(4);
    let d = l.push_back(5);
    let e = l.push_back(6);
    l.delete(e);
    l.delete(d);

    let mut it = l.iter();
    while let Some(x) = it.next_back() {
        println!("{:?}", x);
    }
    println!("{:?}", l.front());
    println!("{:?}", l.back());
    let mut collected = Vec::new();
    let mut it = l.iter();
    while let Some(x) = it.next() {
        collected.push(*x);
    }
    println!("{:#?}", collected);
    println!("{:?}", collected);
    let _ = (a, b, c, d, e);
}

fn collect_forward(l: &VecList<i32>) -> Vec<i32> {
    let mut out = Vec::new();
    let mut it = l.iter();
    while let Some(x) = it.next() {
        out.push(*x);
    }
    out
}

fn collect_backward(l: &VecList<i32>) -> Vec<i32> {
    let mut out = Vec::new();
    let mut it = l.iter();
    while let Some(x) = it.next_back() {
        out.push(*x);
    }
    out
}

#[test]
fn emptiness_agrees_everywhere() {
    let mut l: VecList<i32> = VecList::new();
    assert_eq!(l.len(), 0);
    assert!(l.is_empty());
    assert!(l.front().is_none());
    assert!(l.back().is_none());
    assert!(l.pop_front().is_none());
    assert!(l.pop_back().is_none());

    let h = l.push_back(7);
    assert_eq!(l.len(), 1);
    assert!(!l.is_empty());
    assert!(l.front().is_some());
    assert!(l.back().is_some());

    l.delete(h);
    assert_eq!(l.len(), 0);
    assert!(l.is_empty());
    assert!(l.front().is_none());
    assert!(l.back().is_none());
}

#[test]
fn fifo_round_trip() {
    let mut l = VecList::new();
    for v in 1..=5 {
        l.push_back(v);
    }
    let mut popped = Vec::new();
    while let Some(v) = l.pop_front() {
        popped.push(v);
    }
    assert_eq!(popped, vec![1, 2, 3, 4, 5]);
    assert!(l.is_empty());
}

#[test]
fn lifo_round_trip() {
    let mut l = VecList::new();
    for v in 1..=5 {
        l.push_back(v);
    }
    let mut popped = Vec::new();
    while let Some(v) = l.pop_back() {
        popped.push(v);
    }
    assert_eq!(popped, vec![5, 4, 3, 2, 1]);
    assert!(l.is_empty());
}

#[test]
fn handle_stability() {
    let mut l = VecList::new();
    let stable = l.push_back(10);
    let doomed = l.push_back(20);
    l.push_front(30);
    l.delete(doomed);
    l.push_back(40);
    l.push_front(50);
    l.pop_back();
    assert_eq!(l.get(stable), Some(&10));
}

#[test]
fn idempotent_delete() {
    let mut l = VecList::new();
    l.push_back(1);
    let h = l.push_back(2);
    l.push_back(3);
    assert_eq!(l.len(), 3);
    assert_eq!(l.delete(h), Some(2));
    assert_eq!(l.len(), 2);
    assert_eq!(l.delete(h), None);
    assert_eq!(l.len(), 2);
    assert_eq!(collect_forward(&l), vec![1, 3]);
}

#[test]
fn slot_reuse_is_lifo() {
    let mut l = VecList::new();
    l.push_back(1);
    let h = l.push_back(2);
    l.push_back(3);
    let cap_before = l.cap();
    l.delete(h);
    let fresh = l.push_back(9);
    assert_eq!(fresh, h);
    assert_eq!(l.cap(), cap_before);
    assert_eq!(collect_forward(&l), vec![1, 3, 9]);
}

#[test]
fn reuse_takes_most_recently_deleted() {
    let mut l = VecList::new();
    let a = l.push_back(1);
    let b = l.push_back(2);
    l.push_back(3);
    l.delete(a);
    l.delete(b);
    assert_eq!(l.push_back(8), b);
    assert_eq!(l.push_back(9), a);
    assert_eq!(collect_forward(&l), vec![3, 8, 9]);
}

#[test]
fn iterator_agreement() {
    let mut l = VecList::new();
    for v in 1..=4 {
        l.push_back(v);
    }
    l.push_front(0);
    let forward = collect_forward(&l);
    let mut backward = collect_backward(&l);
    assert_eq!(forward.len(), l.len());
    assert_eq!(backward.len(), l.len());
    backward.reverse();
    assert_eq!(forward, backward);
}

#[test]
fn iterator_cursors_meet() {
    let mut l = VecList::new();
    l.push_back(1);
    l.push_back(2);
    l.push_back(3);
    let mut it = l.iter();
    assert_eq!(it.next(), Some(&1));
    assert_eq!(it.next_back(), Some(&3));
    assert_eq!(it.next(), Some(&2));
    assert_eq!(it.next(), None);
    assert_eq!(it.next_back(), None);
}

#[test]
fn iter_mut_updates_values() {
    let mut l = VecList::new();
    for v in 1..=3 {
        l.push_back(v);
    }
    let mut it = l.iter_mut();
    while let Some(v) = it.next(&mut l) {
        *v += 10;
    }
    assert_eq!(collect_forward(&l), vec![11, 12, 13]);
}

#[test]
fn iter_mut_backward_and_meet() {
    let mut l = VecList::new();
    l.push_back(1);
    l.push_back(2);
    let mut it = l.iter_mut();
    {
        let v = it.next_back(&mut l).unwrap();
        *v = 20;
    }
    {
        let v = it.next(&mut l).unwrap();
        *v = 10;
    }
    assert!(it.next(&mut l).is_none());
    assert!(it.next_back(&mut l).is_none());
    assert_eq!(collect_forward(&l), vec![10, 20]);
}

#[test]
fn into_iter_consumes_both_ends() {
    let mut l = VecList::new();
    for v in 1..=4 {
        l.push_back(v);
    }
    let mut it = l.into_iter();
    assert_eq!(it.next(), Some(1));
    assert_eq!(it.next_back(), Some(4));
    assert_eq!(it.next(), Some(2));
    assert_eq!(it.next_back(), Some(3));
    assert_eq!(it.next(), None);
    assert_eq!(it.next_back(), None);
}

#[test]
fn neighbour_queries() {
    let mut l = VecList::new();
    let a = l.push_back(1);
    let b = l.push_back(2);
    let c = l.push_back(3);
    assert_eq!(l.next(a), Some(b));
    assert_eq!(l.next(b), Some(c));
    assert_eq!(l.next(c), None);
    assert_eq!(l.previous(a), None);
    assert_eq!(l.previous(b), Some(a));
    assert_eq!(l.previous(c), Some(b));
    assert_eq!(l.next(c + 1), None);
    assert_eq!(l.previous(usize::MAX), None);
    l.delete(b);
    assert_eq!(l.next(a), Some(c));
    assert_eq!(l.previous(c), Some(a));
    assert_eq!(l.next(b), None);
    assert_eq!(l.previous(b), None);
}

#[test]
fn get_rejects_bad_handles() {
    let mut l = VecList::new();
    let h = l.push_back(5);
    assert_eq!(l.get(h + 1), None);
    assert_eq!(l.get(usize::MAX), None);
    l.delete(h);
    assert_eq!(l.get(h), None);
    assert_eq!(l.get_mut(h), None);
}

#[test]
fn get_mut_writes_through() {
    let mut l = VecList::new();
    l.push_back(1);
    let h = l.push_back(2);
    l.push_back(3);
    *l.get_mut(h).unwrap() = 22;
    assert_eq!(l.get(h), Some(&22));
    assert_eq!(collect_forward(&l), vec![1, 22, 3]);
}

#[test]
fn front_back_mut_write_through() {
    let mut l = VecList::new();
    let first = l.push_back(1);
    l.push_back(2);
    let last = l.push_back(3);
    {
        let (v, h) = l.front_mut().unwrap();
        assert_eq!(h, first);
        *v = 100;
    }
    {
        let (v, h) = l.back_mut().unwrap();
        assert_eq!(h, last);
        *v = 300;
    }
    assert_eq!(collect_forward(&l), vec![100, 2, 300]);
    assert_eq!(l.front().unwrap(), (&100, first));
    assert_eq!(l.back().unwrap(), (&300, last));
}

#[test]
fn push_front_orders_and_handles() {
    let mut l = VecList::new();
    let a = l.push_front(1);
    let b = l.push_front(2);
    let c = l.push_front(3);
    assert_eq!((a, b, c), (0, 1, 2));
    assert_eq!(collect_forward(&l), vec![3, 2, 1]);
    assert_eq!(l.front().unwrap(), (&3, c));
    assert_eq!(l.back().unwrap(), (&1, a));
}

#[test]
fn capacity_counts_all_allocated_slots() {
    let mut l = VecList::new();
    assert_eq!(l.cap(), 0);
    let a = l.push_back(1);
    l.push_back(2);
    l.push_back(3);
    assert_eq!(l.cap(), 3);
    l.delete(a);
    assert_eq!(l.len(), 2);
    assert_eq!(l.cap(), 3);
    assert!(l.vec_cap() >= l.cap());
}

#[test]
fn default_is_empty() {
    let mut l: VecList<i32> = Default::default();
    assert!(l.is_empty());
    assert_eq!(l.cap(), 0);
    assert_eq!(l.push_back(1), 0);
    let b: BoundedList<i32> = Default::default();
    assert!(b.is_empty());
}

#[test]
fn with_capacity_starts_empty() {
    let mut l: VecList<u8> = VecList::with_capacity(16);
    assert_eq!(l.len(), 0);
    assert_eq!(l.cap(), 0);
    assert!(l.is_empty());
    assert_eq!(l.push_back(1), 0);
}

#[test]
fn clear_resets_fully() {
    let mut l = VecList::new();
    l.push_back(1);
    l.push_back(2);
    let h = l.push_back(3);
    l.delete(h);
    l.clear();
    assert_eq!(l.len(), 0);
    assert_eq!(l.cap(), 0);
    assert!(l.is_empty());
    let fresh = l.push_back(42);
    assert_eq!(fresh, 0);
    assert_eq!(l.len(), 1);
    assert_eq!(l.cap(), 1);
    assert_eq!(l.front().unwrap(), (&42, fresh));
}

#[test]
fn bounded_eviction_scenario() {
    let mut b = BoundedList::new(2);
    b.add(1);
    b.add(2);
    b.add(3);
    let mut out = Vec::new();
    let mut it = b.iter();
    while let Some(x) = it.next() {
        out.push(*x);
    }
    assert_eq!(out, vec![3, 1]);
}

#[test]
fn bounded_basics() {
    let mut b: BoundedList<i32> = BoundedList::new(3);
    assert!(b.is_empty());
    assert_eq!(b.len(), 0);
    b.add(1);
    b.add(2);
    assert!(!b.is_empty());
    assert_eq!(b.len(), 2);
    b.add(3);
    b.add(4);
    assert_eq!(b.len(), 3);
    let mut out = Vec::new();
    let mut it = b.iter();
    while let Some(x) = it.next() {
        out.push(*x);
    }
    assert_eq!(out, vec![4, 1, 2]);
}

#[test]
fn bounded_zero_capacity_grows() {
    let mut b = BoundedList::new(0);
    b.add(1);
    b.add(2);
    assert_eq!(b.len(), 2);
    let mut out = Vec::new();
    let mut it = b.iter();
    while let Some(x) = it.next() {
        out.push(*x);
    }
    assert_eq!(out, vec![1, 2]);
}

#[test]
fn delete_middle_relinks_neighbours() {
    let mut l = VecList::new();
    let a = l.push_back(1);
    let b = l.push_back(2);
    let c = l.push_back(3);
    assert_eq!(l.delete(b), Some(2));
    assert_eq!(collect_forward(&l), vec![1, 3]);
    assert_eq!(collect_backward(&l), vec![3, 1]);
    assert_eq!(l.delete(a), Some(1));
    assert_eq!(collect_forward(&l), vec![3]);
    assert_eq!(l.delete(c), Some(3));
    assert!(l.is_empty());
    assert_eq!(l.cap(), 3);
}
