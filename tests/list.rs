use persistent_list::LinkedList;
use persistent_list::ListIter;
use std::cmp::Ordering;

fn drain<'a>(mut it: ListIter<'a, u32>) -> Vec<u32> {
    let mut out = Vec::new();
    while let Some(v) = it.next() {
        out.push(*v);
    }
    out
}

#[test]
fn macro_test() {
    let t = LinkedList::new();
    let l5 = t.prepend(5);
    let l4 = l5.prepend(4);
    let l3 = l4.prepend(3);
    let l2 = l3.prepend(2);
    let list = l2.prepend(1);

    let u = LinkedList::new();
    let m5 = u.prepend(5);
    let m4 = m5.prepend(4);
    let m3 = m4.prepend(3);
    let m2 = m3.prepend(2);

    let v = LinkedList::new();
    let n5 = v.prepend(5);
    let n4 = n5.prepend(4);
    let n3 = n4.prepend(3);

    assert_eq!(list.len(), 5);
    assert_eq!(list.is_empty(), false);
    assert_eq!(list.contains(&3), true);
    assert_eq!(list.contains(&6), false);
    assert_eq!(list.front(), Some(&1));
    assert_eq!(list.back(), Some(&2));
    assert_eq!(list.get(2), Some(&3));
    assert_eq!(list.get(10), None);
    assert_eq!(list.tail(), Some(&m2));
    assert_eq!(list.skip(2), Some(&n3));
    assert_eq!(list.skip(10), None);
    assert_eq!(list.skip(10).is_none(), true);

    let six: LinkedList<u32> = list.prepend(3);
    assert_eq!(six.len(), 6);
}

#[test]
fn empty_list_queries() {
    let t: LinkedList<u32> = LinkedList::new();
    assert_eq!(t.len(), 0);
    assert!(t.is_empty());
    assert_eq!(t.front(), None);
    assert_eq!(t.back(), None);
    assert_eq!(t.tail(), None);
    assert_eq!(t.skip(0), None);
    assert_eq!(t.get(0), None);
    assert!(!t.contains(&0));
    assert_eq!(t, LinkedList::default());
}

#[test]
fn prepend_builds_front_first() {
    let t = LinkedList::new();
    let a = t.prepend(7u32);
    let b = a.prepend(8);
    let c = b.prepend(9);
    assert_eq!(c.len(), 3);
    assert!(!c.is_empty());
    assert_eq!(c.front(), Some(&9));
    assert_eq!(drain(c.iter()), vec![9, 8, 7]);
}

#[test]
fn back_with_one_and_two_elements() {
    let t = LinkedList::new();
    let one = t.prepend(4u32);
    assert_eq!(one.back(), Some(&4));
    let two = one.prepend(3);
    assert_eq!(two.back(), Some(&4));
    let three = two.prepend(2);
    assert_eq!(three.back(), Some(&3));
}

#[test]
fn get_agrees_with_skip_then_front() {
    let t = LinkedList::new();
    let a = t.prepend(30u32);
    let b = a.prepend(20);
    let c = b.prepend(10);
    for i in 0..5usize {
        assert_eq!(c.get(i), c.skip(i).and_then(LinkedList::front));
    }
    assert_eq!(c.get(1), Some(&20));
    assert_eq!(c.get(3), None);
    assert_eq!(c.skip(3), None);
    assert_eq!(c.skip(0), Some(&c));
}

#[test]
fn contains_finds_every_element() {
    let t = LinkedList::new();
    let a = t.prepend(1u32);
    let b = a.prepend(1);
    let c = b.prepend(2);
    assert!(c.contains(&1));
    assert!(c.contains(&2));
    assert!(!c.contains(&3));
}

#[test]
fn tail_is_rest_of_list() {
    let t = LinkedList::new();
    let a = t.prepend(2u32);
    let b = a.prepend(1);
    assert_eq!(b.tail(), Some(&a));
    assert_eq!(a.tail(), Some(&t));
    assert_eq!(t.tail(), None);
}

#[test]
fn iter_is_repeatable_and_ends() {
    let t = LinkedList::new();
    let a = t.prepend(2u32);
    let b = a.prepend(1);
    assert_eq!(drain(b.iter()), drain(b.iter()));
    assert_eq!(b.len(), b.len());
    assert_eq!(b.back(), b.back());
    let mut it = b.iter();
    assert_eq!(it.next(), Some(&1));
    assert_eq!(it.next(), Some(&2));
    assert_eq!(it.next(), None);
    assert_eq!(it.next(), None);
}

#[test]
fn prepend_shares_the_original() {
    let t = LinkedList::new();
    let a = t.prepend(6u32);
    let a = a;
    let b = a.prepend(5);
    let c = a.prepend(4);
    assert_eq!(a.len(), 1);
    assert_eq!(drain(a.iter()), vec![6]);
    assert_eq!(b.tail(), Some(&a));
    assert_eq!(c.tail(), Some(&a));
    assert_eq!(b.len(), 2);
}

#[test]
fn equal_and_ordered_lexicographically() {
    let t = LinkedList::new();
    let a2 = t.prepend(2u32);
    let a1 = a2.prepend(1);
    let u = LinkedList::new();
    let b2 = u.prepend(2u32);
    let b1 = b2.prepend(1);
    assert_eq!(a1, b1);
    assert_eq!(a1.partial_cmp(&b1), Some(Ordering::Equal));

    let v = LinkedList::new();
    let p1 = v.prepend(1u32);
    assert!(p1 < a1);
    assert_eq!(p1.cmp(&a1), Ordering::Less);
    assert!(t < p1);
    assert_ne!(p1, a1);

    let w = LinkedList::new();
    let q3 = w.prepend(3u32);
    assert!(a1 < q3);
    assert_eq!(q3.partial_cmp(&a1), Some(Ordering::Greater));
}
