use adbmdns::index_min_pq::{CompareAttention, IndexMinPQ};
use std::cmp::Ordering;
use std::rc::Rc;

#[derive(Clone, Debug)]
struct TestItem {
    value: String,
    deadline: i32,
}

impl TestItem {
    fn new(value: String, deadline: i32) -> Self {
        TestItem { value, deadline }
    }
}

impl PartialEq<Self> for TestItem {
    fn eq(&self, other: &Self) -> bool {
        self.value.eq(&other.value)
    }
}

impl Eq for TestItem {}

// The items are only compiled and run here: the two functions that the library
// reasons with are never called.
impl CompareAttention for TestItem {
    type Identity = String;

    fn attention(&self) -> vstd::prelude::int {
        unreachable!()
    }

    fn identity(&self) -> String {
        unreachable!()
    }

    fn cmp_attention(&self, other: &Self) -> Ordering {
        self.deadline.cmp(&other.deadline)
    }

    fn same_identity(&self, other: &Self) -> bool {
        self.value == other.value
    }
}

#[test]
fn test_empty() {
    let pq: IndexMinPQ<i32> = IndexMinPQ::new();
    assert!(pq.empty());
}

#[test]
fn test_swim() {
    let mut pq = IndexMinPQ::new();
    pq.push(1);
    assert_eq!(pq.len(), 1);
    assert_eq!(pq.pop(), Some(1));
    assert!(pq.empty());
}

#[test]
fn test_sink() {
    let mut pq = IndexMinPQ::new();
    pq.push(1);
    pq.push(2);
    pq.pop();
    assert_eq!(pq.len(), 1);
}

#[test]
fn test_size() {
    let mut pq = IndexMinPQ::new();
    assert_eq!(pq.len(), 0);
    pq.push(1);
    pq.push(2);
    pq.push(3);
    assert_eq!(pq.len(), 3);

    let e = pq.pop();
    assert_eq!(pq.len(), 2);
    assert_eq!(e, Some(1));

    let e = pq.pop();
    assert_eq!(e, Some(2));
    assert_eq!(pq.len(), 1);

    let e = pq.pop();
    assert_eq!(e, Some(3));
    assert_eq!(pq.len(), 0);

    let e = pq.pop();
    assert_eq!(e, None);
}

// The queue keeps its items in one vector (the identities are found in it), so
// the index and the data have the same size: the queue's length.
#[test]
fn test_data_and_index() {
    let mut pq = IndexMinPQ::new();
    pq.push(1);
    pq.push(2);
    assert_eq!(pq.len(), 2);

    pq.pop();
    assert_eq!(pq.len(), 1);

    // Try to insert a previously present entry.
    pq.push(1);
    assert_eq!(pq.len(), 2);
    assert_eq!(pq.pop(), Some(1));
    assert_eq!(pq.pop(), Some(2));
}

#[test]
fn test_peek() {
    let mut pq = IndexMinPQ::new();
    pq.push(1);
    pq.push(2);
    pq.push(3);

    assert_eq!(pq.len(), 3);
    assert_eq!(pq.peek(), Some(&1));

    let mut pq = IndexMinPQ::new();
    pq.push(3);
    pq.push(2);
    pq.push(1);

    assert_eq!(pq.len(), 3);
    assert_eq!(pq.peek(), Some(&1));
}

#[test]
fn test_into_sorted_vec() {
    let mut pq = IndexMinPQ::new();
    pq.push(1);
    pq.push(2);
    pq.push(3);
    assert_eq!(pq.into_sorted_vec(), vec![1, 2, 3]);
}

#[test]
fn test_into_sorted_vec_reversed_insertion_order() {
    let mut pq = IndexMinPQ::new();
    pq.push(3);
    pq.push(2);
    pq.push(1);
    assert_eq!(pq.into_sorted_vec(), vec![1, 2, 3]);
}

#[test]
fn test_update() {
    let mut pq = IndexMinPQ::new();

    let item_update = TestItem::new("foo".to_string(), 13);
    pq.push(item_update.clone());
    pq.push(TestItem::new("bar".to_string(), 11));
    pq.push(TestItem::new("see".to_string(), 12));
    assert_eq!(pq.len(), 3);
    assert_eq!(pq.peek(), Some(&TestItem::new("bar".to_string(), 11)));

    let item_update = TestItem::new("foo".to_string(), 2);
    pq.push(item_update.clone());
    assert_eq!(pq.len(), 3);
    assert_eq!(pq.peek(), Some(&item_update));

    let item_update = TestItem::new("see".to_string(), 1);
    pq.push(item_update.clone());
    assert_eq!(pq.peek(), Some(&item_update));

    let new_item = TestItem::new("xxx".to_string(), 1);
    pq.push(new_item);
    assert_eq!(pq.len(), 4);
}

#[test]
fn test_multiple_insert() {
    let mut pq = IndexMinPQ::new();
    pq.push(TestItem::new("v1".to_string(), 1));
    pq.push(TestItem::new("v2".to_string(), 2));
    pq.push(TestItem::new("v3".to_string(), 3));
    pq.push(TestItem::new("v4".to_string(), 4));
    pq.push(TestItem::new("v5".to_string(), 5));
    pq.push(TestItem::new("v6".to_string(), 6));
    pq.push(TestItem::new("v7".to_string(), 7));
    pq.push(TestItem::new("v8".to_string(), 8));

    assert_eq!(
        vec![
            TestItem::new("v1".to_string(), 1),
            TestItem::new("v2".to_string(), 2),
            TestItem::new("v3".to_string(), 3),
            TestItem::new("v4".to_string(), 4),
            TestItem::new("v5".to_string(), 5),
            TestItem::new("v6".to_string(), 6),
            TestItem::new("v7".to_string(), 7),
            TestItem::new("v8".to_string(), 8),
        ],
        pq.into_sorted_vec()
    );
}

#[test]
fn test_multiple_insert_mixed_order() {
    let mut pq = IndexMinPQ::new();
    pq.push(TestItem::new("v3".to_string(), 3));
    pq.push(TestItem::new("v4".to_string(), 4));
    pq.push(TestItem::new("v7".to_string(), 7));
    pq.push(TestItem::new("v8".to_string(), 8));
    pq.push(TestItem::new("v2".to_string(), 2));
    pq.push(TestItem::new("v5".to_string(), 5));
    pq.push(TestItem::new("v1".to_string(), 1));
    pq.push(TestItem::new("v6".to_string(), 6));

    assert_eq!(
        vec![
            TestItem::new("v1".to_string(), 1),
            TestItem::new("v2".to_string(), 2),
            TestItem::new("v3".to_string(), 3),
            TestItem::new("v4".to_string(), 4),
            TestItem::new("v5".to_string(), 5),
            TestItem::new("v6".to_string(), 6),
            TestItem::new("v7".to_string(), 7),
            TestItem::new("v8".to_string(), 8),
        ],
        pq.into_sorted_vec()
    );
}

#[test]
fn test_rc_entries_simple() {
    let mut pq = IndexMinPQ::new();

    let one = Rc::new(1);
    let two = Rc::new(2);
    let three = Rc::new(3);
    let four = Rc::new(4);

    pq.push(three.clone());
    pq.push(two.clone());
    pq.push(four.clone());
    pq.push(one.clone());

    assert_eq!(vec![one, two, three, four], pq.into_sorted_vec())
}

#[test]
fn test_rc_entries() {
    let mut pq = IndexMinPQ::new();

    let one = Rc::new(TestItem::new("thre".to_string(), 1));
    let two = Rc::new(TestItem::new("fab".to_string(), 2));
    let three = Rc::new(TestItem::new("bar".to_string(), 3));
    let four = Rc::new(TestItem::new("foo".to_string(), 4));

    pq.push(four.clone());
    pq.push(one.clone());
    pq.push(three.clone());
    pq.push(two.clone());

    assert_eq!(vec![one, two, three, four], pq.into_sorted_vec())
}

#[test]
fn pop_gives_items_by_attention_and_clear_empties() {
    let mut pq = IndexMinPQ::new();
    for v in [5, -3, 9, 0, 7, -8, 2] {
        pq.push(v);
    }
    assert_eq!(pq.len(), 7);
    assert_eq!(pq.pop(), Some(-8));
    assert_eq!(pq.pop(), Some(-3));
    assert_eq!(pq.peek(), Some(&0));
    pq.clear();
    assert!(pq.empty());
    assert_eq!(pq.pop(), None);
    assert_eq!(pq.peek(), None);
}

#[test]
fn push_replaces_the_item_with_the_same_identity_and_moves_it_down() {
    let mut pq = IndexMinPQ::new();
    pq.push(TestItem::new("a".to_string(), 1));
    pq.push(TestItem::new("b".to_string(), 2));
    pq.push(TestItem::new("c".to_string(), 3));
    pq.push(TestItem::new("a".to_string(), 10));
    assert_eq!(pq.len(), 3);
    let sorted = pq.into_sorted_vec();
    let deadlines: Vec<i32> = sorted.iter().map(|t| t.deadline).collect();
    let names: Vec<&str> = sorted.iter().map(|t| t.value.as_str()).collect();
    assert_eq!(deadlines, vec![2, 3, 10]);
    assert_eq!(names, vec!["b", "c", "a"]);
}

#[test]
fn pop_takes_out_the_item_that_peek_shows() {
    let mut pq = IndexMinPQ::new();
    pq.push(TestItem::new("a".to_string(), 5));
    pq.push(TestItem::new("b".to_string(), 5));
    pq.push(TestItem::new("c".to_string(), 5));
    while !pq.empty() {
        let shown = pq.peek().unwrap().value.clone();
        let taken = pq.pop().unwrap();
        assert_eq!(shown, taken.value);
    }
}
