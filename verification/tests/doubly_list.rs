use lru_cache::doubly_linked_list::LinkedList;
use lru_cache::doubly_linked_list::Node;
use lru_cache::doubly_linked_list::NodeRef;

#[test]
fn init_list() {
    let linked_list = LinkedList::<String>::default();
    assert_eq!(linked_list.size, 0);
}

#[test]
fn push_one_node() {
    let mut linked_list = LinkedList::<String>::default();

    linked_list.push("1".to_string());
    assert_eq!(linked_list.size, 1);
}

#[test]
fn push_two_nodes() {
    let mut linked_list = LinkedList::<String>::default();

    for i in 1..3 {
        linked_list.push(i.to_string());
    }

    assert_eq!(linked_list.size, 2);
    assert_eq!(linked_list.head(), Some("1".to_string()));
    assert_eq!(linked_list.tail(), Some("2".to_string()));
}

#[test]
fn push_three_nodes() {
    let mut linked_list = LinkedList::<String>::default();

    for i in 1..4 {
        linked_list.push(i.to_string());
    }

    assert_eq!(linked_list.size, 3);
    assert_eq!(linked_list.tail(), Some("3".to_string()));
}

#[test]
fn access_none_head() {
    let linked_list = LinkedList::<String>::default();
    assert_eq!(linked_list.head(), None);
}

#[test]
fn access_none_tail() {
    let linked_list = LinkedList::<String>::default();
    assert_eq!(linked_list.tail(), None);
}

#[test]
fn head_and_tail() {
    let mut linked_list = LinkedList::<String>::default();

    linked_list.push(String::from("hello"));
    assert_eq!(linked_list.head(), Some("hello".to_string()));
    assert_eq!(linked_list.tail(), Some("hello".to_string()));
    assert_eq!(linked_list.size, 1);

    linked_list.push("world".to_string());
    assert_eq!(linked_list.tail(), Some("world".to_string()));
    assert_eq!(linked_list.size, 2);
}

#[test]
fn get_at_index() {
    let mut linked_list = LinkedList::<String>::default();

    for i in 1..5 {
        linked_list.push(i.to_string());
    }
    assert_eq!(linked_list.head(), Some("1".to_string()));
    assert_eq!(linked_list.tail(), Some("4".to_string()));

    assert_eq!(linked_list.get(0), Some("1".to_string()));
    assert_eq!(linked_list.get(1), Some("2".to_string()));
    assert_eq!(linked_list.get(2), Some("3".to_string()));
    assert_eq!(linked_list.get(3), Some("4".to_string()));
    assert_eq!(linked_list.get(4), None);
    assert_eq!(linked_list.get(100), None);
}

#[test]
fn pop_front() {
    let mut linked_list = LinkedList::<String>::default();

    for i in 1..5 {
        linked_list.push(i.to_string());
    }

    assert_eq!(linked_list.head(), Some("1".to_string()));
    assert_eq!(linked_list.pop_front(), Some("1".to_string()));
    assert_eq!(linked_list.head(), Some("2".to_string()));
}

#[test]
fn iterator() {
    let mut linked_list = LinkedList::<String>::default();

    for i in 1..5 {
        linked_list.push(i.to_string());
    }

    let mut iter = linked_list.into_iter();

    // Assert the iterator did not consume the linked_list.
    assert_eq!(linked_list.get(2), Some("3".to_string()));
    assert_eq!(iter.next(), Some("1".to_string()));
    assert_eq!(iter.next(), Some("2".to_string()));
    assert_eq!(iter.next(), Some("3".to_string()));
    assert_eq!(iter.next(), Some("4".to_string()));
    assert_eq!(iter.next(), None);
}

#[test]
fn iterator_function_calls() {
    let mut linked_list = LinkedList::<i32>::default();
    for v in [1, 2, 3, 4, 5] {
        linked_list.push(v);
    }

    let mut result: Vec<u32> = Vec::new();
    let mut iter = linked_list.into_iter();
    while let Some(v) = iter.next() {
        result.push((v * 2) as u32);
    }

    assert_eq!(result[0], 2);
    assert_eq!(result[1], 4);
    assert_eq!(result[2], 6);
    assert_eq!(result[3], 8);
    assert_eq!(result[4], 10);
}

#[test]
fn macro_linked_list() {
    let mut linked_list = LinkedList::<String>::default();
    linked_list.push("1".to_string());
    linked_list.push("2".to_string());
    assert_eq!(linked_list.tail(), Some("2".to_string()));
}

#[test]
fn pop_back() {
    let mut linked_list = LinkedList::<String>::default();
    linked_list.push("1".to_string());
    linked_list.push("2".to_string());
    linked_list.push("3".to_string());
    assert_eq!(linked_list.len(), 3);

    let popped = linked_list.pop_back();
    assert_eq!(popped, Some("3".to_string()));
    assert_eq!(linked_list.tail(), Some("2".to_string()));
    assert_eq!(linked_list.len(), 2);

    let popped = linked_list.pop_back();
    assert_eq!(popped, Some("2".to_string()));
    assert_eq!(linked_list.tail(), Some("1".to_string()));
    assert_eq!(linked_list.len(), 1);

    let popped = linked_list.pop_back();
    assert_eq!(popped, Some("1".to_string()));
    assert_eq!(linked_list.tail(), None);
    assert_eq!(linked_list.len(), 0);

    let popped = linked_list.pop_back();
    assert_eq!(popped, None);
    assert_eq!(linked_list.tail(), None);
    assert_eq!(linked_list.len(), 0);
}

#[test]
fn reverse_iterator() {
    let mut linked_list = LinkedList::<String>::default();

    for i in 1..5 {
        linked_list.push(i.to_string());
    }

    assert_eq!(linked_list.size, 4);
    assert_eq!(linked_list.tail(), Some("4".to_string()));

    let mut iter = linked_list.into_iter();
    assert_eq!(Some("4".to_string()), iter.next_back());
    assert_eq!(Some("3".to_string()), iter.next_back());
    assert_eq!(Some("2".to_string()), iter.next_back());
    assert_eq!(Some("1".to_string()), iter.next_back());
    assert_eq!(None, iter.next_back());
}

#[test]
fn linked_list_iterator_function_calls() {
    let mut linked_list = LinkedList::<i32>::default();
    for v in [1, 2, 3, 4, 5] {
        linked_list.push(v);
    }

    let _popped = linked_list.pop_back();
    let _popped = linked_list.pop_front();

    let mut result: Vec<u32> = Vec::new();
    let mut iter = linked_list.into_iter();
    while let Some(v) = iter.next_back() {
        result.push((v * 2) as u32);
    }

    assert_eq!(result[0], 8);
    assert_eq!(result[1], 6);
    assert_eq!(result[2], 4);
}

#[test]
fn init_node() {
    let node = Node::new(5);
    assert_eq!(node.value, 5);
}

#[test]
fn mutate_value() {
    let mut head = Node::new("hello".to_string());

    head.value = "!".to_string();
    assert_eq!(head.value, "!".to_string());
}

#[test]
fn next_node() {
    let mut head = Node::new("hello".to_string());
    let tail = Node::new("world".to_string());

    let next = Some(NodeRef::new(tail));
    head.next = next;

    assert_eq!(head.next.unwrap().0.value, "world".to_string());
}

#[test]
fn previous_node() {
    let mut head = Node::new(1);
    let mut mid = Node::new(2);
    let mut tail = Node::new(3);

    head.next = Some(NodeRef::new(mid.clone()));
    mid.previous = Some(NodeRef::new(head.clone()));
    mid.next = Some(NodeRef::new(tail.clone()));
    tail.previous = Some(NodeRef::new(mid.clone()));

    assert_eq!(mid.previous.unwrap().get_value(), 1);
    assert_eq!(mid.next.unwrap().get_value(), 3);
}

#[test]
fn pop_on_empty_list() {
    let mut linked_list = LinkedList::<String>::default();
    assert_eq!(linked_list.pop_front(), None);
    assert_eq!(linked_list.pop_back(), None);
    assert_eq!(linked_list.size, 0);
    assert!(linked_list.is_empty());
}
