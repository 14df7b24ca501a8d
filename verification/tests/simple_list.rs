use lru_cache::simple_list::LinkedList;
use lru_cache::simple_list::Node;

#[test]
fn lib_init_node() {
    let node = Node::new(5);
    assert_eq!(node.value, 5);
}

#[test]
fn lib_mutate_value() {
    let mut head = Node::new("hello".to_string());

    head.value = "!".to_string();
    assert_eq!(head.value, "!".to_string());
}

#[test]
fn lib_next_node() {
    let mut head = Node::new("hello".to_string());
    let tail = Node::new("world".to_string());

    let n = Some(Box::new(tail));
    head.set_next(n);

    assert_eq!(head.next.unwrap().value, "world".to_string());
}

#[test]
fn lib_init_list() {
    let linked_list = LinkedList::<String>::default();
    assert_eq!(linked_list.size, 0);
}

#[test]
fn lib_push_one_node() {
    let mut linked_list = LinkedList::<String>::default();

    let a = "1".to_string();
    linked_list.push(a);

    assert_eq!(linked_list.size, 1);
}

#[test]
fn lib_push_two_nodes() {
    let mut linked_list = LinkedList::<String>::default();

    for i in 1..3 {
        linked_list.push(i.to_string());
    }
    assert_eq!(linked_list.size, 2);

    let head = linked_list.head();
    assert_eq!(head, "1".to_string());

    let tail = linked_list.tail();
    assert_eq!(tail, "2".to_string());
}

#[test]
fn lib_len_matches_size() {
    let mut linked_list = LinkedList::<String>::default();
    assert_eq!(linked_list.len(), 0);
    linked_list.push("1".to_string());
    linked_list.push("2".to_string());
    assert_eq!(linked_list.len(), 2);
    assert_eq!(linked_list.len(), linked_list.size);
}

#[test]
fn lib_push_three_nodes() {
    let mut linked_list = LinkedList::<String>::default();

    for i in 1..4 {
        linked_list.push(i.to_string());
    }
    assert_eq!(linked_list.size, 3);

    let tail = linked_list.tail();
    assert_eq!(tail, "3".to_string());
}
