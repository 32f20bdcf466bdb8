use cares_rs::clinkedlist::{chain_nodes, CLinkedList};

struct DummyNode {
    next: Option<Box<DummyNode>>,
    num: u8,
}

impl DummyNode {
    fn new(num: u8) -> DummyNode {
        DummyNode { next: None, num }
    }
}

impl CLinkedList for DummyNode {
    fn next(&mut self) -> &mut Option<Box<Self>> {
        &mut self.next
    }
}

#[test]
fn test_chain_leaves() {
    let vec = vec![DummyNode::new(1), DummyNode::new(2), DummyNode::new(3)];
    let head = chain_nodes(vec);
    assert_eq!(head.num, 1);
    let head = head.next.as_ref().unwrap();
    assert_eq!(head.num, 2);
    let head = head.next.as_ref().unwrap();
    assert_eq!(head.num, 3);
    assert!(head.next.is_none());
}

#[test]
fn chain_of_one_node_is_the_node() {
    let head = chain_nodes(vec![DummyNode::new(7)]);
    assert_eq!(head.num, 7);
    assert!(head.next.is_none());
}
