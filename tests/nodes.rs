use decision_tree::nodes::{
    BinaryNode, Decision, HashMapNode, MappingNode, Node, PredicateListNode, Tree,
};

type Cond = Box<dyn Fn(&isize) -> bool>;

#[test]
fn test_binary_node() {
    let on_true = Decision::action(1);
    let on_false = Decision::action(2);
    let node = BinaryNode::new(Box::new(|n: &isize| *n >= 0), on_true, on_false);
    let gt0 = node.decide(&1);
    assert!(matches!(gt0, Decision::Action(1)));
    let lt0 = node.decide(&-1);
    assert!(matches!(lt0, Decision::Action(2)));
}

#[test]
fn table_add_get_replace_default() {
    let mut node: HashMapNode<isize, u8, Cond> = HashMapNode::new(Decision::action(0));
    node.add_action(1, 10);
    node.add_action(2, 20);
    assert!(matches!(node.get_decision(&1), Some(Decision::Action(10))));
    node.add_action(1, 11);
    assert!(matches!(node.get_decision(&1), Some(Decision::Action(11))));
    assert_eq!(node.0.len(), 2);
    assert!(node.get_decision(&3).is_none());
    assert!(matches!(node.default_decision(), Decision::Action(0)));
    assert!(matches!(node.decide(&3), Decision::Action(0)));
    assert!(matches!(node.decide(&2), Decision::Action(20)));
    assert!(matches!(node.decide_mapped(&1), Decision::Action(11)));
}

#[test]
fn table_branches_to_child_node() {
    let child: BinaryNode<isize, u8, Cond> =
        BinaryNode::new(Box::new(|n: &isize| *n > 5), Decision::action(1), Decision::action(2));
    let mut node: HashMapNode<isize, u8, Cond> = HashMapNode::new(Decision::action(0));
    node.add_node(7, Node::Binary(child));
    match node.decide(&7) {
        Decision::Node(n) => assert!(matches!(n.decide(&7), Decision::Action(1))),
        Decision::Action(_) => panic!("expected a child node"),
    }
    let whole = Node::Table(node);
    assert!(matches!(whole.decide(&8), Decision::Action(0)));
}

#[test]
fn predicate_list_first_match() {
    let mut node: PredicateListNode<isize, u8, Cond> = PredicateListNode::new(Decision::action(0));
    node.add_action(Box::new(|n: &isize| *n > 10), 1);
    node.add_action(Box::new(|n: &isize| *n > 0), 2);
    node.add_node(
        Box::new(|n: &isize| *n < 0),
        Node::Binary(BinaryNode::new(
            Box::new(|n: &isize| *n < -10),
            Decision::action(3),
            Decision::action(4),
        )),
    );
    assert!(matches!(node.decide(&11), Decision::Action(1)));
    assert!(matches!(node.decide(&10), Decision::Action(2)));
    assert!(matches!(node.decide(&0), Decision::Action(0)));
    match node.decide(&-1) {
        Decision::Node(n) => assert!(matches!(n.decide(&-11), Decision::Action(3))),
        Decision::Action(_) => panic!("expected a child node"),
    }
}

#[derive(Copy, Clone, Debug, PartialEq)]
enum Class {
    LessThanNegativeTen,
    LessThanZero,
    Zero,
    GreaterThanZero,
    GreaterThanTen,
}

fn split(cond: Cond, on_true: Decision<isize, Class, Cond>, on_false: Decision<isize, Class, Cond>) -> Node<isize, Class, Cond> {
    Node::Binary(BinaryNode::new(cond, on_true, on_false))
}

#[test]
fn tree_of_binary_nodes_classifies_the_probes() {
    let gt_10 = split(
        Box::new(|i: &isize| *i > 10),
        Decision::action(Class::GreaterThanTen),
        Decision::action(Class::GreaterThanZero),
    );
    let gt_0 = split(Box::new(|i: &isize| *i > 0), Decision::node(gt_10), Decision::action(Class::Zero));
    let lt_neg_10 = split(
        Box::new(|i: &isize| *i < -10),
        Decision::action(Class::LessThanNegativeTen),
        Decision::action(Class::LessThanZero),
    );
    let root = split(Box::new(|i: &isize| *i >= 0), Decision::node(gt_0), Decision::node(lt_neg_10));
    let tree = Tree::new(root);
    assert_eq!(tree.decide(&-11), Class::LessThanNegativeTen);
    assert_eq!(tree.decide(&-10), Class::LessThanZero);
    assert_eq!(tree.decide(&0), Class::Zero);
    assert_eq!(tree.decide(&1), Class::GreaterThanZero);
    assert_eq!(tree.decide(&10), Class::GreaterThanZero);
    assert_eq!(tree.decide(&11), Class::GreaterThanTen);
}

#[test]
fn tree_mixes_table_and_list_nodes() {
    let mut list: PredicateListNode<isize, Class, Cond> = PredicateListNode::new(Decision::action(Class::GreaterThanZero));
    list.add_action(Box::new(|i: &isize| *i > 10), Class::GreaterThanTen);
    list.add_action(Box::new(|i: &isize| *i < -10), Class::LessThanNegativeTen);
    list.add_action(Box::new(|i: &isize| *i < 0), Class::LessThanZero);
    let mut table: HashMapNode<isize, Class, Cond> = HashMapNode::new(Decision::node(Node::List(list)));
    table.add_action(0, Class::Zero);
    let tree = Tree::new(Node::Table(table));
    assert_eq!(tree.decide(&-50), Class::LessThanNegativeTen);
    assert_eq!(tree.decide(&-10), Class::LessThanZero);
    assert_eq!(tree.decide(&0), Class::Zero);
    assert_eq!(tree.decide(&5), Class::GreaterThanZero);
    assert_eq!(tree.decide(&11), Class::GreaterThanTen);
}
