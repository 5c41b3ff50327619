use decision_tree::deciders::{
    BinaryDecider, ContainsDecider, Container, Membership, PredicatedNodesDecider, SimpleDecider,
};
use decision_tree::{Decider, Decision, Error, Node, OwnedNode};

#[derive(Copy, Clone, Debug, PartialEq)]
enum TestAnswer {
    LessThanNegativeTen,
    LessThanZero,
    Zero,
    GreaterThanZero,
    GreaterThanTen,
}

type Pred = fn(&isize) -> bool;
type Func = fn(&isize) -> TestAnswer;
type Tree = Decision<isize, TestAnswer, Pred, Membership, Func>;
type Branch = OwnedNode<isize, TestAnswer, Pred, Membership, Func>;

impl TestAnswer {
    fn get_condition(action: TestAnswer) -> Pred {
        match action {
            Self::LessThanNegativeTen => |i: &isize| *i < -10,
            Self::LessThanZero => |i: &isize| *i < 0,
            Self::Zero => |i: &isize| *i == 0,
            Self::GreaterThanZero => |i: &isize| *i > 0,
            Self::GreaterThanTen => |i: &isize| *i > 10,
        }
    }

    fn get_from_number(number: isize) -> Self {
        match &number {
            -10..=-1 => Self::LessThanZero,
            0 => Self::Zero,
            1..=10 => Self::GreaterThanZero,
            _ if number < -10 => Self::LessThanNegativeTen,
            _ => Self::GreaterThanTen,
        }
    }
}

fn binary(predicate: Pred, on_true: Branch, on_false: Branch) -> Tree {
    Decision::new(Decider::Binary(BinaryDecider::new(predicate, on_true, on_false)))
}

fn tree_asserts(tree: Tree) {
    assert!(matches!(tree.decide(&-50), TestAnswer::LessThanNegativeTen));
    assert!(matches!(tree.decide(&-10), TestAnswer::LessThanZero));
    assert!(matches!(tree.decide(&-1), TestAnswer::LessThanZero));
    assert!(matches!(tree.decide(&0), TestAnswer::Zero));
    assert!(matches!(tree.decide(&1), TestAnswer::GreaterThanZero));
    assert!(matches!(tree.decide(&10), TestAnswer::GreaterThanZero));
    assert!(matches!(tree.decide(&11), TestAnswer::GreaterThanTen));
}

fn scenario_asserts(tree: &Tree) {
    assert_eq!(tree.decide(&-11), TestAnswer::LessThanNegativeTen);
    assert_eq!(tree.decide(&-10), TestAnswer::LessThanZero);
    assert_eq!(tree.decide(&0), TestAnswer::Zero);
    assert_eq!(tree.decide(&1), TestAnswer::GreaterThanZero);
    assert_eq!(tree.decide(&11), TestAnswer::GreaterThanTen);
}

fn binary_tree() -> Tree {
    let gt_10_decision = binary(
        |i: &isize| *i > 10,
        OwnedNode::Answer(TestAnswer::GreaterThanTen),
        OwnedNode::Answer(TestAnswer::GreaterThanZero),
    );
    let gt_zero_decision = binary(
        |i: &isize| *i > 0,
        OwnedNode::Decision(gt_10_decision),
        OwnedNode::Answer(TestAnswer::Zero),
    );
    let lt_negative_10_decision = binary(
        |i: &isize| *i < -10,
        OwnedNode::Answer(TestAnswer::LessThanNegativeTen),
        OwnedNode::Answer(TestAnswer::LessThanZero),
    );
    binary(
        |i: &isize| *i >= 0,
        OwnedNode::Decision(gt_zero_decision),
        OwnedNode::Decision(lt_negative_10_decision),
    )
}

fn predicated_tree() -> Tree {
    let mut decider = PredicatedNodesDecider::new(OwnedNode::Answer(TestAnswer::Zero));
    decider.add_answer(
        TestAnswer::get_condition(TestAnswer::LessThanNegativeTen),
        TestAnswer::LessThanNegativeTen,
    );
    decider.add_answer(
        TestAnswer::get_condition(TestAnswer::GreaterThanTen),
        TestAnswer::GreaterThanTen,
    );
    decider.add_answer(
        TestAnswer::get_condition(TestAnswer::LessThanZero),
        TestAnswer::LessThanZero,
    );
    decider.add_answer(
        TestAnswer::get_condition(TestAnswer::GreaterThanZero),
        TestAnswer::GreaterThanZero,
    );
    Decision::new(Decider::Predicated(decider))
}

fn ranges_tree() -> Tree {
    let mut decider = ContainsDecider::new(OwnedNode::Answer(TestAnswer::Zero));
    decider.add_answer(Membership::Range(-10..0), TestAnswer::LessThanZero);
    decider.add_answer(Membership::Inclusive(1..=10), TestAnswer::GreaterThanZero);
    decider.add_answer(Membership::From(11..), TestAnswer::GreaterThanTen);
    decider.add_answer(Membership::To(..-10), TestAnswer::LessThanNegativeTen);
    Decision::new(Decider::Contains(decider))
}

#[test]
fn test_simple_decider() {
    let func: Func = |i: &isize| TestAnswer::get_from_number(*i);
    let decider = SimpleDecider::new(func);
    let decision: Tree = Decision::new(Decider::Simple(decider));
    assert!(matches!(
        decision.decide(&-11),
        TestAnswer::LessThanNegativeTen
    ));
    assert!(matches!(decision.decide(&-10), TestAnswer::LessThanZero));
    assert!(matches!(decision.decide(&-1), TestAnswer::LessThanZero));
    assert!(matches!(decision.decide(&0), TestAnswer::Zero));
    assert!(matches!(decision.decide(&1), TestAnswer::GreaterThanZero));
    assert!(matches!(decision.decide(&10), TestAnswer::GreaterThanZero));
    assert!(matches!(decision.decide(&11), TestAnswer::GreaterThanTen));
}

#[test]
fn test_binary_decider() {
    let decision: Decision<isize, String, Pred, Membership, fn(&isize) -> String> =
        Decision::new(Decider::Binary(BinaryDecider::new(
            |i: &isize| *i < 0,
            OwnedNode::Answer(String::from("negative")),
            OwnedNode::Answer(String::from("positive")),
        )));
    assert_eq!(decision.decide(&-1), "negative");
    assert_eq!(decision.decide(&0), "positive");
    assert_eq!(decision.decide(&1), "positive");
}

#[test]
fn test_predicated_nodes_decider() {
    tree_asserts(predicated_tree());
}

#[test]
fn test_container_decider_with_ranges() {
    tree_asserts(ranges_tree());
}

#[test]
fn test_binary_tree() {
    tree_asserts(binary_tree());
}

#[test]
fn nested_binary_splits_classify_the_probes() {
    scenario_asserts(&binary_tree());
}

#[test]
fn predicate_list_classifies_like_binary_splits() {
    let split = binary_tree();
    let list = predicated_tree();
    scenario_asserts(&list);
    for i in -30..30 {
        assert_eq!(split.decide(&i), list.decide(&i));
    }
}

#[test]
fn ranges_classify_like_binary_splits() {
    let split = binary_tree();
    let ranges = ranges_tree();
    scenario_asserts(&ranges);
    for i in -30..30 {
        assert_eq!(split.decide(&i), ranges.decide(&i));
    }
}

#[test]
fn first_matching_predicate_wins() {
    let mut decider: PredicatedNodesDecider<isize, u8, Pred, Membership, fn(&isize) -> u8> =
        PredicatedNodesDecider::new(OwnedNode::Answer(0));
    decider.add_answer(|i: &isize| *i > 5, 1);
    decider.add_answer(|i: &isize| *i > 0, 2);
    decider.add_answer(|i: &isize| *i > 5, 3);
    let tree = Decision::new(Decider::Predicated(decider));
    assert_eq!(tree.decide(&6), 1);
    assert_eq!(tree.decide(&3), 2);
    assert_eq!(tree.decide(&0), 0);
}

#[test]
fn first_containing_container_wins() {
    let mut decider: ContainsDecider<isize, u8, Pred, Membership, fn(&isize) -> u8> =
        ContainsDecider::new(OwnedNode::Answer(0));
    decider.add_answer(Membership::Values(vec![3, 7]), 1);
    decider.add_answer(Membership::ToInclusive(..=5), 2);
    let tree = Decision::new(Decider::Contains(decider));
    assert_eq!(tree.decide(&3), 1);
    assert_eq!(tree.decide(&7), 1);
    assert_eq!(tree.decide(&5), 2);
    assert_eq!(tree.decide(&6), 0);
}

#[test]
fn list_deciders_continue_into_child_decisions() {
    let mut inner = PredicatedNodesDecider::new(OwnedNode::Answer(TestAnswer::GreaterThanZero));
    inner.add_answer(
        TestAnswer::get_condition(TestAnswer::GreaterThanTen),
        TestAnswer::GreaterThanTen,
    );
    let mut outer: PredicatedNodesDecider<isize, TestAnswer, Pred, Membership, Func> =
        PredicatedNodesDecider::new(OwnedNode::Answer(TestAnswer::Zero));
    outer.add_decision(
        TestAnswer::get_condition(TestAnswer::GreaterThanZero),
        Decider::Predicated(inner),
    );
    let mut negative = ContainsDecider::new(OwnedNode::Answer(TestAnswer::LessThanZero));
    negative.add_answer(Membership::To(..-10), TestAnswer::LessThanNegativeTen);
    let mut top = ContainsDecider::new(OwnedNode::Decision(Decision::new(Decider::Predicated(outer))));
    top.add_decision(Membership::To(..0), Decider::Contains(negative));
    let tree = Decision::new(Decider::Contains(top));
    tree_asserts(tree);
}

#[test]
fn binary_split_at_its_threshold() {
    let tree = binary(
        |i: &isize| *i >= 0,
        OwnedNode::Answer(TestAnswer::Zero),
        OwnedNode::Answer(TestAnswer::LessThanZero),
    );
    assert_eq!(tree.decide(&0), TestAnswer::Zero);
    assert_eq!(tree.decide(&-1), TestAnswer::LessThanZero);
    assert_eq!(tree.decide(&isize::MAX), TestAnswer::Zero);
    assert_eq!(tree.decide(&isize::MIN), TestAnswer::LessThanZero);
}

#[test]
fn range_bounds() {
    assert!(Container::contains(&(-10..0), &-10));
    assert!(!Container::contains(&(-10..0), &0));
    assert!(Container::contains(&(1..=10), &1));
    assert!(Container::contains(&(1..=10), &10));
    assert!(!Container::contains(&(1..=10), &11));
    assert!(!Container::contains(&(..-10), &-10));
    assert!(Container::contains(&(..-10), &-11));
    assert!(Container::contains(&(..=-10), &-10));
    assert!(Container::contains(&(11..), &11));
    assert!(!Container::contains(&(11..), &10));
    assert!(!Container::contains(&(5..5), &5));
    assert!(!Container::contains(&Vec::<isize>::new(), &0));
    assert!(Container::contains(&Membership::Inclusive(-3..=-3), &-3));
}

#[test]
fn node_accessors() {
    let d: Tree = binary(
        |i: &isize| *i > 0,
        OwnedNode::Answer(TestAnswer::GreaterThanZero),
        OwnedNode::Answer(TestAnswer::Zero),
    );
    let answer: Node<isize, TestAnswer, Pred, Membership, Func> = Node::Answer(TestAnswer::Zero);
    assert!(matches!(answer.answer(), Ok(TestAnswer::Zero)));
    let answer: Node<isize, TestAnswer, Pred, Membership, Func> = Node::Answer(TestAnswer::Zero);
    assert!(matches!(answer.branch(), Err(Error::DecisionIsNotABranch)));
    let branch: Node<isize, TestAnswer, Pred, Membership, Func> = Node::Decision(&d);
    assert!(matches!(branch.answer(), Err(Error::DecisionIsNotAAnswer)));
    let branch: Node<isize, TestAnswer, Pred, Membership, Func> = Node::Decision(&d);
    assert_eq!(branch.branch().unwrap().decide(&3), TestAnswer::GreaterThanZero);
    let owned: Branch = OwnedNode::Answer(TestAnswer::GreaterThanTen);
    assert!(matches!(Node::from(&owned), Node::Answer(TestAnswer::GreaterThanTen)));
    assert_eq!(Error::DecisionIsNotABranch.message(), "The decision is not a branch.");
    assert_eq!(Error::DecisionIsNotAAnswer.message(), "The decision is not an answer.");
}
