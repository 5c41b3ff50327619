//! Deciders that can be mixed in one tree.
use vstd::prelude::*;

use core::marker::PhantomData;
use core::ops::{Range, RangeFrom, RangeInclusive, RangeTo, RangeToInclusive};

use super::{Decider, Decision, Node, OwnedNode};

verus! {

/// Wraps a function from the input to the answer.
pub struct SimpleDecider<I, A, F> {
    pub func: F,
    pub marker: PhantomData<(I, A)>,
}

/// Takes one of two branches, depending on a predicate.
pub struct BinaryDecider<I, A, P, C, F> {
    pub predicate: P,
    pub on_true: OwnedNode<I, A, P, C, F>,
    pub on_false: OwnedNode<I, A, P, C, F>,
}

/// Takes the branch of the first predicate, in the order they were added, that holds of the
/// input; the default branch if none does.
pub struct PredicatedNodesDecider<I, A, P, C, F>(
    pub Vec<(P, OwnedNode<I, A, P, C, F>)>,
    pub OwnedNode<I, A, P, C, F>,
);

/// Takes the branch of the first container, in the order they were added, that contains the
/// input; the default branch if none does.
pub struct ContainsDecider<I, A, P, C, F>(
    pub Vec<(C, OwnedNode<I, A, P, C, F>)>,
    pub OwnedNode<I, A, P, C, F>,
);

impl<I, A, F: Fn(&I) -> A> SimpleDecider<I, A, F> {
    pub fn new(func: F) -> (r: Self)
        ensures
            r.func == func,
    {
        SimpleDecider { func, marker: PhantomData }
    }

    /// Calls the function and returns what it returned.
    pub fn decide(&self, input: &I) -> (r: A)
        requires
            call_requires(self.func, (input,)),
        ensures
            call_ensures(self.func, (input,), r),
    {
        (self.func)(input)
    }
}

impl<I, A: Clone, P: Fn(&I) -> bool, C: Container<I>, F: Fn(&I) -> A> BinaryDecider<
    I,
    A,
    P,
    C,
    F,
> {
    pub fn new(
        predicate: P,
        on_true: OwnedNode<I, A, P, C, F>,
        on_false: OwnedNode<I, A, P, C, F>,
    ) -> (r: Self)
        ensures
            r.predicate == predicate,
            r.on_true == on_true,
            r.on_false == on_false,
    {
        BinaryDecider { predicate, on_true, on_false }
    }

    /// Takes the true branch if the predicate holds of the input, else the false branch.
    pub fn decide<'a>(&'a self, input: &I) -> (r: Node<'a, I, A, P, C, F>)
        requires
            call_requires(self.predicate, (input,)),
        ensures
            call_ensures(self.predicate, (input,), true) && self.on_true.presents(r)
                || call_ensures(self.predicate, (input,), false) && self.on_false.presents(r),
    {
        if (self.predicate)(input) {
            Node::from(&self.on_true)
        } else {
            Node::from(&self.on_false)
        }
    }
}

impl<I, A: Clone, P: Fn(&I) -> bool, C: Container<I>, F: Fn(&I) -> A> PredicatedNodesDecider<
    I,
    A,
    P,
    C,
    F,
> {
    /// The predicate at index `j` holds of `input`, and none before it does.
    pub open spec fn first_match(self, j: int, input: I) -> bool {
        &&& 0 <= j < self.0.len()
        &&& call_ensures(self.0[j].0, (&input,), true)
        &&& forall|k: int| 0 <= k < j ==> call_ensures(#[trigger] self.0[k].0, (&input,), false)
    }

    /// No predicate holds of `input`.
    pub open spec fn no_match(self, input: I) -> bool {
        forall|k: int| 0 <= k < self.0.len() ==> call_ensures(#[trigger] self.0[k].0, (&input,), false)
    }

    /// Creates a decider with no predicates, which always takes `default`.
    pub fn new(default: OwnedNode<I, A, P, C, F>) -> (r: Self)
        ensures
            r.0@ == Seq::<(P, OwnedNode<I, A, P, C, F>)>::empty(),
            r.1 == default,
    {
        PredicatedNodesDecider(Vec::new(), default)
    }

    /// Adds a branch that is taken if `predicate` holds, after those already added.
    pub fn add_node(&mut self, predicate: P, node: OwnedNode<I, A, P, C, F>)
        ensures
            final(self).0@ == old(self).0@.push((predicate, node)),
            final(self).1 == old(self).1,
    {
        self.0.push((predicate, node));
    }

    /// Adds a branch that answers `answer` if `predicate` holds.
    pub fn add_answer(&mut self, predicate: P, answer: A)
        ensures
            final(self).0@ == old(self).0@.push((predicate, OwnedNode::Answer(answer))),
            final(self).1 == old(self).1,
    {
        self.add_node(predicate, OwnedNode::Answer(answer));
    }

    /// Adds a branch that continues to a new decision around `decider` if `predicate` holds.
    pub fn add_decision(&mut self, predicate: P, decider: Decider<I, A, P, C, F>)
        ensures
            final(self).0.len() == old(self).0.len() + 1,
            final(self).0@.drop_last() == old(self).0@,
            final(self).0@.last().0 == predicate,
            final(self).0@.last().1 matches OwnedNode::Decision(d) && *d.0 == decider,
            final(self).1 == old(self).1,
    {
        self.add_node(predicate, OwnedNode::Decision(Decision::new(decider)));
    }

    /// Tries the predicates in order and takes the branch of the first that holds; the
    /// default branch if none does. No predicate after the first that holds is called.
    pub fn decide<'a>(&'a self, input: &I) -> (r: Node<'a, I, A, P, C, F>)
        requires
            forall|j: int| 0 <= j < self.0.len() ==> call_requires(#[trigger] self.0[j].0, (input,)),
        ensures
            (exists|j: int| self.first_match(j, *input) && self.0[j].1.presents(r))
                || (self.no_match(*input) && self.1.presents(r)),
    {
        let mut i: usize = 0;
        while i < self.0.len()
            invariant
                0 <= i <= self.0.len(),
                forall|j: int| 0 <= j < self.0.len() ==> call_requires(#[trigger] self.0[j].0, (input,)),
                forall|k: int| 0 <= k < i ==> call_ensures(#[trigger] self.0[k].0, (input,), false),
            decreases self.0.len() - i,
        {
            let holds = (self.0[i].0)(input);
            if holds {
                let r = Node::from(&self.0[i].1);
                assert(self.first_match(i as int, *input));
                return r;
            }
            i += 1;
        }
        Node::from(&self.1)
    }
}

impl<I, A: Clone, P: Fn(&I) -> bool, C: Container<I>, F: Fn(&I) -> A> ContainsDecider<
    I,
    A,
    P,
    C,
    F,
> {
    /// The container at index `j` contains `input`, and none before it does.
    pub open spec fn first_match(self, j: int, input: I) -> bool {
        &&& 0 <= j < self.0.len()
        &&& self.0[j].0.has(input)
        &&& forall|k: int| 0 <= k < j ==> !(#[trigger] self.0[k].0).has(input)
    }

    /// No container contains `input`.
    pub open spec fn no_match(self, input: I) -> bool {
        forall|k: int| 0 <= k < self.0.len() ==> !(#[trigger] self.0[k].0).has(input)
    }

    /// Creates a decider with no containers, which always takes `default`.
    pub fn new(default: OwnedNode<I, A, P, C, F>) -> (r: Self)
        ensures
            r.0@ == Seq::<(C, OwnedNode<I, A, P, C, F>)>::empty(),
            r.1 == default,
    {
        ContainsDecider(Vec::new(), default)
    }

    /// Adds a branch that is taken if `container` contains the input, after those already
    /// added.
    pub fn add_container(&mut self, container: C, node: OwnedNode<I, A, P, C, F>)
        ensures
            final(self).0@ == old(self).0@.push((container, node)),
            final(self).1 == old(self).1,
    {
        self.0.push((container, node));
    }

    /// Adds a branch that answers `answer` if `container` contains the input.
    pub fn add_answer(&mut self, container: C, answer: A)
        ensures
            final(self).0@ == old(self).0@.push((container, OwnedNode::Answer(answer))),
            final(self).1 == old(self).1,
    {
        self.add_container(container, OwnedNode::Answer(answer));
    }

    /// Adds a branch that continues to a new decision around `decider` if `container`
    /// contains the input.
    pub fn add_decision(&mut self, container: C, decider: Decider<I, A, P, C, F>)
        ensures
            final(self).0.len() == old(self).0.len() + 1,
            final(self).0@.drop_last() == old(self).0@,
            final(self).0@.last().0 == container,
            final(self).0@.last().1 matches OwnedNode::Decision(d) && *d.0 == decider,
            final(self).1 == old(self).1,
    {
        self.add_container(container, OwnedNode::Decision(Decision::new(decider)));
    }

    /// Tries the containers in order and takes the branch of the first that contains the
    /// input; the default branch if none does.
    pub fn decide<'a>(&'a self, input: &I) -> (r: Node<'a, I, A, P, C, F>)
        ensures
            (exists|j: int| self.first_match(j, *input) && self.0[j].1.presents(r))
                || (self.no_match(*input) && self.1.presents(r)),
    {
        let mut i: usize = 0;
        while i < self.0.len()
            invariant
                0 <= i <= self.0.len(),
                forall|k: int| 0 <= k < i ==> !(#[trigger] self.0[k].0).has(*input),
            decreases self.0.len() - i,
        {
            if self.0[i].0.contains(input) {
                let r = Node::from(&self.0[i].1);
                assert(self.first_match(i as int, *input));
                return r;
            }
            i += 1;
        }
        Node::from(&self.1)
    }
}

/// A type that can test a value for membership.
pub trait Container<U> {
    /// Whether `value` is a member.
    spec fn has(&self, value: U) -> bool;

    /// Tests for membership.
    fn contains(&self, value: &U) -> (r: bool)
        ensures
            r == self.has(*value),
    ;
}

/// Makes std's `RangeFrom` known, with its public field `start`, so that contracts can read it.
#[verifier::external_type_specification]
#[verifier::reject_recursive_types(Idx)]
pub struct ExRangeFrom<Idx>(RangeFrom<Idx>);

/// Makes std's `RangeTo` known, with its public field `end`, so that contracts can read it.
#[verifier::external_type_specification]
#[verifier::reject_recursive_types(Idx)]
pub struct ExRangeTo<Idx>(RangeTo<Idx>);

/// Makes std's `RangeToInclusive` known, with its public field `end`, so that contracts can read
/// it.
#[verifier::external_type_specification]
#[verifier::reject_recursive_types(Idx)]
pub struct ExRangeToInclusive<Idx>(RangeToInclusive<Idx>);

/// `start..end`: from `start` included to `end` excluded.
impl Container<isize> for Range<isize> {
    open spec fn has(&self, value: isize) -> bool {
        self.start <= value < self.end
    }

    fn contains(&self, value: &isize) -> (r: bool) {
        self.start <= *value && *value < self.end
    }
}

/// `start..`: from `start` included on.
impl Container<isize> for RangeFrom<isize> {
    open spec fn has(&self, value: isize) -> bool {
        self.start <= value
    }

    fn contains(&self, value: &isize) -> (r: bool) {
        self.start <= *value
    }
}

/// `..end`: up to `end` excluded.
impl Container<isize> for RangeTo<isize> {
    open spec fn has(&self, value: isize) -> bool {
        value < self.end
    }

    fn contains(&self, value: &isize) -> (r: bool) {
        *value < self.end
    }
}

/// `..=end`: up to `end` included.
impl Container<isize> for RangeToInclusive<isize> {
    open spec fn has(&self, value: isize) -> bool {
        value <= self.end
    }

    fn contains(&self, value: &isize) -> (r: bool) {
        *value <= self.end
    }
}

/// `start..=end`: from `start` to `end`, both included. A range that iteration has used up
/// no longer contains its end.
impl Container<isize> for RangeInclusive<isize> {
    open spec fn has(&self, value: isize) -> bool {
        &&& self@.start <= value
        &&& if self@.exhausted {
            value < self@.end
        } else {
            value <= self@.end
        }
    }

    fn contains(&self, value: &isize) -> (r: bool) {
        RangeInclusive::contains(self, value)
    }
}

/// The values of the vector.
impl Container<isize> for Vec<isize> {
    open spec fn has(&self, value: isize) -> bool {
        self@.contains(value)
    }

    fn contains(&self, value: &isize) -> (r: bool) {
        let mut i: usize = 0;
        while i < self.len()
            invariant
                0 <= i <= self.len(),
                forall|k: int| 0 <= k < i ==> self@[k] != *value,
            decreases self.len() - i,
        {
            if self[i] == *value {
                return true;
            }
            i += 1;
        }
        false
    }
}

/// A half-open range holds its lower bound and not its upper bound; an inclusive range, not used
/// up by iteration, holds both of its bounds; a range with no lower bound holds its upper bound
/// only when inclusive; a range with no upper bound holds its lower bound.
pub proof fn lemma_range_bounds(
    half_open: Range<isize>,
    inclusive: RangeInclusive<isize>,
    up_to: RangeTo<isize>,
    up_to_inclusive: RangeToInclusive<isize>,
    from: RangeFrom<isize>,
)
    requires
        half_open.start < half_open.end,
        inclusive@.start <= inclusive@.end,
        !inclusive@.exhausted,
    ensures
        half_open.has(half_open.start),
        !half_open.has(half_open.end),
        inclusive.has(inclusive@.start),
        inclusive.has(inclusive@.end),
        !up_to.has(up_to.end),
        up_to_inclusive.has(up_to_inclusive.end),
        from.has(from.start),
{
}

/// Any of the containers above, so that one decider can mix them.
pub enum Membership {
    Range(Range<isize>),
    From(RangeFrom<isize>),
    To(RangeTo<isize>),
    Inclusive(RangeInclusive<isize>),
    ToInclusive(RangeToInclusive<isize>),
    Values(Vec<isize>),
}

impl Container<isize> for Membership {
    open spec fn has(&self, value: isize) -> bool {
        match self {
            Membership::Range(r) => r.has(value),
            Membership::From(r) => r.has(value),
            Membership::To(r) => r.has(value),
            Membership::Inclusive(r) => r.has(value),
            Membership::ToInclusive(r) => r.has(value),
            Membership::Values(v) => v.has(value),
        }
    }

    fn contains(&self, value: &isize) -> (r: bool) {
        match self {
            Membership::Range(r) => Container::contains(r, value),
            Membership::From(r) => Container::contains(r, value),
            Membership::To(r) => Container::contains(r, value),
            Membership::Inclusive(r) => Container::contains(r, value),
            Membership::ToInclusive(r) => Container::contains(r, value),
            Membership::Values(v) => Container::contains(v, value),
        }
    }
}

} // verus!
