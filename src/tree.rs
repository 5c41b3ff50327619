//! The decision model and the traversal of a tree of deciders.
use vstd::prelude::*;

use crate::error::{Error, Result};

pub mod deciders;
pub mod nodes;

use deciders::{BinaryDecider, Container, ContainsDecider, PredicatedNodesDecider, SimpleDecider};

verus! {

/// What one decision step produces: either the next decision to consult, or the final answer.
pub enum Node<'a, I, A, P, C, F> {
    Decision(&'a Decision<I, A, P, C, F>),
    Answer(A),
}

/// Like [`Node`], but owning the decision it continues to. A branch of a decider is stored as
/// one of these and is turned into a [`Node`] each time it is taken.
pub enum OwnedNode<I, A, P, C, F> {
    Decision(Decision<I, A, P, C, F>),
    Answer(A),
}

/// The decision strategies that a tree may mix freely.
///
/// `P` is the type of the predicates, `C` the type of the containers and `F` the type of the
/// functions that the deciders hold.
pub enum Decider<I, A, P, C, F> {
    Simple(SimpleDecider<I, A, F>),
    Binary(BinaryDecider<I, A, P, C, F>),
    Predicated(PredicatedNodesDecider<I, A, P, C, F>),
    Contains(ContainsDecider<I, A, P, C, F>),
}

/// A decision to be made: the owner of one decider, and through it of the whole tree below.
pub struct Decision<I, A, P, C, F>(pub Box<Decider<I, A, P, C, F>>);

impl<I, A: Clone, P: Fn(&I) -> bool, C: Container<I>, F: Fn(&I) -> A> OwnedNode<I, A, P, C, F> {
    /// Every function and predicate that a traversal of this branch may call accepts `input`.
    pub open spec fn ready(self, input: I) -> bool
        decreases self, 0int,
    {
        match self {
            OwnedNode::Decision(d) => d.ready(input),
            OwnedNode::Answer(_) => true,
        }
    }

    /// `answer` is a possible outcome of a traversal of this branch on `input`.
    pub open spec fn yields(self, input: I, answer: A) -> bool
        decreases self, 0int,
    {
        match self {
            OwnedNode::Decision(d) => d.yields(input, answer),
            OwnedNode::Answer(a) => cloned(a, answer),
        }
    }

    /// `n` is this branch taken: the same decision, or a clone of the answer.
    pub open spec fn presents(self, n: Node<I, A, P, C, F>) -> bool {
        match self {
            OwnedNode::Decision(d) => n is Decision && *(n->Decision_0) == d,
            OwnedNode::Answer(a) => n is Answer && cloned(a, n->Answer_0),
        }
    }
}

impl<I, A: Clone, P: Fn(&I) -> bool, C: Container<I>, F: Fn(&I) -> A> Decision<I, A, P, C, F> {
    pub open spec fn ready(self, input: I) -> bool
        decreases self, 0int,
    {
        (*self.0).ready(input)
    }

    pub open spec fn yields(self, input: I, answer: A) -> bool
        decreases self, 0int,
    {
        (*self.0).yields(input, answer)
    }
}

impl<I, A: Clone, P: Fn(&I) -> bool, C: Container<I>, F: Fn(&I) -> A> Decider<I, A, P, C, F> {
    pub open spec fn ready(self, input: I) -> bool
        decreases self, 0int,
    {
        match self {
            Decider::Simple(s) => call_requires(s.func, (&input,)),
            Decider::Binary(b) => {
                &&& call_requires(b.predicate, (&input,))
                &&& b.on_true.ready(input)
                &&& b.on_false.ready(input)
            },
            Decider::Predicated(p) => p.ready_from(0, input),
            Decider::Contains(c) => c.ready_from(0, input),
        }
    }

    pub open spec fn yields(self, input: I, answer: A) -> bool
        decreases self, 0int,
    {
        match self {
            Decider::Simple(s) => call_ensures(s.func, (&input,), answer),
            Decider::Binary(b) => {
                ||| call_ensures(b.predicate, (&input,), true) && b.on_true.yields(input, answer)
                ||| call_ensures(b.predicate, (&input,), false) && b.on_false.yields(input, answer)
            },
            Decider::Predicated(p) => p.yields_from(0, input, answer),
            Decider::Contains(c) => c.yields_from(0, input, answer),
        }
    }
}

impl<I, A: Clone, P: Fn(&I) -> bool, C: Container<I>, F: Fn(&I) -> A> PredicatedNodesDecider<
    I,
    A,
    P,
    C,
    F,
> {
    /// The predicates from index `j` on, and every branch from there and the default, accept
    /// `input`.
    pub open spec fn ready_from(self, j: int, input: I) -> bool
        decreases self, self.0.len() - j,
    {
        if j < 0 || j >= self.0.len() {
            self.1.ready(input)
        } else {
            &&& call_requires(self.0[j].0, (&input,))
            &&& self.0[j].1.ready(input)
            &&& self.ready_from(j + 1, input)
        }
    }

    /// `answer` is a possible outcome when the predicates are tried from index `j` on.
    pub open spec fn yields_from(self, j: int, input: I, answer: A) -> bool
        decreases self, self.0.len() - j,
    {
        if j < 0 || j >= self.0.len() {
            self.1.yields(input, answer)
        } else {
            ||| call_ensures(self.0[j].0, (&input,), true) && self.0[j].1.yields(input, answer)
            ||| call_ensures(self.0[j].0, (&input,), false) && self.yields_from(j + 1, input, answer)
        }
    }
}

impl<I, A: Clone, P: Fn(&I) -> bool, C: Container<I>, F: Fn(&I) -> A> PredicatedNodesDecider<
    I,
    A,
    P,
    C,
    F,
> {
    proof fn lemma_ready_from(self, j0: int, input: I)
        requires
            0 <= j0,
            self.ready_from(j0, input),
        ensures
            forall|j: int| j0 <= j < self.0.len() ==> call_requires(#[trigger] self.0[j].0, (&input,)),
            forall|j: int| j0 <= j < self.0.len() ==> (#[trigger] self.0[j]).1.ready(input),
            self.1.ready(input),
        decreases self.0.len() - j0,
    {
        if j0 < self.0.len() {
            self.lemma_ready_from(j0 + 1, input);
        }
    }

    proof fn lemma_yields_first(self, j0: int, j: int, input: I, answer: A)
        requires
            0 <= j0 <= j < self.0.len(),
            call_ensures(self.0[j].0, (&input,), true),
            forall|k: int| j0 <= k < j ==> call_ensures(#[trigger] self.0[k].0, (&input,), false),
            self.0[j].1.yields(input, answer),
        ensures
            self.yields_from(j0, input, answer),
        decreases j - j0,
    {
        if j0 < j {
            self.lemma_yields_first(j0 + 1, j, input, answer);
        }
    }

    proof fn lemma_yields_default(self, j0: int, input: I, answer: A)
        requires
            0 <= j0,
            forall|k: int| j0 <= k < self.0.len() ==> call_ensures(#[trigger] self.0[k].0, (&input,), false),
            self.1.yields(input, answer),
        ensures
            self.yields_from(j0, input, answer),
        decreases self.0.len() - j0,
    {
        if j0 < self.0.len() {
            self.lemma_yields_default(j0 + 1, input, answer);
        }
    }
}

impl<I, A: Clone, P: Fn(&I) -> bool, C: Container<I>, F: Fn(&I) -> A> ContainsDecider<
    I,
    A,
    P,
    C,
    F,
> {
    proof fn lemma_ready_from(self, j0: int, input: I)
        requires
            0 <= j0,
            self.ready_from(j0, input),
        ensures
            forall|j: int| j0 <= j < self.0.len() ==> (#[trigger] self.0[j]).1.ready(input),
            self.1.ready(input),
        decreases self.0.len() - j0,
    {
        if j0 < self.0.len() {
            self.lemma_ready_from(j0 + 1, input);
        }
    }

    proof fn lemma_yields_first(self, j0: int, j: int, input: I, answer: A)
        requires
            0 <= j0 <= j < self.0.len(),
            self.0[j].0.has(input),
            forall|k: int| j0 <= k < j ==> !(#[trigger] self.0[k].0).has(input),
            self.0[j].1.yields(input, answer),
        ensures
            self.yields_from(j0, input, answer),
        decreases j - j0,
    {
        if j0 < j {
            self.lemma_yields_first(j0 + 1, j, input, answer);
        }
    }

    proof fn lemma_yields_default(self, j0: int, input: I, answer: A)
        requires
            0 <= j0,
            forall|k: int| j0 <= k < self.0.len() ==> !(#[trigger] self.0[k].0).has(input),
            self.1.yields(input, answer),
        ensures
            self.yields_from(j0, input, answer),
        decreases self.0.len() - j0,
    {
        if j0 < self.0.len() {
            self.lemma_yields_default(j0 + 1, input, answer);
        }
    }
}

impl<I, A: Clone, P: Fn(&I) -> bool, C: Container<I>, F: Fn(&I) -> A> ContainsDecider<
    I,
    A,
    P,
    C,
    F,
> {
    /// Every branch from index `j` on, and the default, accepts `input`.
    pub open spec fn ready_from(self, j: int, input: I) -> bool
        decreases self, self.0.len() - j,
    {
        if j < 0 || j >= self.0.len() {
            self.1.ready(input)
        } else {
            self.0[j].1.ready(input) && self.ready_from(j + 1, input)
        }
    }

    /// `answer` is a possible outcome when the containers are tried from index `j` on.
    pub open spec fn yields_from(self, j: int, input: I, answer: A) -> bool
        decreases self, self.0.len() - j,
    {
        if j < 0 || j >= self.0.len() {
            self.1.yields(input, answer)
        } else if self.0[j].0.has(input) {
            self.0[j].1.yields(input, answer)
        } else {
            self.yields_from(j + 1, input, answer)
        }
    }
}

impl<'a, I, A: Clone, P: Fn(&I) -> bool, C: Container<I>, F: Fn(&I) -> A> Node<'a, I, A, P, C, F> {
    /// Takes a branch: borrows the decision it holds, or clones its answer.
    pub fn from(value: &'a OwnedNode<I, A, P, C, F>) -> (r: Node<'a, I, A, P, C, F>)
        ensures
            value.presents(r),
    {
        match value {
            OwnedNode::Decision(d) => Node::Decision(d),
            OwnedNode::Answer(a) => Node::Answer(a.clone()),
        }
    }

    /// The answer this node holds.
    pub fn answer(self) -> (r: Result<A>)
        ensures
            match self {
                Node::Answer(a) => r == Ok::<A, Error>(a),
                Node::Decision(_) => r == Err::<A, Error>(Error::DecisionIsNotAAnswer),
            },
    {
        match self {
            Node::Answer(a) => Ok(a),
            Node::Decision(_) => Err(Error::DecisionIsNotAAnswer),
        }
    }

    /// The decision this node continues to.
    pub fn branch(self) -> (r: Result<&'a Decision<I, A, P, C, F>>)
        ensures
            match self {
                Node::Decision(d) => r == Ok::<&'a Decision<I, A, P, C, F>, Error>(d),
                Node::Answer(_) => r == Err::<&'a Decision<I, A, P, C, F>, Error>(
                    Error::DecisionIsNotABranch,
                ),
            },
    {
        match self {
            Node::Decision(d) => Ok(d),
            Node::Answer(_) => Err(Error::DecisionIsNotABranch),
        }
    }
}

impl<I, A: Clone, P: Fn(&I) -> bool, C: Container<I>, F: Fn(&I) -> A> OwnedNode<I, A, P, C, F> {
    /// A branch that is taken as `n` leads to the same answers.
    pub proof fn lemma_presents_step(self, input: I, n: Node<I, A, P, C, F>)
        requires
            self.presents(n),
            self.ready(input),
        ensures
            match n {
                Node::Answer(a) => self.yields(input, a),
                Node::Decision(d) => d.ready(input) && forall|a: A|
                    d.yields(input, a) ==> self.yields(input, a),
            },
    {
    }
}

impl<I, A: Clone, P: Fn(&I) -> bool, C: Container<I>, F: Fn(&I) -> A> Decider<I, A, P, C, F> {
    /// One decision step. An answer it gives is an outcome of this decider; a decision it
    /// continues to lies below this decider, and its outcomes are outcomes of this decider.
    pub fn decide<'a>(&'a self, input: &I) -> (r: Node<'a, I, A, P, C, F>)
        requires
            self.ready(*input),
        ensures
            match r {
                Node::Answer(a) => self.yields(*input, a),
                Node::Decision(d) => {
                    &&& d.ready(*input)
                    &&& forall|a: A| d.yields(*input, a) ==> self.yields(*input, a)
                    &&& decreases_to!(*self => *d)
                },
            },
    {
        match self {
            Decider::Simple(s) => {
                Node::Answer(s.decide(input))
            },
            Decider::Binary(b) => {
                let r = b.decide(input);
                proof {
                    if call_ensures(b.predicate, (input,), true) && b.on_true.presents(r) {
                        b.on_true.lemma_presents_step(*input, r);
                    } else {
                        b.on_false.lemma_presents_step(*input, r);
                    }
                }
                r
            },
            Decider::Predicated(p) => {
                proof {
                    p.lemma_ready_from(0, *input);
                }
                let r = p.decide(input);
                proof {
                    if exists|j: int| p.first_match(j, *input) && p.0[j].1.presents(r) {
                        let j = choose|j: int| p.first_match(j, *input) && p.0[j].1.presents(r);
                        p.0[j].1.lemma_presents_step(*input, r);
                        assert forall|a: A| p.0[j].1.yields(*input, a) implies self.yields(*input, a) by {
                            p.lemma_yields_first(0, j, *input, a);
                        }
                    } else {
                        p.1.lemma_presents_step(*input, r);
                        assert forall|a: A| p.1.yields(*input, a) implies self.yields(*input, a) by {
                            p.lemma_yields_default(0, *input, a);
                        }
                    }
                }
                r
            },
            Decider::Contains(c) => {
                proof {
                    c.lemma_ready_from(0, *input);
                }
                let r = c.decide(input);
                proof {
                    if exists|j: int| c.first_match(j, *input) && c.0[j].1.presents(r) {
                        let j = choose|j: int| c.first_match(j, *input) && c.0[j].1.presents(r);
                        c.0[j].1.lemma_presents_step(*input, r);
                        assert forall|a: A| c.0[j].1.yields(*input, a) implies self.yields(*input, a) by {
                            c.lemma_yields_first(0, j, *input, a);
                        }
                    } else {
                        c.1.lemma_presents_step(*input, r);
                        assert forall|a: A| c.1.yields(*input, a) implies self.yields(*input, a) by {
                            c.lemma_yields_default(0, *input, a);
                        }
                    }
                }
                r
            },
        }
    }
}

impl<I, A: Clone, P: Fn(&I) -> bool, C: Container<I>, F: Fn(&I) -> A> Decision<I, A, P, C, F> {
    /// Creates a decision around the given decider.
    pub fn new(decider: Decider<I, A, P, C, F>) -> (r: Self)
        ensures
            *r.0 == decider,
    {
        Decision(Box::new(decider))
    }

    /// Runs the decision, going through child decisions until an answer is reached.
    pub fn decide(&self, input: &I) -> (r: A)
        requires
            self.ready(*input),
        ensures
            self.yields(*input, r),
    {
        let mut decision: &Decision<I, A, P, C, F> = self;
        loop
            invariant
                decision.ready(*input),
                forall|a: A| decision.yields(*input, a) ==> self.yields(*input, a),
            decreases *decision,
        {
            match decision.0.decide(input) {
                Node::Answer(a) => return a,
                Node::Decision(d) => decision = d,
            }
        }
    }
}

} // verus!
