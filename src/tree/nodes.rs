//! Decision points that own their children directly. A tree of them is built from one kind of
//! node, nested by value.
use vstd::prelude::*;

use std::collections::HashMap;
use std::hash::Hash;
use vstd::std_specs::hash::obeys_key_model;

verus! {

broadcast use vstd::std_specs::hash::group_hash_axioms;

/// A branch of a node: the final answer, or a child node to go on with.
pub enum Decision<I, A, P> {
    Action(A),
    Node(Box<Node<I, A, P>>),
}

/// A decision point that owns its branches. `I` is the input type, `A` the answer type and `P`
/// the type of the conditions.
pub enum Node<I, A, P> {
    Binary(BinaryNode<I, A, P>),
    Table(HashMapNode<I, A, P>),
    List(PredicateListNode<I, A, P>),
}

impl<I, A, P> Decision<I, A, P> {
    /// A branch that answers `action`.
    pub fn action(action: A) -> (r: Self)
        ensures
            r == Decision::<I, A, P>::Action(action),
    {
        Decision::Action(action)
    }

    /// A branch that goes on with `node`.
    pub fn node(node: Node<I, A, P>) -> (r: Self)
        ensures
            r == Decision::<I, A, P>::Node(Box::new(node)),
    {
        Decision::Node(Box::new(node))
    }
}

/// The owner of the root node of a tree of nodes.
pub struct Tree<I, A, P> {
    pub root: Node<I, A, P>,
}

impl<I, A: Clone, P: Fn(&I) -> bool> Decision<I, A, P> {
    /// Every condition that a traversal of this branch may test accepts `input`.
    pub open spec fn ready(self, input: I) -> bool
        decreases self, 0int,
    {
        match self {
            Decision::Action(_) => true,
            Decision::Node(n) => n.ready(input),
        }
    }

    /// `answer` is a possible outcome of a traversal of this branch on `input`.
    pub open spec fn yields(self, input: I, answer: A) -> bool
        decreases self, 0int,
    {
        match self {
            Decision::Action(a) => cloned(a, answer),
            Decision::Node(n) => n.yields(input, answer),
        }
    }
}

impl<I, A: Clone, P: Fn(&I) -> bool> Node<I, A, P> {
    /// Every condition that a traversal from this node may test accepts `input`.
    pub open spec fn ready(self, input: I) -> bool
        decreases self, 0int,
    {
        match self {
            Node::Binary(b) => {
                &&& call_requires(b.condition, (&input,))
                &&& b.on_true.ready(input)
                &&& b.on_false.ready(input)
            },
            Node::Table(t) => {
                &&& obeys_key_model::<I>()
                &&& t.1.ready(input)
                &&& t.0@.contains_key(input) ==> t.0@[input].ready(input)
            },
            Node::List(l) => l.ready_from(0, input),
        }
    }

    /// `answer` is a possible outcome of a traversal from this node on `input`.
    pub open spec fn yields(self, input: I, answer: A) -> bool
        decreases self, 0int,
    {
        match self {
            Node::Binary(b) => {
                ||| call_ensures(b.condition, (&input,), true) && b.on_true.yields(input, answer)
                ||| call_ensures(b.condition, (&input,), false) && b.on_false.yields(input, answer)
            },
            Node::Table(t) => if t.0@.contains_key(input) {
                t.0@[input].yields(input, answer)
            } else {
                t.1.yields(input, answer)
            },
            Node::List(l) => l.yields_from(0, input, answer),
        }
    }
}

impl<I, A: Clone, P: Fn(&I) -> bool> PredicateListNode<I, A, P> {
    /// The conditions from index `j` on, and every branch from there and the default, accept
    /// `input`.
    pub open spec fn ready_from(self, j: int, input: I) -> bool
        decreases self, self.0.len() - j,
    {
        if j < 0 || j >= self.0.len() {
            self.1.ready(input)
        } else {
            &&& call_requires(self.0[j].0, (&input,))
            &&& self.0[j].1.ready(input)
            &&& self.ready_from(j + 1, input)
        }
    }

    /// `answer` is a possible outcome when the conditions are tested from index `j` on.
    pub open spec fn yields_from(self, j: int, input: I, answer: A) -> bool
        decreases self, self.0.len() - j,
    {
        if j < 0 || j >= self.0.len() {
            self.1.yields(input, answer)
        } else {
            ||| call_ensures(self.0[j].0, (&input,), true) && self.0[j].1.yields(input, answer)
            ||| call_ensures(self.0[j].0, (&input,), false) && self.yields_from(j + 1, input, answer)
        }
    }
}

impl<I, A: Clone, P: Fn(&I) -> bool> Node<I, A, P> {
    proof fn lemma_ready_accepts(self, input: I)
        requires
            self.ready(input),
        ensures
            self.accepts(input),
    {
        if let Node::List(l) = self {
            l.lemma_ready_from(0, input);
        }
    }

    /// A branch that this node picks for `input` lies below it, can itself be traversed, and
    /// leads only to outcomes of this node.
    pub proof fn lemma_pick_step(self, input: I, d: Decision<I, A, P>)
        requires
            self.ready(input),
            self.picks(input, d),
        ensures
            d.ready(input),
            forall|a: A| d.yields(input, a) ==> self.yields(input, a),
            decreases_to!(self => d),
    {
        match self {
            Node::Binary(b) => {},
            Node::Table(t) => {},
            Node::List(l) => {
                l.lemma_ready_from(0, input);
                if exists|j: int| l.first_match(j, input) && d == l.0[j].1 {
                    let j = choose|j: int| l.first_match(j, input) && d == l.0[j].1;
                    assert forall|a: A| d.yields(input, a) implies self.yields(input, a) by {
                        l.lemma_yields_first(0, j, input, a);
                    }
                } else {
                    assert forall|a: A| d.yields(input, a) implies self.yields(input, a) by {
                        l.lemma_yields_default(0, input, a);
                    }
                }
            },
        }
    }
}

impl<I, A: Clone, P: Fn(&I) -> bool> PredicateListNode<I, A, P> {
    proof fn lemma_ready_from(self, j0: int, input: I)
        requires
            0 <= j0,
            self.ready_from(j0, input),
        ensures
            forall|j: int| j0 <= j < self.0.len() ==> call_requires(#[trigger] self.0[j].0, (&input,)),
            forall|j: int| j0 <= j < self.0.len() ==> (#[trigger] self.0[j]).1.ready(input),
            self.1.ready(input),
        decreases self.0.len() - j0,
    {
        if j0 < self.0.len() {
            self.lemma_ready_from(j0 + 1, input);
        }
    }

    proof fn lemma_yields_first(self, j0: int, j: int, input: I, answer: A)
        requires
            0 <= j0 <= j < self.0.len(),
            call_ensures(self.0[j].0, (&input,), true),
            forall|k: int| j0 <= k < j ==> call_ensures(#[trigger] self.0[k].0, (&input,), false),
            self.0[j].1.yields(input, answer),
        ensures
            self.yields_from(j0, input, answer),
        decreases j - j0,
    {
        if j0 < j {
            self.lemma_yields_first(j0 + 1, j, input, answer);
        }
    }

    proof fn lemma_yields_default(self, j0: int, input: I, answer: A)
        requires
            0 <= j0,
            forall|k: int| j0 <= k < self.0.len() ==> call_ensures(#[trigger] self.0[k].0, (&input,), false),
            self.1.yields(input, answer),
        ensures
            self.yields_from(j0, input, answer),
        decreases self.0.len() - j0,
    {
        if j0 < self.0.len() {
            self.lemma_yields_default(j0 + 1, input, answer);
        }
    }
}

impl<I: Hash + Eq, A: Clone, P: Fn(&I) -> bool> Tree<I, A, P> {
    /// A tree that owns `root`.
    pub fn new(root: Node<I, A, P>) -> (r: Self)
        ensures
            r.root == root,
    {
        Tree { root }
    }

    /// Walks from the root, taking the branch each node picks, until a branch answers.
    pub fn decide(&self, input: &I) -> (r: A)
        requires
            self.root.ready(*input),
        ensures
            self.root.yields(*input, r),
    {
        let mut node: &Node<I, A, P> = &self.root;
        loop
            invariant
                node.ready(*input),
                forall|a: A| node.yields(*input, a) ==> self.root.yields(*input, a),
            decreases *node,
        {
            proof {
                node.lemma_ready_accepts(*input);
            }
            let d = node.decide(input);
            proof {
                node.lemma_pick_step(*input, *d);
            }
            match d {
                Decision::Action(a) => {
                    let r = a.clone();
                    assert(d.yields(*input, r));
                    return r;
                },
                Decision::Node(n) => {
                    assert forall|a: A| n.yields(*input, a) implies self.root.yields(*input, a) by {
                        assert(d.yields(*input, a));
                    }
                    node = n;
                },
            }
        }
    }
}

/// A node that picks one of two branches by a condition on the input.
pub struct BinaryNode<I, A, P> {
    pub condition: P,
    pub on_true: Decision<I, A, P>,
    pub on_false: Decision<I, A, P>,
}

/// A node that looks its branch up in a table keyed by the input, with a default branch for
/// inputs that the table does not hold.
pub struct HashMapNode<I, A, P>(pub HashMap<I, Decision<I, A, P>>, pub Decision<I, A, P>);

/// A node that takes the branch of the first condition, in the order they were added, that holds
/// of the input; the default branch if none does.
pub struct PredicateListNode<I, A, P>(pub Vec<(P, Decision<I, A, P>)>, pub Decision<I, A, P>);

/// The branch that a table with a default gives for `input`.
pub open spec fn lookup<I, D>(table: Map<I, D>, fallback: D, input: I) -> D {
    if table.contains_key(input) {
        table[input]
    } else {
        fallback
    }
}

impl<I, A, P: Fn(&I) -> bool> Node<I, A, P> {
    /// Every condition that picking a branch for `input` may test accepts it.
    pub open spec fn accepts(self, input: I) -> bool {
        match self {
            Node::Binary(b) => call_requires(b.condition, (&input,)),
            Node::Table(_) => true,
            Node::List(l) => forall|j: int|
                0 <= j < l.0.len() ==> call_requires(#[trigger] l.0[j].0, (&input,)),
        }
    }

    /// `d` is a branch that may be picked for `input`.
    pub open spec fn picks(self, input: I, d: Decision<I, A, P>) -> bool {
        match self {
            Node::Binary(b) => b.picks(input, d),
            Node::Table(t) => obeys_key_model::<I>() ==> d == lookup(t.0@, t.1, input),
            Node::List(l) => l.picks(input, d),
        }
    }
}

impl<I: Hash + Eq, A, P: Fn(&I) -> bool> Node<I, A, P> {
    /// Picks the branch for `input`.
    pub fn decide(&self, input: &I) -> (r: &Decision<I, A, P>)
        requires
            self.accepts(*input),
        ensures
            self.picks(*input, *r),
    {
        match self {
            Node::Binary(b) => b.decide(input),
            Node::Table(t) => t.decide(input),
            Node::List(l) => l.decide(input),
        }
    }
}

impl<I, A, P: Fn(&I) -> bool> BinaryNode<I, A, P> {
    pub fn new(condition: P, on_true: Decision<I, A, P>, on_false: Decision<I, A, P>) -> (r: Self)
        ensures
            r.condition == condition,
            r.on_true == on_true,
            r.on_false == on_false,
    {
        BinaryNode { condition, on_true, on_false }
    }

    /// The true branch where the condition holds, the false branch where it does not.
    pub open spec fn picks(self, input: I, d: Decision<I, A, P>) -> bool {
        ||| call_ensures(self.condition, (&input,), true) && d == self.on_true
        ||| call_ensures(self.condition, (&input,), false) && d == self.on_false
    }

    /// Tests the condition and picks the matching branch.
    pub fn decide(&self, input: &I) -> (r: &Decision<I, A, P>)
        requires
            call_requires(self.condition, (input,)),
        ensures
            self.picks(*input, *r),
    {
        if (self.condition)(input) {
            &self.on_true
        } else {
            &self.on_false
        }
    }
}

/// A node that looks its branch up in a table keyed by the input, with a default branch.
pub trait MappingNode<I, A, P> {
    /// Lookups go by the key's own equality.
    spec fn keyed() -> bool;

    /// The table of branches.
    spec fn table(&self) -> Map<I, Decision<I, A, P>>;

    /// The branch for inputs that the table does not hold.
    spec fn fallback(&self) -> Decision<I, A, P>;

    /// Sets the branch for `value`, in place of any branch it had.
    fn add_decision(&mut self, value: I, decision: Decision<I, A, P>)
        ensures
            Self::keyed() ==> final(self).table() == old(self).table().insert(value, decision),
            final(self).fallback() == old(self).fallback(),
    ;

    /// The branch for inputs that the table does not hold.
    fn default_decision(&self) -> (r: &Decision<I, A, P>)
        ensures
            *r == self.fallback(),
    ;

    /// The branch the table holds for `input`, if any.
    fn get_decision(&self, input: &I) -> (r: Option<&Decision<I, A, P>>)
        ensures
            Self::keyed() ==> match r {
                Some(d) => self.table().contains_key(*input) && *d == self.table()[*input],
                None => !self.table().contains_key(*input),
            },
    ;

    /// Sets `value` to answer `action`.
    fn add_action(&mut self, value: I, action: A)
        ensures
            Self::keyed() ==> final(self).table() == old(self).table().insert(
                value,
                Decision::Action(action),
            ),
            final(self).fallback() == old(self).fallback(),
    {
        self.add_decision(value, Decision::action(action));
    }

    /// Sets `value` to go on with `node`.
    fn add_node(&mut self, value: I, node: Node<I, A, P>)
        ensures
            Self::keyed() ==> final(self).table() == old(self).table().insert(
                value,
                Decision::Node(Box::new(node)),
            ),
            final(self).fallback() == old(self).fallback(),
    {
        self.add_decision(value, Decision::node(node));
    }

    /// The branch the table holds for `input`, else the default branch.
    fn decide_mapped(&self, input: &I) -> (r: &Decision<I, A, P>)
        ensures
            Self::keyed() ==> *r == lookup(self.table(), self.fallback(), *input),
    {
        match self.get_decision(input) {
            Some(d) => d,
            None => self.default_decision(),
        }
    }
}

impl<I: Hash + Eq, A, P> HashMapNode<I, A, P> {
    /// A node with an empty table, which always picks `default`.
    pub fn new(default: Decision<I, A, P>) -> (r: Self)
        ensures
            r.0@ == Map::<I, Decision<I, A, P>>::empty(),
            r.1 == default,
    {
        HashMapNode(HashMap::new(), default)
    }

    /// The branch the table holds for `input`, else the default branch.
    pub fn decide(&self, input: &I) -> (r: &Decision<I, A, P>)
        ensures
            obeys_key_model::<I>() ==> *r == lookup(self.0@, self.1, *input),
    {
        self.decide_mapped(input)
    }
}

impl<I: Hash + Eq, A, P> MappingNode<I, A, P> for HashMapNode<I, A, P> {
    open spec fn keyed() -> bool {
        obeys_key_model::<I>()
    }

    open spec fn table(&self) -> Map<I, Decision<I, A, P>> {
        self.0@
    }

    open spec fn fallback(&self) -> Decision<I, A, P> {
        self.1
    }

    fn add_decision(&mut self, value: I, decision: Decision<I, A, P>) {
        self.0.insert(value, decision);
    }

    fn get_decision(&self, input: &I) -> (r: Option<&Decision<I, A, P>>) {
        self.0.get(input)
    }

    fn default_decision(&self) -> (r: &Decision<I, A, P>) {
        &self.1
    }
}

/// Adding a branch under a key to a table node: the key then looks up to that branch, whether or
/// not it had one before; a key it had before keeps the table's set of keys as it was, so no
/// entry is duplicated; every other key looks up as before; and a key the table does not hold
/// looks up to the default branch.
pub proof fn lemma_add_then_get<I: Hash + Eq, A, P>(
    before: HashMapNode<I, A, P>,
    after: HashMapNode<I, A, P>,
    key: I,
    decision: Decision<I, A, P>,
    other: I,
)
    requires
        obeys_key_model::<I>(),
        after.table() == before.table().insert(key, decision),
        after.fallback() == before.fallback(),
    ensures
        after.table().contains_key(key),
        after.table()[key] == decision,
        lookup(after.table(), after.fallback(), key) == decision,
        after.table().dom() == before.table().dom().insert(key),
        before.table().contains_key(key) ==> after.table().dom() == before.table().dom(),
        other != key ==> lookup(after.table(), after.fallback(), other) == lookup(
            before.table(),
            before.fallback(),
            other,
        ),
        !after.table().contains_key(other) ==> lookup(after.table(), after.fallback(), other)
            == after.fallback(),
{
    if before.table().contains_key(key) {
        assert(before.table().dom().insert(key) =~= before.table().dom());
    }
}

impl<I, A, P: Fn(&I) -> bool> PredicateListNode<I, A, P> {
    /// A node with no conditions, which always picks `default`.
    pub fn new(default: Decision<I, A, P>) -> (r: Self)
        ensures
            r.0@ == Seq::<(P, Decision<I, A, P>)>::empty(),
            r.1 == default,
    {
        PredicateListNode(Vec::new(), default)
    }

    /// Adds a branch that is picked if `predicate` holds, after those already added.
    pub fn add_decision(&mut self, predicate: P, decision: Decision<I, A, P>)
        ensures
            final(self).0@ == old(self).0@.push((predicate, decision)),
            final(self).1 == old(self).1,
    {
        self.0.push((predicate, decision));
    }

    /// Adds a branch that answers `action` if `predicate` holds.
    pub fn add_action(&mut self, predicate: P, action: A)
        ensures
            final(self).0@ == old(self).0@.push((predicate, Decision::Action(action))),
            final(self).1 == old(self).1,
    {
        self.add_decision(predicate, Decision::action(action));
    }

    /// Adds a branch that goes on with `node` if `predicate` holds.
    pub fn add_node(&mut self, predicate: P, node: Node<I, A, P>)
        ensures
            final(self).0@ == old(self).0@.push((predicate, Decision::Node(Box::new(node)))),
            final(self).1 == old(self).1,
    {
        self.add_decision(predicate, Decision::node(node));
    }

    /// The condition at index `j` holds of `input`, and none before it does.
    pub open spec fn first_match(self, j: int, input: I) -> bool {
        &&& 0 <= j < self.0.len()
        &&& call_ensures(self.0[j].0, (&input,), true)
        &&& forall|k: int| 0 <= k < j ==> call_ensures(#[trigger] self.0[k].0, (&input,), false)
    }

    /// No condition holds of `input`.
    pub open spec fn no_match(self, input: I) -> bool {
        forall|k: int| 0 <= k < self.0.len() ==> call_ensures(#[trigger] self.0[k].0, (&input,), false)
    }

    /// The branch of the first condition that holds, else the default branch.
    pub open spec fn picks(self, input: I, d: Decision<I, A, P>) -> bool {
        ||| exists|j: int| self.first_match(j, input) && d == self.0[j].1
        ||| self.no_match(input) && d == self.1
    }

    /// Tests the conditions in order and picks the branch of the first that holds; the default
    /// branch if none does. No condition after the first that holds is tested.
    pub fn decide(&self, input: &I) -> (r: &Decision<I, A, P>)
        requires
            forall|j: int| 0 <= j < self.0.len() ==> call_requires(#[trigger] self.0[j].0, (input,)),
        ensures
            self.picks(*input, *r),
    {
        let mut i: usize = 0;
        while i < self.0.len()
            invariant
                0 <= i <= self.0.len(),
                forall|j: int| 0 <= j < self.0.len() ==> call_requires(#[trigger] self.0[j].0, (input,)),
                forall|k: int| 0 <= k < i ==> call_ensures(#[trigger] self.0[k].0, (input,), false),
            decreases self.0.len() - i,
        {
            if (self.0[i].0)(input) {
                assert(self.first_match(i as int, *input));
                return &self.0[i].1;
            }
            i += 1;
        }
        &self.1
    }
}

} // verus!
