//! Data sets of labelled examples, fed to tree-building algorithms.
use vstd::prelude::*;

use core::marker::PhantomData;
use std::collections::{BTreeMap, HashMap};
use std::hash::Hash;
use vstd::laws_cmp::obeys_cmp;
use vstd::std_specs::hash::obeys_key_model;
use vstd::std_specs::iter::IteratorSpec;

verus! {

broadcast use vstd::std_specs::hash::group_hash_axioms;

/// A bag of attributes, each looked up by its label.
pub trait Attributes<L, V> {
    /// The bag has a value for `key`.
    spec fn has_attribute(&self, key: L) -> bool;

    /// The value for `key`.
    spec fn attribute(&self, key: L) -> V;

    /// The value for `key`, which the bag must have.
    fn get_attribute(&self, key: &L) -> (r: &V)
        requires
            self.has_attribute(*key),
        ensures
            *r == self.attribute(*key),
    ;
}

impl<L: Ord, V> Attributes<L, V> for BTreeMap<L, V> {
    open spec fn has_attribute(&self, key: L) -> bool {
        obeys_cmp::<L>() && self@.contains_key(key)
    }

    open spec fn attribute(&self, key: L) -> V {
        self@[key]
    }

    fn get_attribute(&self, key: &L) -> (r: &V) {
        self.get(key).unwrap()
    }
}

impl<L: Hash + Eq, V> Attributes<L, V> for HashMap<L, V> {
    open spec fn has_attribute(&self, key: L) -> bool {
        obeys_key_model::<L>() && self@.contains_key(key)
    }

    open spec fn attribute(&self, key: L) -> V {
        self@[key]
    }

    fn get_attribute(&self, key: &L) -> (r: &V) {
        self.get(key).unwrap()
    }
}

/// A set of data: entries of an [`Attributes`] bag and a result, with the labels of the
/// attributes and the results an entry may have.
pub struct DataSet<A, R, L, V> {
    data: Vec<(A, R)>,
    labels: Vec<L>,
    possible_results: Vec<R>,
    marker: PhantomData<V>,
}

impl<A: Attributes<L, V>, R, L, V> DataSet<A, R, L, V> {
    /// The entries, in the order they were added.
    pub closed spec fn entries(&self) -> Seq<(A, R)> {
        self.data@
    }

    /// The labels of the attributes.
    pub closed spec fn spec_labels(&self) -> Seq<L> {
        self.labels@
    }

    /// The results an entry may have.
    pub closed spec fn spec_possible_results(&self) -> Seq<R> {
        self.possible_results@
    }

    /// An empty data set over the given labels and results.
    pub fn new(labels: Vec<L>, possible_results: Vec<R>) -> (r: Self)
        ensures
            r.entries() == Seq::<(A, R)>::empty(),
            r.spec_labels() == labels@,
            r.spec_possible_results() == possible_results@,
    {
        DataSet { data: Vec::new(), labels, possible_results, marker: PhantomData }
    }

    pub fn possible_results(&self) -> (r: &[R])
        ensures
            r@ == self.spec_possible_results(),
    {
        self.possible_results.as_slice()
    }

    pub fn labels(&self) -> (r: &[L])
        ensures
            r@ == self.spec_labels(),
    {
        self.labels.as_slice()
    }

    /// Adds an entry after those already there.
    pub fn add_entry(&mut self, attributes: A, result: R)
        ensures
            final(self).entries() == old(self).entries().push((attributes, result)),
            final(self).spec_labels() == old(self).spec_labels(),
            final(self).spec_possible_results() == old(self).spec_possible_results(),
    {
        self.data.push((attributes, result));
    }

    /// Iterates over the entries, in the order they were added.
    pub fn iter(&self) -> (r: std::slice::Iter<'_, (A, R)>)
        ensures
            r.remaining() == self.entries().as_ref(),
    {
        self.data.as_slice().iter()
    }
}

impl<A: Attributes<L, V>, R, L, V> IntoIterator for DataSet<A, R, L, V> {
    type Item = (A, R);

    type IntoIter = std::vec::IntoIter<(A, R)>;

    fn into_iter(self) -> Self::IntoIter {
        self.data.into_iter()
    }
}

} // verus!
