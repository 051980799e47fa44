//! The insertion-ordered set of the paths that an open archive holds.

use indexmap::IndexSet;
use std::collections::hash_map::RandomState;
use vstd::prelude::*;

use crate::path::{copy_rows, is_path, rows, ArchivePath};

verus! {

/// `indexmap::IndexSet`, a hash set that keeps its values in the order in
/// which they were inserted. Nothing of its inside is known here.
#[verifier::external_type_specification]
#[verifier::external_body]
#[verifier::reject_recursive_types(T)]
#[verifier::reject_recursive_types(S)]
pub struct ExIndexSet<T, S>(IndexSet<T, S>);

/// The paths that an `IndexSet` holds, each as its components, in the set's
/// order.
pub uninterp spec fn held(set: IndexSet<Vec<Vec<u8>>, RandomState>) -> Seq<Seq<Seq<u8>>>;

/// `IndexSet::new`: a set that holds nothing.
#[verifier::external_body]
fn set_new() -> (set: IndexSet<Vec<Vec<u8>>, RandomState>)
    ensures
        held(set) == Seq::<Seq<Seq<u8>>>::empty(),
{
    IndexSet::new()
}

/// `IndexSet::insert`: a value that the set already holds leaves the set as
/// it was and gives `false`; any other value is put last and gives `true`.
#[verifier::external_body]
fn set_insert(set: &mut IndexSet<Vec<Vec<u8>>, RandomState>, value: Vec<Vec<u8>>) -> (fresh: bool)
    ensures
        fresh == !held(*old(set)).contains(rows(value@)),
        fresh ==> held(*final(set)) == held(*old(set)).push(rows(value@)),
        !fresh ==> held(*final(set)) == held(*old(set)),
{
    set.insert(value)
}

/// `IndexSet::shift_remove`: a value that the set holds is taken out, the
/// values behind it move up by one place and keep their order, and the
/// result is `true`; for any other value the set stays as it was and the
/// result is `false`.
#[verifier::external_body]
fn set_shift_remove(set: &mut IndexSet<Vec<Vec<u8>>, RandomState>, value: &Vec<Vec<u8>>) -> (found: bool)
    ensures
        found == held(*old(set)).contains(rows(value@)),
        found ==> exists|i: int|
            0 <= i < held(*old(set)).len() && held(*old(set))[i] == rows(value@)
                && held(*final(set)) == held(*old(set)).remove(i),
        !found ==> held(*final(set)) == held(*old(set)),
{
    set.shift_remove(value)
}

/// `IndexSet::iter`: the values in the set's order, each one cloned.
#[verifier::external_body]
fn set_values(set: &IndexSet<Vec<Vec<u8>>, RandomState>) -> (values: Vec<Vec<Vec<u8>>>)
    ensures
        values@.len() == held(*set).len(),
        forall|i: int| 0 <= i < values@.len() ==> rows((#[trigger] values@[i])@) == held(*set)[i],
{
    set.iter().cloned().collect()
}

/// `IndexSet::len`: the number of values.
#[verifier::external_body]
fn set_len(set: &IndexSet<Vec<Vec<u8>>, RandomState>) -> (len: usize)
    ensures
        len == held(*set).len(),
{
    set.len()
}

/// `IndexSet::contains`: whether the set holds the value.
#[verifier::external_body]
fn set_contains(set: &IndexSet<Vec<Vec<u8>>, RandomState>, value: &Vec<Vec<u8>>) -> (found: bool)
    ensures
        found == held(*set).contains(rows(value@)),
{
    set.contains(value)
}


/// The order after a path has been added: a path that is already there keeps
/// its place, a new one goes last.
pub open spec fn with_path(order: Seq<Seq<Seq<u8>>>, path: Seq<Seq<u8>>) -> Seq<Seq<Seq<u8>>> {
    if order.contains(path) {
        order
    } else {
        order.push(path)
    }
}

/// The order after a path has been taken out: the others keep their order.
pub open spec fn without_path(order: Seq<Seq<Seq<u8>>>, path: Seq<Seq<u8>>) -> Seq<Seq<Seq<u8>>>
    decreases order.len(),
{
    if order.len() == 0 {
        order
    } else if order.last() == path {
        without_path(order.drop_last(), path)
    } else {
        without_path(order.drop_last(), path).push(order.last())
    }
}

/// The order after several paths have been added, one after the other.
pub open spec fn with_paths(order: Seq<Seq<Seq<u8>>>, paths: Seq<Seq<Seq<u8>>>) -> Seq<Seq<Seq<u8>>>
    decreases paths.len(),
{
    if paths.len() == 0 {
        order
    } else {
        with_path(with_paths(order, paths.drop_last()), paths.last())
    }
}

/// The order after several paths have been taken out, one after the other.
pub open spec fn without_paths(order: Seq<Seq<Seq<u8>>>, paths: Seq<Seq<Seq<u8>>>) -> Seq<Seq<Seq<u8>>>
    decreases paths.len(),
{
    if paths.len() == 0 {
        order
    } else {
        without_path(without_paths(order, paths.drop_last()), paths.last())
    }
}

/// An order in which no path stands twice and every path is canonical.
pub open spec fn is_order(order: Seq<Seq<Seq<u8>>>) -> bool {
    &&& order.no_duplicates()
    &&& forall|i: int| 0 <= i < order.len() ==> is_path(#[trigger] order[i])
}

/// What a sequence holds after one more item has been put last.
pub proof fn lemma_push_contains(order: Seq<Seq<Seq<u8>>>, last: Seq<Seq<u8>>, other: Seq<Seq<u8>>)
    ensures
        order.push(last).contains(other) <==> (order.contains(other) || other == last),
{
    let longer = order.push(last);
    if longer.contains(other) {
        let i = choose|i: int| 0 <= i < longer.len() && longer[i] == other;
        if i < order.len() {
            assert(order[i] == other);
        }
    }
    if order.contains(other) {
        let i = choose|i: int| 0 <= i < order.len() && order[i] == other;
        assert(longer[i] == other);
    }
    if other == last {
        assert(longer[order.len() as int] == other);
    }
}

/// Taking a path out leaves the other paths that were there, and not that path.
pub proof fn lemma_without_path_members(order: Seq<Seq<Seq<u8>>>, path: Seq<Seq<u8>>, other: Seq<Seq<u8>>)
    ensures
        without_path(order, path).contains(other) <==> (order.contains(other) && other != path),
    decreases order.len(),
{
    if order.len() > 0 {
        let front = order.drop_last();
        lemma_without_path_members(front, path, other);
        assert(front.push(order.last()) == order);
        lemma_push_contains(front, order.last(), other);
        if order.last() != path {
            lemma_push_contains(without_path(front, path), order.last(), other);
        }
    }
}

/// Taking out a path that is not there changes nothing.
pub proof fn lemma_without_absent(order: Seq<Seq<Seq<u8>>>, path: Seq<Seq<u8>>)
    requires
        !order.contains(path),
    ensures
        without_path(order, path) == order,
    decreases order.len(),
{
    if order.len() > 0 {
        let front = order.drop_last();
        assert(order[order.len() - 1] != path);
        assert forall|j: int| 0 <= j < front.len() implies front[j] != path by {
            assert(order[j] == front[j]);
        }
        lemma_without_absent(front, path);
        assert(front.push(order.last()) == order);
    }
}

/// In an order without repetition, taking out the path at place `i` removes
/// exactly that place.
pub proof fn lemma_without_is_remove(order: Seq<Seq<Seq<u8>>>, i: int)
    requires
        order.no_duplicates(),
        0 <= i < order.len(),
    ensures
        without_path(order, order[i]) == order.remove(i),
    decreases order.len(),
{
    let path = order[i];
    let front = order.drop_last();
    if i == order.len() - 1 {
        assert forall|j: int| 0 <= j < front.len() implies front[j] != path by {
            assert(order[j] == front[j]);
        }
        lemma_without_absent(front, path);
        assert(order.remove(i) == front);
    } else {
        assert(front[i] == path);
        lemma_without_is_remove(front, i);
        assert(order.last() != path);
        assert(front.remove(i).push(order.last()) == order.remove(i));
    }
}

/// Adding a path to an order gives an order.
pub proof fn lemma_with_path_is_order(order: Seq<Seq<Seq<u8>>>, path: Seq<Seq<u8>>)
    requires
        is_order(order),
        is_path(path),
    ensures
        is_order(with_path(order, path)),
{
}

/// Taking a path out of an order gives an order.
pub proof fn lemma_without_path_is_order(order: Seq<Seq<Seq<u8>>>, path: Seq<Seq<u8>>)
    requires
        is_order(order),
    ensures
        is_order(without_path(order, path)),
{
    if order.contains(path) {
        let i = choose|i: int| 0 <= i < order.len() && order[i] == path;
        lemma_without_is_remove(order, i);
        let result = order.remove(i);
        assert forall|a: int, b: int| 0 <= a < result.len() && 0 <= b < result.len() && a != b implies result[a] != result[b] by {
            let a0 = if a < i { a } else { a + 1 };
            let b0 = if b < i { b } else { b + 1 };
            assert(result[a] == order[a0]);
            assert(result[b] == order[b0]);
        }
        assert forall|a: int| 0 <= a < result.len() implies is_path(#[trigger] result[a]) by {
            let a0 = if a < i { a } else { a + 1 };
            assert(result[a] == order[a0]);
        }
    } else {
        lemma_without_absent(order, path);
    }
}

/// The insertion-ordered set of the paths that an archive holds: no path
/// twice, each where it was first added. Its view is that order.
pub struct OrderedPathSet {
    inner: IndexSet<Vec<Vec<u8>>, RandomState>,
}

impl View for OrderedPathSet {
    type V = Seq<Seq<Seq<u8>>>;

    closed spec fn view(&self) -> Seq<Seq<Seq<u8>>> {
        held(self.inner)
    }
}

impl OrderedPathSet {
    /// What holds of every set that this module hands out: its view is an
    /// order.
    pub closed spec fn wf(&self) -> bool {
        is_order(held(self.inner))
    }

    /// A well-formed set is an order.
    pub proof fn lemma_wf(&self)
        requires
            self.wf(),
        ensures
            is_order(self@),
    {
    }

    /// The set without any path.
    pub fn new() -> (set: OrderedPathSet)
        ensures
            set.wf(),
            set@ == Seq::<Seq<Seq<u8>>>::empty(),
    {
        OrderedPathSet { inner: set_new() }
    }

    /// The number of paths.
    pub fn len(&self) -> (len: usize)
        ensures
            len == self@.len(),
    {
        set_len(&self.inner)
    }

    /// Whether the set holds the path.
    pub fn contains(&self, path: &ArchivePath) -> (found: bool)
        ensures
            found == self@.contains(path@),
    {
        let key = path.duplicate().into_components();
        set_contains(&self.inner, &key)
    }

    /// Adds a path. One that is already there keeps its place; a new one goes
    /// last. The result says whether the path was new.
    pub fn insert(&mut self, path: &ArchivePath) -> (fresh: bool)
        requires
            old(self).wf(),
        ensures
            final(self).wf(),
            final(self)@ == with_path(old(self)@, path@),
            fresh == !old(self)@.contains(path@),
    {
        path.is_canonical();
        let key = path.duplicate().into_components();
        let fresh = set_insert(&mut self.inner, key);
        proof {
            lemma_with_path_is_order(held(old(self).inner), path@);
        }
        fresh
    }

    /// Takes a path out; the others keep their order. The result says whether
    /// the path was there.
    pub fn remove(&mut self, path: &ArchivePath) -> (found: bool)
        requires
            old(self).wf(),
        ensures
            final(self).wf(),
            final(self)@ == without_path(old(self)@, path@),
            found == old(self)@.contains(path@),
    {
        let key = path.duplicate().into_components();
        let ghost before = held(self.inner);
        let found = set_shift_remove(&mut self.inner, &key);
        proof {
            if found {
                let i = choose|i: int| 0 <= i < before.len() && before[i] == path@ && held(self.inner) == before.remove(i);
                lemma_without_is_remove(before, i);
            } else {
                lemma_without_absent(before, path@);
            }
            lemma_without_path_is_order(before, path@);
        }
        found
    }

    /// The paths in their order, each as a path of its own.
    pub fn snapshot(&self) -> (paths: Vec<ArchivePath>)
        requires
            self.wf(),
        ensures
            paths@.len() == self@.len(),
            forall|i: int| 0 <= i < self@.len() ==> (#[trigger] paths@[i])@ == self@[i],
    {
        let values = set_values(&self.inner);
        let mut paths: Vec<ArchivePath> = Vec::new();
        let ghost order = held(self.inner);
        let mut i: usize = 0;
        while i < values.len()
            invariant
                is_order(order),
                i <= values@.len(),
                values@.len() == order.len(),
                paths@.len() == i,
                forall|j: int| 0 <= j < values@.len() ==> rows((#[trigger] values@[j])@) == order[j],
                forall|j: int| 0 <= j < i ==> (#[trigger] paths@[j])@ == order[j],
            decreases values.len() - i,
        {
            let parts = copy_rows(&values[i]);
            paths.push(ArchivePath::from_components(parts));
            i += 1;
        }
        paths
    }
}

} // verus!
