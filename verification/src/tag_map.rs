//! A map from tags to values: the entries in a vector, found through an index.

use dashmap::DashMap;
use std::hash::RandomState;
use vstd::prelude::*;

verus! {

/// The sharded hash map of the `dashmap` crate, opaque here.
#[verifier::external_type_specification]
#[verifier::external_body]
#[verifier::reject_recursive_types(K)]
#[verifier::reject_recursive_types(V)]
#[verifier::reject_recursive_types(S)]
pub struct ExDashMap<K, V, S>(dashmap::DashMap<K, V, S>);

/// What a tag index holds: the position of each tag.
pub uninterp spec fn positions(index: DashMap<String, usize, RandomState>) -> Map<Seq<char>, usize>;

/// `DashMap::new`: an index that holds nothing.
#[verifier::external_body]
fn index_new() -> (r: DashMap<String, usize, RandomState>)
    ensures
        positions(r) == (Map::<Seq<char>, usize>::empty()),
{
    DashMap::new()
}

/// `DashMap::get`: the position held for a tag, if there is one.
#[verifier::external_body]
fn index_get(index: &DashMap<String, usize, RandomState>, tag: &str) -> (r: Option<usize>)
    ensures
        r == (if positions(*index).dom().contains(tag@) { Some(positions(*index)[tag@]) } else { None }),
{
    match index.get(tag) {
        Some(entry) => Some(*entry.value()),
        None => None,
    }
}

/// `DashMap::insert`: sets the position of one tag and leaves the others.
#[verifier::external_body]
fn index_insert(index: &mut DashMap<String, usize, RandomState>, tag: String, position: usize)
    ensures
        positions(*final(index)) == positions(*old(index)).insert(tag@, position),
{
    index.insert(tag, position);
}

/// `DashMap::remove`: drops one tag and leaves the others.
#[verifier::external_body]
fn index_remove(index: &mut DashMap<String, usize, RandomState>, tag: &str)
    ensures
        positions(*final(index)) == positions(*old(index)).remove(tag@),
{
    index.remove(tag);
}

/// Values held by tag.
pub struct TagMap<V> {
    index: DashMap<String, usize, RandomState>,
    items: Vec<(String, V)>,
}

impl<V> TagMap<V> {
    /// The tags of the entries are distinct, and the index holds exactly where each stands.
    pub closed spec fn wf(&self) -> bool {
        let held = positions(self.index);
        &&& forall|i: int|
            0 <= i < self.items@.len() ==> held.dom().contains(#[trigger] self.items@[i].0@)
                && held[self.items@[i].0@] == i
        &&& forall|tag: Seq<char>| #[trigger]
            held.dom().contains(tag) ==> held[tag] < self.items@.len()
                && self.items@[held[tag] as int].0@ == tag
    }
}

impl<V> View for TagMap<V> {
    type V = Map<Seq<char>, V>;

    closed spec fn view(&self) -> Map<Seq<char>, V> {
        Map::new(
            |tag: Seq<char>| positions(self.index).dom().contains(tag),
            |tag: Seq<char>| self.items@[positions(self.index)[tag] as int].1,
        )
    }
}

impl<V> TagMap<V> {
    /// A map without entries.
    pub fn new() -> (r: Self)
        ensures
            r.wf(),
            r@ == Map::<Seq<char>, V>::empty(),
    {
        let r = TagMap { index: index_new(), items: Vec::new() };
        assert(r@ =~= Map::<Seq<char>, V>::empty());
        r
    }

    /// Whether a tag has a value.
    pub fn contains(&self, tag: &str) -> (r: bool)
        requires
            self.wf(),
        ensures
            r == self@.dom().contains(tag@),
    {
        index_get(&self.index, tag).is_some()
    }

    /// The value of a tag.
    pub fn get(&self, tag: &str) -> (r: Option<&V>)
        requires
            self.wf(),
        ensures
            r == (if self@.dom().contains(tag@) { Some(&self@[tag@]) } else { None }),
    {
        match index_get(&self.index, tag) {
            Some(position) => Some(&self.items[position].1),
            None => None,
        }
    }

    /// Sets the value of a tag and returns the one it replaces.
    pub fn insert(&mut self, tag: &str, value: V) -> (r: Option<V>)
        requires
            old(self).wf(),
        ensures
            final(self).wf(),
            final(self)@ == old(self)@.insert(tag@, value),
            r == (if old(self)@.dom().contains(tag@) { Some(old(self)@[tag@]) } else { None }),
    {
        match index_get(&self.index, tag) {
            Some(position) => {
                let mut entry: (String, V) = (tag.to_owned(), value);
                std::mem::swap(&mut self.items[position], &mut entry);
                assert(self@ =~= old(self)@.insert(tag@, value));
                Some(entry.1)
            },
            None => {
                let position: usize = self.items.len();
                index_insert(&mut self.index, tag.to_owned(), position);
                self.items.push((tag.to_owned(), value));
                assert(self@ =~= old(self)@.insert(tag@, value));
                None
            },
        }
    }

    /// Drops a tag and returns its value.
    pub fn remove(&mut self, tag: &str) -> (r: Option<V>)
        requires
            old(self).wf(),
        ensures
            final(self).wf(),
            final(self)@ == old(self)@.remove(tag@),
            r == (if old(self)@.dom().contains(tag@) { Some(old(self)@[tag@]) } else { None }),
    {
        match index_get(&self.index, tag) {
            Some(position) => {
                index_remove(&mut self.index, tag);
                let entry: (String, V) = self.items.swap_remove(position);
                if position < self.items.len() {
                    let moved: String = self.items[position].0.clone();
                    index_insert(&mut self.index, moved, position);
                }
                assert(self@ =~= old(self)@.remove(tag@));
                Some(entry.1)
            },
            None => {
                assert(self@ =~= old(self)@.remove(tag@));
                None
            },
        }
    }

    /// The tags, in the order in which the entries stand.
    pub closed spec fn tags(&self) -> Seq<Seq<char>> {
        self.items@.map_values(|entry: (String, V)| entry.0@)
    }

    /// The order holds every tag once.
    pub proof fn lemma_tags(&self)
        requires
            self.wf(),
        ensures
            self.tags().no_duplicates(),
            self.tags().to_set() == self@.dom(),
            self@.dom().finite(),
    {
        assert(self.tags().to_set() =~= self@.dom()) by {
            assert forall|tag: Seq<char>| self@.dom().contains(tag) implies self.tags().contains(
                tag,
            ) by {
                let at = positions(self.index)[tag] as int;
                assert(self.tags()[at] == tag);
            }
        }
        vstd::seq_lib::seq_to_set_is_finite(self.tags());
    }

    /// How many tags there are.
    pub fn len(&self) -> (r: usize)
        ensures
            r == self.tags().len(),
    {
        self.items.len()
    }

    /// The tag that stands at a position of the order.
    pub fn tag_at(&self, i: usize) -> (r: &str)
        requires
            i < self.tags().len(),
        ensures
            r@ == self.tags()[i as int],
    {
        self.items[i].0.as_str()
    }

    /// The value of the tag that stands at a position of the order.
    pub fn value_at(&self, i: usize) -> (r: &V)
        requires
            self.wf(),
            i < self.tags().len(),
        ensures
            self@.dom().contains(self.tags()[i as int]),
            *r == self@[self.tags()[i as int]],
    {
        &self.items[i].1
    }
}

} // verus!
