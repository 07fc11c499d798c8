//! Named inputs of a prediction, and sets of parameter names.

use crate::text::same_text;
use crate::value::{Value, ValueView};
use vstd::prelude::*;

verus! {

/// A set of parameter names.
#[derive(Debug)]
pub struct NameSet {
    names: Vec<String>,
}

impl View for NameSet {
    type V = Set<Seq<char>>;

    closed spec fn view(&self) -> Set<Seq<char>> {
        Set::new(|name: Seq<char>| exists|i: int| 0 <= i < self.names@.len() && (#[trigger] self.names@[i])@ == name)
    }
}

impl NameSet {
    /// No name is held twice.
    pub closed spec fn wf(&self) -> bool {
        forall|i: int, j: int|
            0 <= i < j < self.names@.len() ==> (#[trigger] self.names@[i])@ != (#[trigger] self.names@[j])@
    }

    /// The names in the order in which they are held.
    pub closed spec fn order(&self) -> Seq<Seq<char>> {
        self.names@.map_values(|s: String| s@)
    }

    /// The order holds every name once.
    pub proof fn lemma_order(&self)
        requires
            self.wf(),
        ensures
            self.order().no_duplicates(),
            self.order().to_set() == self@,
    {
        assert(self.order().to_set() =~= self@) by {
            assert forall|name: Seq<char>| self@.contains(name) implies self.order().contains(
                name,
            ) by {
                let i = choose|i: int| 0 <= i < self.names@.len() && (#[trigger] self.names@[i])@ == name;
                assert(self.order()[i] == name);
            }
            assert forall|name: Seq<char>| self.order().contains(name) implies self@.contains(
                name,
            ) by {
                let i = choose|i: int| 0 <= i < self.order().len() && self.order()[i] == name;
                assert(self.names@[i]@ == name);
            }
        }
    }

    /// A set without names.
    pub fn new() -> (r: Self)
        ensures
            r.wf(),
            r@ == Set::<Seq<char>>::empty(),
    {
        let r = NameSet { names: Vec::new() };
        assert(r@ =~= Set::<Seq<char>>::empty());
        r
    }

    /// Whether the set holds a name.
    pub fn contains(&self, name: &str) -> (r: bool)
        ensures
            r == self@.contains(name@),
    {
        let mut i: usize = 0;
        while i < self.names.len()
            invariant
                i <= self.names@.len(),
                forall|j: int| 0 <= j < i ==> (#[trigger] self.names@[j])@ != name@,
            decreases self.names.len() - i,
        {
            if same_text(self.names[i].as_str(), name) {
                return true;
            }
            i = i + 1;
        }
        false
    }

    /// Adds a name.
    pub fn insert(&mut self, name: &str)
        requires
            old(self).wf(),
        ensures
            final(self).wf(),
            final(self)@ == old(self)@.insert(name@),
    {
        if !self.contains(name) {
            let ghost before = self.names@;
            self.names.push(name.to_owned());
            assert forall|n: Seq<char>| old(self)@.insert(name@).contains(n) implies self@.contains(
                n,
            ) by {
                if n == name@ {
                    assert(self.names@[before.len() as int]@ == n);
                } else {
                    let i = choose|i: int| 0 <= i < before.len() && (#[trigger] before[i])@ == n;
                    assert(self.names@[i]@ == n);
                }
            }
            assert forall|n: Seq<char>| self@.contains(n) implies old(self)@.insert(
                name@,
            ).contains(n) by {
                let i = choose|i: int| 0 <= i < self.names@.len() && (#[trigger] self.names@[i])@ == n;
                if i < before.len() {
                    assert(before[i]@ == n);
                }
            }
        }
        assert(self@ =~= old(self)@.insert(name@));
    }

    /// Number of names.
    pub fn len(&self) -> (r: usize)
        ensures
            r == self.order().len(),
    {
        self.names.len()
    }

    /// The name at a position of the order.
    pub fn name_at(&self, i: usize) -> (r: &str)
        requires
            i < self.order().len(),
        ensures
            r@ == self.order()[i as int],
            self@.contains(r@),
    {
        self.names[i].as_str()
    }

    /// Whether every name of this set is in another one.
    pub fn is_subset(&self, other: &NameSet) -> (r: bool)
        ensures
            r == self@.subset_of(other@),
    {
        let mut i: usize = 0;
        while i < self.names.len()
            invariant
                i <= self.names@.len(),
                forall|j: int| 0 <= j < i ==> other@.contains((#[trigger] self.names@[j])@),
            decreases self.names.len() - i,
        {
            if !other.contains(self.names[i].as_str()) {
                assert(self@.contains(self.names@[i as int]@));
                return false;
            }
            i = i + 1;
        }
        true
    }
}

impl PartialEq for NameSet {
    fn eq(&self, other: &Self) -> (r: bool) {
        let r: bool = self.is_subset(other) && other.is_subset(self);
        assert(r ==> self@ =~= other@);
        r
    }
}

impl vstd::std_specs::cmp::PartialEqSpecImpl for NameSet {
    open spec fn obeys_eq_spec() -> bool {
        true
    }

    open spec fn eq_spec(&self, other: &Self) -> bool {
        self@ == other@
    }
}

impl Clone for NameSet {
    fn clone(&self) -> (r: Self)
        ensures
            r@ == self@,
            r.order() == self.order(),
            self.wf() ==> r.wf(),
    {
        let mut names: Vec<String> = Vec::new();
        let mut i: usize = 0;
        while i < self.names.len()
            invariant
                i <= self.names@.len(),
                names@ == self.names@.subrange(0, i as int),
            decreases self.names.len() - i,
        {
            names.push(self.names[i].clone());
            i = i + 1;
        }
        assert(names@ =~= self.names@);
        let r = NameSet { names };
        assert(r@ =~= self@);
        r
    }
}

/// Prediction inputs by parameter name.
#[derive(Debug)]
pub struct Inputs {
    entries: Vec<(String, Value)>,
}

impl View for Inputs {
    type V = Map<Seq<char>, ValueView>;

    closed spec fn view(&self) -> Map<Seq<char>, ValueView> {
        Map::new(
            |name: Seq<char>| self.names().contains(name),
            |name: Seq<char>| self.entries@[self.names().index_of_first(name)->0].1@,
        )
    }
}

impl Inputs {
    /// The names in the order in which the entries stand.
    pub closed spec fn names(&self) -> Seq<Seq<char>> {
        self.entries@.map_values(|entry: (String, Value)| entry.0@)
    }

    /// No name has two values.
    pub closed spec fn wf(&self) -> bool {
        self.names().no_duplicates()
    }

    /// The value that stands at a position is the value of the name that stands there.
    proof fn lemma_at(&self, i: int)
        requires
            self.wf(),
            0 <= i < self.entries@.len(),
        ensures
            self@.dom().contains(self.entries@[i].0@),
            self@[self.entries@[i].0@] == self.entries@[i].1@,
    {
        let name = self.entries@[i].0@;
        assert(self.names()[i] == name);
        self.names().index_of_first_ensures(name);
    }

    /// The order holds every name once.
    pub proof fn lemma_names(&self)
        requires
            self.wf(),
        ensures
            self.names().no_duplicates(),
            self.names().to_set() == self@.dom(),
    {
        assert(self.names().to_set() =~= self@.dom());
    }

    /// No inputs.
    pub fn new() -> (r: Self)
        ensures
            r.wf(),
            r@ == Map::<Seq<char>, ValueView>::empty(),
    {
        let r = Inputs { entries: Vec::new() };
        assert(r@ =~= Map::<Seq<char>, ValueView>::empty());
        r
    }

    fn position(&self, name: &str) -> (r: Option<usize>)
        ensures
            match r {
                Some(i) => i < self.entries@.len() && self.entries@[i as int].0@ == name@,
                None => !self.names().contains(name@),
            },
    {
        let mut i: usize = 0;
        while i < self.entries.len()
            invariant
                i <= self.entries@.len(),
                forall|j: int| 0 <= j < i ==> (#[trigger] self.entries@[j]).0@ != name@,
            decreases self.entries.len() - i,
        {
            if same_text(self.entries[i].0.as_str(), name) {
                return Some(i);
            }
            i = i + 1;
        }
        assert forall|j: int| 0 <= j < self.names().len() implies self.names()[j] != name@ by {
            assert(self.entries@[j].0@ != name@);
        }
        None
    }

    /// The value of a name.
    pub fn get(&self, name: &str) -> (r: Option<&Value>)
        requires
            self.wf(),
        ensures
            match r {
                Some(value) => self@.dom().contains(name@) && self@[name@] == value@,
                None => !self@.dom().contains(name@),
            },
    {
        match self.position(name) {
            Some(i) => {
                proof {
                    self.lemma_at(i as int);
                }
                Some(&self.entries[i].1)
            },
            None => None,
        }
    }

    /// Sets the value of a name.
    pub fn insert(&mut self, name: &str, value: Value)
        requires
            old(self).wf(),
        ensures
            final(self).wf(),
            final(self)@ == old(self)@.insert(name@, value@),
    {
        let ghost before = *self;
        match self.position(name) {
            Some(i) => {
                self.entries.set(i, (name.to_owned(), value));
                proof {
                    assert(self.names() =~= before.names());
                    assert forall|n: Seq<char>| self@.dom().contains(n) implies self@[n]
                        == before@.insert(name@, value@)[n] by {
                        let j = choose|j: int| 0 <= j < self.names().len() && self.names()[j] == n;
                        self.lemma_at(j);
                        before.lemma_at(j);
                        if n == name@ {
                            assert(self.names()[i as int] == n);
                        }
                    }
                    before.lemma_at(i as int);
                    assert(self@ =~= before@.insert(name@, value@));
                }
            },
            None => {
                self.entries.push((name.to_owned(), value));
                proof {
                    assert(self.names() =~= before.names().push(name@));
                    assert(self.wf());
                    assert forall|n: Seq<char>| before@.insert(name@, value@).dom().contains(
                        n,
                    ) implies self@.dom().contains(n) by {
                        if n == name@ {
                            assert(self.names()[before.names().len() as int] == n);
                        } else {
                            let j = choose|j: int|
                                0 <= j < before.names().len() && before.names()[j] == n;
                            assert(self.names()[j] == n);
                        }
                    }
                    assert forall|n: Seq<char>| self@.dom().contains(n) implies before@.insert(
                        name@,
                        value@,
                    ).dom().contains(n) && self@[n] == before@.insert(name@, value@)[n] by {
                        let j = choose|j: int| 0 <= j < self.names().len() && self.names()[j] == n;
                        self.lemma_at(j);
                        if j < before.names().len() {
                            assert(before.names()[j] == n);
                            before.lemma_at(j);
                        }
                    }
                    assert(self@ =~= before@.insert(name@, value@));
                }
            },
        }
    }

    /// Number of inputs.
    pub fn len(&self) -> (r: usize)
        ensures
            r == self.names().len(),
    {
        self.entries.len()
    }

    /// The name that stands at a position.
    pub fn name_at(&self, i: usize) -> (r: &str)
        requires
            i < self.names().len(),
        ensures
            r@ == self.names()[i as int],
    {
        self.entries[i].0.as_str()
    }

    /// The value of the name that stands at a position.
    pub fn value_at(&self, i: usize) -> (r: &Value)
        requires
            self.wf(),
            i < self.names().len(),
        ensures
            self@.dom().contains(self.names()[i as int]),
            r@ == self@[self.names()[i as int]],
    {
        proof {
            self.lemma_at(i as int);
        }
        &self.entries[i].1
    }
}

impl Clone for Inputs {
    fn clone(&self) -> (r: Self)
        ensures
            r@ == self@,
            r.names() == self.names(),
            self.wf() ==> r.wf(),
    {
        let mut entries: Vec<(String, Value)> = Vec::new();
        let mut i: usize = 0;
        while i < self.entries.len()
            invariant
                i <= self.entries@.len(),
                entries@.len() == i,
                forall|j: int|
                    0 <= j < i ==> (#[trigger] entries@[j]).0@ == self.entries@[j].0@
                        && entries@[j].1@ == self.entries@[j].1@,
            decreases self.entries.len() - i,
        {
            let name: String = self.entries[i].0.clone();
            let value: Value = self.entries[i].1.clone();
            entries.push((name, value));
            i = i + 1;
        }
        let r = Inputs { entries };
        proof {
            assert(r.names() =~= self.names());
            assert forall|n: Seq<char>| r@.dom().contains(n) implies r@[n] == self@[n] by {
                self.names().index_of_first_ensures(n);
            }
            assert(r@ =~= self@);
        }
        r
    }
}

} // verus!
