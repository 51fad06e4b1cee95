//! A registry: values that are found by a text.
use crate::text;
use vstd::prelude::*;
use vstd::string::*;

verus! {

/// Values by name. No name occurs twice; a name that is new comes last.
#[derive(Debug)]
pub struct Registry<V> {
    entries: Vec<(String, V)>,
}

/// The position of a name among the entries.
spec fn place<V>(entries: Seq<(String, V)>, key: Seq<char>) -> Option<int>
    decreases entries.len(),
{
    if entries.len() == 0 {
        None
    } else if entries.last().0@ == key {
        Some(entries.len() - 1)
    } else {
        place(entries.drop_last(), key)
    }
}

/// What the position of a name is.
proof fn lemma_place<V>(entries: Seq<(String, V)>, key: Seq<char>)
    ensures
        match place(entries, key) {
            Some(i) => 0 <= i < entries.len() && entries[i].0@ == key,
            None => forall|i: int| 0 <= i < entries.len() ==> (#[trigger] entries[i]).0@ != key,
        },
    decreases entries.len(),
{
    if entries.len() > 0 && entries.last().0@ != key {
        let rest = entries.drop_last();
        lemma_place(rest, key);
        assert forall|i: int|
            place(rest, key) is None && 0 <= i < entries.len() implies (#[trigger] entries[i]).0@
            != key by {
            if i < rest.len() {
                assert(rest[i] == entries[i]);
            }
        }
    }
}

impl<V> Registry<V> {
    /// No name occurs twice.
    #[verifier::type_invariant]
    spec fn distinct(self) -> bool {
        forall|i: int, j: int|
            0 <= i < j < self.entries@.len() ==> (#[trigger] self.entries@[i]).0@ != (
            #[trigger] self.entries@[j]).0@
    }

    /// The names, in the order in which they came.
    pub closed spec fn names(self) -> Seq<Seq<char>> {
        self.entries@.map_values(|e: (String, V)| e.0@)
    }

    /// The value of each name.
    pub closed spec fn content(self) -> Map<Seq<char>, V> {
        Map::new(
            |k: Seq<char>| place(self.entries@, k) is Some,
            |k: Seq<char>| self.entries@[place(self.entries@, k)->0].1,
        )
    }
}

impl<V> View for Registry<V> {
    type V = Map<Seq<char>, V>;

    open spec fn view(&self) -> Map<Seq<char>, V> {
        self.content()
    }
}

impl<V> Registry<V> {
    /// An empty registry.
    pub fn new() -> (r: Self)
        ensures
            r@ == Map::<Seq<char>, V>::empty(),
            r.names() == Seq::<Seq<char>>::empty(),
    {
        let r = Registry { entries: Vec::new() };
        assert(r@ =~= Map::<Seq<char>, V>::empty());
        assert(r.names() =~= Seq::<Seq<char>>::empty());
        r
    }

    /// The names are those that have a value.
    pub proof fn lemma_names(&self)
        ensures
            forall|k: Seq<char>| #[trigger] self@.dom().contains(k) <==> self.names().contains(k),
    {
        assert forall|k: Seq<char>| #[trigger] self@.dom().contains(k) implies self.names().contains(
            k,
        ) by {
            lemma_place(self.entries@, k);
            let i = place(self.entries@, k)->0;
            assert(self.names()[i] == k);
        }
        assert forall|k: Seq<char>|
            self.names().contains(k) implies #[trigger] self@.dom().contains(k) by {
            lemma_place(self.entries@, k);
            let i = choose|i: int| 0 <= i < self.names().len() && self.names()[i] == k;
            assert(self.entries@[i].0@ == k);
        }
    }

    /// How many names there are. None of them occurs twice.
    pub fn len(&self) -> (r: usize)
        ensures
            r == self.names().len(),
            self.names().no_duplicates(),
    {
        proof {
            use_type_invariant(self);
            assert forall|i: int, j: int|
                0 <= i < self.names().len() && 0 <= j < self.names().len() && i
                    != j implies self.names()[i] != self.names()[j] by {
                if i < j {
                    assert(self.entries@[i].0@ != self.entries@[j].0@);
                } else {
                    assert(self.entries@[j].0@ != self.entries@[i].0@);
                }
            }
        }
        self.entries.len()
    }

    /// The name at that position, with its value.
    pub fn entry(&self, i: usize) -> (r: (&String, &V))
        requires
            i < self.names().len(),
        ensures
            r.0@ == self.names()[i as int],
            self@.dom().contains(r.0@),
            *r.1 == self@[r.0@],
    {
        proof {
            use_type_invariant(self);
            lemma_place(self.entries@, self.entries@[i as int].0@);
        }
        let e = &self.entries[i];
        (&e.0, &e.1)
    }

    /// The position of a name.
    fn find(&self, key: &str) -> (r: Option<usize>)
        ensures
            match r {
                Some(i) => i < self.entries@.len() && self.entries@[i as int].0@ == key@
                    && place(self.entries@, key@) == Some(i as int),
                None => place(self.entries@, key@) is None,
            },
    {
        proof {
            use_type_invariant(self);
            lemma_place(self.entries@, key@);
        }
        let mut i: usize = 0;
        while i < self.entries.len()
            invariant
                i <= self.entries@.len(),
                forall|k: int| 0 <= k < i ==> (#[trigger] self.entries@[k]).0@ != key@,
            decreases self.entries@.len() - i,
        {
            if text::same_text(self.entries[i].0.as_str(), key) {
                proof {
                    use_type_invariant(self);
                    lemma_place(self.entries@, key@);
                }
                return Some(i);
            }
            i += 1;
        }
        proof {
            lemma_place(self.entries@, key@);
        }
        None
    }

    /// Whether the name has a value.
    pub fn contains(&self, key: &str) -> (r: bool)
        ensures
            r == self@.dom().contains(key@),
    {
        self.find(key).is_some()
    }

    /// The value of the name.
    pub fn get(&self, key: &str) -> (r: Option<&V>)
        ensures
            match r {
                Some(v) => self@.dom().contains(key@) && *v == self@[key@],
                None => !self@.dom().contains(key@),
            },
    {
        match self.find(key) {
            Some(i) => Some(&self.entries[i].1),
            None => None,
        }
    }

    /// Gives the name that value, in place of the one it had.
    pub fn insert(&mut self, key: String, value: V)
        ensures
            final(self)@ == old(self)@.insert(key@, value),
            final(self).names() == if old(self)@.dom().contains(key@) {
                old(self).names()
            } else {
                old(self).names().push(key@)
            },
    {
        proof {
            use_type_invariant(&*self);
        }
        let found = self.find(key.as_str());
        let ghost before = self.entries@;
        let ghost name = key@;
        let mut entries: Vec<(String, V)> = Vec::new();
        std::mem::swap(&mut entries, &mut self.entries);
        match found {
            Some(i) => {
                entries.set(i, (key, value));
                proof {
                    assert forall|k: Seq<char>| #[trigger]
                        place(entries@, k) == place(before, k) by {
                        lemma_same_places(before, entries@, k);
                    }
                }
            },
            None => {
                entries.push((key, value));
                proof {
                    lemma_place(before, name);
                    assert forall|k: Seq<char>| k != name implies #[trigger] place(entries@, k)
                        == place(before, k) by {
                        assert(entries@.drop_last() =~= before);
                    }
                    assert(entries@.map_values(|e: (String, V)| e.0@) =~= before.map_values(
                        |e: (String, V)| e.0@,
                    ).push(name));
                }
            },
        }
        assert forall|i: int, j: int| 0 <= i < j < entries@.len() implies (#[trigger] entries@[i]).0@
            != (#[trigger] entries@[j]).0@ by {
            lemma_place(before, name);
            if j < before.len() {
                assert(before[i].0@ != before[j].0@);
            } else {
                assert(before[i].0@ != name);
            }
        }
        self.entries = entries;
        assert(self.names() =~= if old(self)@.dom().contains(name) {
            old(self).names()
        } else {
            old(self).names().push(name)
        });
        assert forall|k: Seq<char>| #[trigger]
            self@.dom().contains(k) == old(self)@.insert(name, value).dom().contains(k) by {
            lemma_place(before, k);
            lemma_place(self.entries@, k);
        }
        assert forall|k: Seq<char>| self@.dom().contains(k) implies #[trigger] self@[k] == old(
            self,
        )@.insert(name, value)[k] by {
            lemma_place(before, k);
            lemma_place(self.entries@, k);
        }
        assert(self@ =~= old(self)@.insert(name, value));
    }

    /// Takes the name out, and gives back its value.
    pub fn remove(&mut self, key: &str) -> (r: Option<V>)
        ensures
            final(self)@ == old(self)@.remove(key@),
            match r {
                Some(v) => {
                    &&& old(self)@.dom().contains(key@)
                    &&& v == old(self)@[key@]
                    &&& exists|i: int|
                        0 <= i < old(self).names().len() && old(self).names()[i] == key@
                            && final(self).names() == #[trigger] old(self).names().remove(i)
                },
                None => !old(self)@.dom().contains(key@) && final(self).names() == old(
                    self,
                ).names(),
            },
    {
        proof {
            use_type_invariant(&*self);
        }
        match self.find(key) {
            Some(i) => {
                let ghost before = self.entries@;
                let mut entries: Vec<(String, V)> = Vec::new();
                std::mem::swap(&mut entries, &mut self.entries);
                let (_, value) = entries.remove(i);
                let ghost after = entries@;
                assert forall|a: int, b: int| 0 <= a < b < after.len() implies (
                #[trigger] after[a]).0@ != (#[trigger] after[b]).0@ by {
                    let x = if a < i { a } else { a + 1 };
                    let y = if b < i { b } else { b + 1 };
                    assert(before[x].0@ != before[y].0@);
                }
                self.entries = entries;
                assert(self@ =~= old(self)@.remove(key@)) by {
                    assert forall|k: Seq<char>| true implies #[trigger] self@.dom().contains(k)
                        == old(self)@.remove(key@).dom().contains(k) by {
                        lemma_place(before, k);
                        lemma_place(after, k);
                        lemma_removed(before, i as int, k);
                    }
                    assert forall|k: Seq<char>| self@.dom().contains(k) implies #[trigger] self@[k]
                        == old(self)@.remove(key@)[k] by {
                        lemma_place(before, k);
                        lemma_place(after, k);
                        lemma_removed(before, i as int, k);
                    }
                }
                assert(self.names() =~= old(self).names().remove(i as int));
                Some(value)
            },
            None => {
                assert(self@ =~= old(self)@.remove(key@));
                None
            },
        }
    }
}

/// Entries with the same names have the same places.
proof fn lemma_same_places<V>(a: Seq<(String, V)>, b: Seq<(String, V)>, key: Seq<char>)
    requires
        a.len() == b.len(),
        forall|i: int| 0 <= i < a.len() ==> (#[trigger] a[i]).0@ == b[i].0@,
    ensures
        place(a, key) == place(b, key),
    decreases a.len(),
{
    if a.len() > 0 {
        assert(a[a.len() - 1].0@ == b[a.len() - 1].0@);
        lemma_same_places(a.drop_last(), b.drop_last(), key);
    }
}

/// Where the other names stand when one entry is taken out.
proof fn lemma_removed<V>(entries: Seq<(String, V)>, i: int, key: Seq<char>)
    requires
        0 <= i < entries.len(),
        forall|a: int, b: int|
            0 <= a < b < entries.len() ==> (#[trigger] entries[a]).0@ != (#[trigger] entries[b]).0@,
    ensures
        key == entries[i].0@ ==> place(entries.remove(i), key) is None,
        key != entries[i].0@ ==> match place(entries, key) {
            Some(k) => place(entries.remove(i), key) == Some(if k < i { k } else { k - 1 }),
            None => place(entries.remove(i), key) is None,
        },
{
    let after = entries.remove(i);
    lemma_place(entries, key);
    lemma_place(after, key);
    match place(after, key) {
        Some(k) => {
            let x = if k < i { k } else { k + 1 };
            assert(after[k] == entries[x]);
            if key == entries[i].0@ {
                if x < i {
                    assert(entries[x].0@ != entries[i].0@);
                } else {
                    assert(entries[i].0@ != entries[x].0@);
                }
            } else {
                let y = place(entries, key)->0;
                assert(entries[y].0@ == entries[x].0@);
            }
        },
        None => {
            match place(entries, key) {
                Some(k) => {
                    if key != entries[i].0@ {
                        let x = if k < i { k } else { k - 1 };
                        assert(after[x] == entries[k]);
                    }
                },
                None => {},
            }
        },
    }
}

} // verus!
