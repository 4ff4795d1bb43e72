//! Sets and maps keyed by names.
//!
//! Both keep their names in the order in which they came in, and no name
//! twice.

use vstd::prelude::*;

use crate::text::{same_text, texts};

verus! {

/// A set of names.
#[derive(Debug)]
pub struct NameSet {
    names: Vec<String>,
}

impl View for NameSet {
    type V = Set<Seq<char>>;

    closed spec fn view(&self) -> Set<Seq<char>> {
        texts(self.names@).to_set()
    }
}

impl NameSet {
    #[verifier::type_invariant]
    spec fn holds_no_name_twice(self) -> bool {
        texts(self.names@).no_duplicates()
    }

    /// A set without names.
    pub fn new() -> (set: NameSet)
        ensures
            set@ == Set::<Seq<char>>::empty(),
    {
        let set = NameSet { names: Vec::new() };
        assert(set@ =~= Set::<Seq<char>>::empty());
        set
    }

    /// The set of the names in a list.
    pub fn from_names(names: &Vec<String>) -> (set: NameSet)
        ensures
            set@ == texts(names@).to_set(),
    {
        let mut set = NameSet::new();
        let mut i: usize = 0;
        assert(texts(names@.take(0)).to_set() =~= Set::<Seq<char>>::empty());
        while i < names.len()
            invariant
                i <= names@.len(),
                set@ == texts(names@.take(i as int)).to_set(),
            decreases names@.len() - i,
        {
            set.insert(names[i].clone());
            proof {
                let before = texts(names@.take(i as int));
                let after = texts(names@.take(i + 1));
                assert(after =~= before.push(names@[i as int]@));
                assert forall|a: Seq<char>| after.contains(a) implies before.contains(a) || a
                    == names@[i as int]@ by {
                    let k = choose|k: int| 0 <= k < after.len() && after[k] == a;
                    if k < i {
                        assert(before[k] == a);
                    }
                }
                assert forall|a: Seq<char>| before.contains(a) || a
                    == names@[i as int]@ implies after.contains(a) by {
                    if before.contains(a) {
                        let k = choose|k: int| 0 <= k < before.len() && before[k] == a;
                        assert(after[k] == a);
                    } else {
                        assert(after[i as int] == a);
                    }
                }
                assert(set@ =~= after.to_set());
            }
            i = i + 1;
        }
        assert(names@.take(names@.len() as int) =~= names@);
        set
    }

    /// Whether a name is in the set.
    pub fn contains(&self, name: &str) -> (found: bool)
        ensures
            found == self@.contains(name@),
    {
        let mut i: usize = 0;
        while i < self.names.len()
            invariant
                i <= self.names@.len(),
                forall|j: int| 0 <= j < i ==> texts(self.names@)[j] != name@,
            decreases self.names@.len() - i,
        {
            if same_text(self.names[i].as_str(), name) {
                assert(texts(self.names@)[i as int] == name@);
                return true;
            }
            i = i + 1;
        }
        false
    }

    /// Adds a name.
    pub fn insert(&mut self, name: String)
        ensures
            final(self)@ == old(self)@.insert(name@),
    {
        proof {
            use_type_invariant(&*self);
        }
        if self.contains(name.as_str()) {
            assert(self@ =~= self@.insert(name@));
            return;
        }
        let mut taken = NameSet { names: Vec::new() };
        std::mem::swap(self, &mut taken);
        let mut names = taken.names;
        let ghost held = texts(names@);
        let ghost added = name@;
        names.push(name);
        proof {
            let now = texts(names@);
            assert(now =~= held.push(added));
            assert forall|a: Seq<char>| now.contains(a) <==> held.contains(a) || a == added by {
                if held.contains(a) {
                    let k = choose|k: int| 0 <= k < held.len() && held[k] == a;
                    assert(now[k] == a);
                }
                assert(now[held.len() as int] == added);
            }
            assert forall|i: int, j: int|
                0 <= i < now.len() && 0 <= j < now.len() && i != j implies now[i] != now[j] by {
                if i == held.len() {
                    assert(held[j] == now[j]);
                    assert(held.contains(now[j]));
                } else if j == held.len() {
                    assert(held[i] == now[i]);
                    assert(held.contains(now[i]));
                }
            }
        }
        *self = NameSet { names };
        assert(self@ =~= old(self)@.insert(added));
    }

    /// The names, in the order in which they came in.
    pub fn names(&self) -> (names: &Vec<String>)
        ensures
            texts(names@).to_set() == self@,
            texts(names@).no_duplicates(),
    {
        proof {
            use_type_invariant(self);
        }
        &self.names
    }

    /// The number of names.
    pub fn len(&self) -> (n: usize)
        ensures
            n == self@.len(),
    {
        proof {
            use_type_invariant(self);
            texts(self.names@).unique_seq_to_set();
        }
        self.names.len()
    }

    /// Whether the set is empty.
    pub fn is_empty(&self) -> (empty: bool)
        ensures
            empty == (self@ == Set::<Seq<char>>::empty()),
    {
        let empty = self.names.is_empty();
        proof {
            if empty {
                assert(self@ =~= Set::<Seq<char>>::empty());
            } else {
                assert(texts(self.names@).contains(texts(self.names@)[0]));
                assert(self@.contains(texts(self.names@)[0]));
            }
        }
        empty
    }
}

impl Clone for NameSet {
    fn clone(&self) -> (copy: NameSet)
        ensures
            copy@ == self@,
    {
        NameSet::from_names(&self.names)
    }
}

/// A map from names to values.
#[derive(Debug)]
pub struct NameMap<V> {
    keys: Vec<String>,
    values: Vec<V>,
}

impl<V> View for NameMap<V> {
    type V = Map<Seq<char>, V>;

    closed spec fn view(&self) -> Map<Seq<char>, V> {
        Map::new(
            |k: Seq<char>| texts(self.keys@).contains(k),
            |k: Seq<char>| self.values@[texts(self.keys@).index_of(k)],
        )
    }
}

impl<V> NameMap<V> {
    #[verifier::type_invariant]
    spec fn holds_no_key_twice(self) -> bool {
        &&& self.keys@.len() == self.values@.len()
        &&& texts(self.keys@).no_duplicates()
    }

    /// The keys, in the order in which they came in.
    pub closed spec fn order(&self) -> Seq<Seq<char>> {
        texts(self.keys@)
    }

    /// A map without entries.
    pub fn new() -> (map: NameMap<V>)
        ensures
            map@ == Map::<Seq<char>, V>::empty(),
            map.order() == Seq::<Seq<char>>::empty(),
    {
        let map = NameMap { keys: Vec::new(), values: Vec::new() };
        assert(map@ =~= Map::<Seq<char>, V>::empty());
        assert(map.order() =~= Seq::<Seq<char>>::empty());
        map
    }

    fn position(&self, key: &str) -> (at: Option<usize>)
        ensures
            match at {
                Some(i) => {
                    &&& i < self.keys@.len()
                    &&& i < self.values@.len()
                    &&& texts(self.keys@)[i as int] == key@
                    &&& texts(self.keys@).index_of(key@) == i
                    &&& self@.contains_key(key@)
                    &&& self@[key@] == self.values@[i as int]
                },
                None => !self@.contains_key(key@),
            },
    {
        proof {
            use_type_invariant(self);
        }
        let mut i: usize = 0;
        while i < self.keys.len()
            invariant
                i <= self.keys@.len(),
                self.keys@.len() == self.values@.len(),
                texts(self.keys@).no_duplicates(),
                forall|j: int| 0 <= j < i ==> texts(self.keys@)[j] != key@,
            decreases self.keys@.len() - i,
        {
            if same_text(self.keys[i].as_str(), key) {
                proof {
                    assert(texts(self.keys@)[i as int] == key@);
                    assert(texts(self.keys@).contains(key@));
                }
                return Some(i);
            }
            i = i + 1;
        }
        None
    }

    /// The value under a key.
    pub fn get(&self, key: &str) -> (value: Option<&V>)
        ensures
            match value {
                Some(v) => self@.contains_key(key@) && self@[key@] == *v,
                None => !self@.contains_key(key@),
            },
    {
        match self.position(key) {
            Some(i) => Some(&self.values[i]),
            None => None,
        }
    }

    /// Whether there is a value under a key.
    pub fn contains_key(&self, key: &str) -> (found: bool)
        ensures
            found == self@.contains_key(key@),
    {
        self.position(key).is_some()
    }

    /// Puts a value under a key, in place of the one that stood there.
    pub fn insert(&mut self, key: String, value: V)
        ensures
            final(self)@ == old(self)@.insert(key@, value),
            final(self).order() == (if old(self)@.contains_key(key@) {
                old(self).order()
            } else {
                old(self).order().push(key@)
            }),
    {
        let at = self.position(key.as_str());
        proof {
            use_type_invariant(&*self);
        }
        let mut taken: NameMap<V> = NameMap { keys: Vec::new(), values: Vec::new() };
        std::mem::swap(self, &mut taken);
        let mut keys = taken.keys;
        let mut values = taken.values;
        let ghost held = texts(keys@);
        let ghost old_values = values@;
        let ghost added = key@;
        match at {
            Some(i) => {
                values[i] = value;
                proof {
                    assert forall|k: Seq<char>| held.contains(k) && k != added implies values@[held.index_of(
                        k,
                    )] == old_values[held.index_of(k)] by {
                        let j = held.index_of(k);
                        assert(held[j] == k);
                    }
                }
                *self = NameMap { keys, values };
            },
            None => {
                keys.push(key);
                values.push(value);
                proof {
                    let now = texts(keys@);
                    assert(now =~= held.push(added));
                    assert(!held.contains(added));
                    assert forall|a: Seq<char>| now.contains(a) <==> held.contains(a) || a
                        == added by {
                        if held.contains(a) {
                            let k = choose|k: int| 0 <= k < held.len() && held[k] == a;
                            assert(now[k] == a);
                        }
                        assert(now[held.len() as int] == added);
                    }
                    assert forall|i: int, j: int|
                        0 <= i < now.len() && 0 <= j < now.len() && i != j implies now[i]
                        != now[j] by {
                        if i == held.len() {
                            assert(held[j] == now[j]);
                            assert(held.contains(now[j]));
                        } else if j == held.len() {
                            assert(held[i] == now[i]);
                            assert(held.contains(now[i]));
                        }
                    }
                    assert(now.index_of(added) == held.len()) by {
                        assert(now[now.index_of(added)] == added);
                    }
                    assert forall|k: Seq<char>| held.contains(k) implies now.index_of(k)
                        == held.index_of(k) by {
                        let i = held.index_of(k);
                        let j = now.index_of(k);
                        assert(held[i] == k && now[i] == k);
                        assert(now[j] == k);
                    }
                }
                *self = NameMap { keys, values };
            },
        }
        assert(self@ =~= old(self)@.insert(added, value));
    }

    /// Takes the entry under a key out.
    pub fn remove(&mut self, key: &str)
        ensures
            final(self)@ == old(self)@.remove(key@),
    {
        let at = self.position(key);
        proof {
            use_type_invariant(&*self);
        }
        match at {
            None => {
                assert(self@ =~= old(self)@.remove(key@));
            },
            Some(i) => {
                let mut taken: NameMap<V> = NameMap { keys: Vec::new(), values: Vec::new() };
                std::mem::swap(self, &mut taken);
                let mut keys = taken.keys;
                let mut values = taken.values;
                let ghost held = texts(keys@);
                let ghost old_values = values@;
                let _ = keys.remove(i);
                let _ = values.remove(i);
                proof {
                    let now = texts(keys@);
                    assert(now =~= held.remove(i as int));
                    assert forall|a: int, b: int|
                        0 <= a < now.len() && 0 <= b < now.len() && a != b implies now[a]
                        != now[b] by {
                        let a2 = if a < i { a } else { a + 1 };
                        let b2 = if b < i { b } else { b + 1 };
                        assert(held[a2] == now[a] && held[b2] == now[b]);
                    }
                    assert forall|k: Seq<char>| now.contains(k) implies held.contains(k) && k
                        != key@ by {
                        let a = choose|a: int| 0 <= a < now.len() && now[a] == k;
                        let a2 = if a < i { a } else { a + 1 };
                        assert(held[a2] == k);
                        assert(held[i as int] == key@);
                    }
                    assert forall|k: Seq<char>| held.contains(k) && k != key@ implies now.contains(
                        k,
                    ) && values@[now.index_of(k)] == old_values[held.index_of(k)] by {
                        let a2 = held.index_of(k);
                        assert(held[a2] == k);
                        assert(a2 != i);
                        let a = if a2 < i { a2 } else { a2 - 1 };
                        assert(now[a] == k);
                        assert(now[now.index_of(k)] == k);
                    }
                }
                *self = NameMap { keys, values };
                assert(self@ =~= old(self)@.remove(key@));
            },
        }
    }

    /// The keys, in the order in which they came in.
    pub fn names(&self) -> (names: &Vec<String>)
        ensures
            texts(names@) == self.order(),
            self.order().no_duplicates(),
            self.order().to_set() == self@.dom(),
    {
        proof {
            use_type_invariant(self);
            assert(self.order().to_set() =~= self@.dom());
        }
        &self.keys
    }

    /// The number of entries.
    pub fn len(&self) -> (n: usize)
        ensures
            n == self@.dom().len(),
            n == self.order().len(),
    {
        proof {
            use_type_invariant(self);
            texts(self.keys@).unique_seq_to_set();
            assert(self.order().to_set() =~= self@.dom());
        }
        self.keys.len()
    }

    /// Whether the map has no entries.
    pub fn is_empty(&self) -> (empty: bool)
        ensures
            empty == (self@ == Map::<Seq<char>, V>::empty()),
    {
        let empty = self.keys.is_empty();
        proof {
            if empty {
                assert(self@ =~= Map::<Seq<char>, V>::empty());
            } else {
                assert(texts(self.keys@).contains(texts(self.keys@)[0]));
                assert(self@.contains_key(texts(self.keys@)[0]));
            }
        }
        empty
    }
}

/// The texts that a map from names to strings holds.
pub open spec fn text_map(map: Map<Seq<char>, String>) -> Map<Seq<char>, Seq<char>> {
    map.map_values(|s: String| s@)
}

impl Clone for NameMap<String> {
    fn clone(&self) -> (copy: NameMap<String>)
        ensures
            copy@ == self@,
            copy.order() == self.order(),
    {
        proof {
            use_type_invariant(self);
        }
        let mut copy: NameMap<String> = NameMap::new();
        let mut i: usize = 0;
        while i < self.keys.len()
            invariant
                i <= self.keys@.len(),
                self.keys@.len() == self.values@.len(),
                texts(self.keys@).no_duplicates(),
                copy.order() =~= texts(self.keys@).take(i as int),
                forall|k: Seq<char>| #[trigger]
                    copy@.contains_key(k) <==> texts(self.keys@).take(i as int).contains(k),
                forall|j: int|
                    0 <= j < i ==> copy@[#[trigger] texts(self.keys@)[j]] == self.values@[j],
            decreases self.keys@.len() - i,
        {
            let ghost before = copy@;
            let ghost keys = texts(self.keys@);
            let ghost key = keys[i as int];
            proof {
                assert(!keys.take(i as int).contains(key)) by {
                    if keys.take(i as int).contains(key) {
                        let j = choose|j: int| 0 <= j < i && keys.take(i as int)[j] == key;
                        assert(keys[j] == keys[i as int]);
                    }
                }
                assert(!copy@.contains_key(key));
            }
            copy.insert(self.keys[i].clone(), self.values[i].clone());
            proof {
                let done = keys.take(i as int);
                let next = keys.take(i + 1);
                assert(next =~= done.push(key));
                assert forall|k: Seq<char>| #[trigger]
                    copy@.contains_key(k) <==> next.contains(k) by {
                    if done.contains(k) {
                        let j = choose|j: int| 0 <= j < done.len() && done[j] == k;
                        assert(next[j] == k);
                    }
                    assert(next[i as int] == key);
                    if next.contains(k) && k != key {
                        let j = choose|j: int| 0 <= j < next.len() && next[j] == k;
                        assert(done[j] == k);
                    }
                    assert(copy@.contains_key(k) <==> before.contains_key(k) || k == key);
                }
            }
            i = i + 1;
        }
        proof {
            let keys = texts(self.keys@);
            assert(keys.take(keys.len() as int) =~= keys);
            assert forall|k: Seq<char>| self@.contains_key(k) implies copy@[k] == self@[k] by {
                assert(keys[keys.index_of(k)] == k);
            }
            assert(copy@ =~= self@);
        }
        copy
    }
}

/// The texts in a map are those of its strings.
pub proof fn text_maps_keep_their_texts(map: Map<Seq<char>, String>, key: Seq<char>)
    ensures
        text_map(map).contains_key(key) <==> map.contains_key(key),
        map.contains_key(key) ==> text_map(map)[key] == map[key]@,
{
}

} // verus!
