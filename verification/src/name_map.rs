//! Maps and sets keyed by names, kept and walked in the order of the names.
use crate::text::{before, lemma_before_asymmetric, lemma_before_irreflexive, lemma_before_transitive, standing, Standing};
use vstd::prelude::*;

verus! {

/// The entries stand in strictly increasing order of their names.
pub open spec fn ordered<V>(s: Seq<(Seq<char>, V)>) -> bool {
    forall|i: int, j: int| 0 <= i < j < s.len() ==> before(#[trigger] s[i].0, #[trigger] s[j].0)
}

/// The mapping that a sequence of entries describes; of two entries with one name the later counts.
pub open spec fn map_of<V>(s: Seq<(Seq<char>, V)>) -> Map<Seq<char>, V>
    decreases s.len(),
{
    if s.len() == 0 {
        Map::empty()
    } else {
        map_of(s.drop_last()).insert(s.last().0, s.last().1)
    }
}

/// Whether some entry has the name `key`.
pub open spec fn names<V>(s: Seq<(Seq<char>, V)>, key: Seq<char>) -> bool {
    exists|i: int| 0 <= i < s.len() && #[trigger] s[i].0 == key
}

/// The names of an ordered sequence are distinct, so that its mapping gives back each entry.
pub proof fn lemma_map_of<V>(s: Seq<(Seq<char>, V)>)
    requires
        ordered(s),
    ensures
        map_of(s).dom().finite(),
        map_of(s).len() == s.len(),
        forall|i: int|
            0 <= i < s.len() ==> map_of(s).contains_key(#[trigger] s[i].0) && map_of(s)[s[i].0]
                == s[i].1,
        forall|k: Seq<char>| #[trigger] map_of(s).contains_key(k) <==> names(s, k),
    decreases s.len(),
{
    if s.len() > 0 {
        let t = s.drop_last();
        lemma_map_of(t);
        assert(!map_of(t).contains_key(s.last().0)) by {
            if map_of(t).contains_key(s.last().0) {
                let i = choose|i: int| 0 <= i < t.len() && #[trigger] t[i].0 == s.last().0;
                assert(s[i].0 == t[i].0);
                lemma_before_asymmetric(s[i].0, s[s.len() - 1].0);
            }
        }
        assert forall|i: int| 0 <= i < s.len() implies map_of(s).contains_key(#[trigger] s[i].0)
            && map_of(s)[s[i].0] == s[i].1 by {
            if i < t.len() {
                assert(t[i] == s[i]);
                lemma_before_asymmetric(s[i].0, s[s.len() - 1].0);
            }
        }
        assert forall|k: Seq<char>| #[trigger] map_of(s).contains_key(k) <==> names(s, k) by {
            if map_of(s).contains_key(k) {
                if k == s.last().0 {
                    assert(s[s.len() - 1].0 == k);
                } else {
                    let i = choose|i: int| 0 <= i < t.len() && #[trigger] t[i].0 == k;
                    assert(s[i].0 == k);
                }
            }
            if names(s, k) {
                let i = choose|i: int| 0 <= i < s.len() && #[trigger] s[i].0 == k;
                assert(s[i].0 == k);
            }
        }
    }
}

/// A map from names to values.
#[derive(Debug, PartialEq, Eq)]
pub struct NameMap<V> {
    entries: Vec<(String, V)>,
}

impl<V> NameMap<V> {
    /// The entries in the order of their names.
    pub closed spec fn listing(self) -> Seq<(Seq<char>, V)> {
        Seq::new(self.entries@.len(), |i: int| (self.entries@[i].0@, self.entries@[i].1))
    }

    /// What every map keeps: its entries stand in the order of their names.
    #[verifier::type_invariant]
    pub open spec fn well_ordered(self) -> bool {
        ordered(self.listing())
    }
}

impl<V> View for NameMap<V> {
    type V = Map<Seq<char>, V>;

    open spec fn view(&self) -> Map<Seq<char>, V> {
        map_of(self.listing())
    }
}

impl<V> NameMap<V> {
    /// The map without entries.
    pub fn new() -> (r: Self)
        ensures
            r@ == Map::<Seq<char>, V>::empty(),
            r.listing() == Seq::<(Seq<char>, V)>::empty(),
    {
        let r = NameMap { entries: Vec::new() };
        assert(r.listing() =~= Seq::<(Seq<char>, V)>::empty());
        r
    }

    /// The number of entries.
    pub fn len(&self) -> (n: usize)
        ensures
            n == self.listing().len(),
            n == self@.len(),
    {
        proof {
            use_type_invariant(self);
            lemma_map_of(self.listing());
        }
        self.entries.len()
    }

    /// Whether there are no entries.
    pub fn is_empty(&self) -> (r: bool)
        ensures
            r == (self.listing().len() == 0),
            r == (self@ == Map::<Seq<char>, V>::empty()),
    {
        proof {
            use_type_invariant(self);
            lemma_map_of(self.listing());
        }
        self.entries.len() == 0
    }

    /// The place of `key`: where its entry stands, or where one would go.
    fn place(&self, key: &str) -> (r: (usize, bool))
        ensures
            r.0 <= self.listing().len(),
            forall|j: int| 0 <= j < r.0 ==> before(#[trigger] self.listing()[j].0, key@),
            r.1 ==> r.0 < self.listing().len() && self.listing()[r.0 as int].0 == key@,
            !r.1 ==> forall|j: int|
                r.0 <= j < self.listing().len() ==> before(key@, #[trigger] self.listing()[j].0),
    {
        proof {
            use_type_invariant(self);
        }
        let mut i: usize = 0;
        while i < self.entries.len()
            invariant
                i <= self.entries.len(),
                ordered(self.listing()),
                forall|j: int| 0 <= j < i ==> before(#[trigger] self.listing()[j].0, key@),
            decreases self.entries.len() - i,
        {
            let at = standing(&self.entries[i].0, key);
            assert(self.listing()[i as int].0 == self.entries@[i as int].0@);
            match at {
                Standing::Before => {
                    i = i + 1;
                },
                Standing::Same => {
                    return (i, true);
                },
                Standing::After => {
                    proof {
                        assert forall|j: int| i <= j < self.listing().len() implies before(
                            key@,
                            #[trigger] self.listing()[j].0,
                        ) by {
                            if j > i {
                                lemma_before_transitive(
                                    key@,
                                    self.listing()[i as int].0,
                                    self.listing()[j].0,
                                );
                            }
                        }
                    }
                    return (i, false);
                },
            }
        }
        (i, false)
    }

    proof fn lemma_absent(self, key: Seq<char>, at: int)
        requires
            self.well_ordered(),
            0 <= at <= self.listing().len(),
            forall|j: int| 0 <= j < at ==> before(#[trigger] self.listing()[j].0, key),
            forall|j: int|
                at <= j < self.listing().len() ==> before(key, #[trigger] self.listing()[j].0),
        ensures
            !self@.contains_key(key),
    {
        lemma_map_of(self.listing());
        if self@.contains_key(key) {
            let i = choose|i: int|
                0 <= i < self.listing().len() && #[trigger] self.listing()[i].0 == key;
            lemma_before_irreflexive(key);
        }
    }

    /// The value under `key`.
    pub fn get(&self, key: &str) -> (r: Option<&V>)
        ensures
            r is Some <==> self@.contains_key(key@),
            r matches Some(v) ==> *v == self@[key@],
    {
        let (at, found) = self.place(key);
        if found {
            proof {
                use_type_invariant(self);
                lemma_map_of(self.listing());
            }
            Some(&self.entries[at].1)
        } else {
            proof {
                use_type_invariant(self);
                self.lemma_absent(key@, at as int);
            }
            None
        }
    }

    /// Whether there is an entry under `key`.
    pub fn contains_key(&self, key: &str) -> (r: bool)
        ensures
            r == self@.contains_key(key@),
    {
        self.get(key).is_some()
    }

    /// The name of the entry at place `i`.
    pub fn key_at(&self, i: usize) -> (r: &String)
        requires
            i < self.listing().len(),
        ensures
            r@ == self.listing()[i as int].0,
    {
        &self.entries[i].0
    }

    /// The value of the entry at place `i`.
    pub fn value_at(&self, i: usize) -> (r: &V)
        requires
            i < self.listing().len(),
        ensures
            *r == self.listing()[i as int].1,
    {
        &self.entries[i].1
    }

    /// Puts `value` at place `i`, under the name that stands there.
    pub fn replace_at(&mut self, i: usize, value: V)
        requires
            i < old(self).listing().len(),
        ensures
            final(self).listing() == old(self).listing().update(
                i as int,
                (old(self).listing()[i as int].0, value),
            ),
            final(self)@ == old(self)@.insert(old(self).listing()[i as int].0, value),
    {
        proof {
            use_type_invariant(&*self);
        }
        let ghost before_list = self.listing();
        let mut entries: Vec<(String, V)> = Vec::new();
        std::mem::swap(&mut entries, &mut self.entries);
        let last = entries.remove(i);
        let ghost name = last.0@;
        entries.insert(i, (last.0, value));
        let ghost after_list = Seq::new(entries@.len(), |j: int| (entries@[j].0@, entries@[j].1));
        proof {
            assert(after_list =~= before_list.update(i as int, (name, value)));
            assert(ordered(after_list));
        }
        self.entries = entries;
        proof {
            assert(self.listing() =~= after_list);
            lemma_map_of(before_list);
            lemma_map_of(after_list);
            assert forall|k: Seq<char>| #[trigger]
                map_of(after_list).contains_key(k) == map_of(before_list).insert(
                    name,
                    value,
                ).contains_key(k) && (map_of(after_list).contains_key(k) ==> map_of(after_list)[k]
                == map_of(before_list).insert(name, value)[k]) by {
                lemma_same_after_put(before_list, after_list, i as int, true, name, value, k);
            }
            assert(map_of(after_list) =~= map_of(before_list).insert(name, value));
        }
    }

    /// Puts `value` under `key`, in place of what stood there.
    pub fn insert(&mut self, key: String, value: V) -> (r: Option<V>)
        ensures
            final(self)@ == old(self)@.insert(key@, value),
            r is Some <==> old(self)@.contains_key(key@),
            r matches Some(v) ==> v == old(self)@[key@],
    {
        let (at, found) = self.place(&key);
        let ghost before_list = self.listing();
        let ghost before_map = self@;
        let ghost name = key@;
        proof {
            use_type_invariant(&*self);
            lemma_map_of(self.listing());
            if !found {
                self.lemma_absent(key@, at as int);
            }
        }
        let mut entries: Vec<(String, V)> = Vec::new();
        std::mem::swap(&mut entries, &mut self.entries);
        let displaced: Option<V>;
        if found {
            let last = entries.remove(at);
            displaced = Some(last.1);
        } else {
            displaced = None;
        }
        entries.insert(at, (key, value));
        let ghost after_list = Seq::new(
            entries@.len(),
            |i: int| (entries@[i].0@, entries@[i].1),
        );
        proof {
            if found {
                assert(after_list =~= before_list.update(at as int, (name, value)));
            } else {
                assert(after_list =~= before_list.insert(at as int, (name, value)));
            }
            assert(ordered(after_list));
        }
        self.entries = entries;
        proof {
            assert(self.listing() =~= after_list);
            lemma_map_of(after_list);
            assert forall|k: Seq<char>| #[trigger]
                map_of(after_list).contains_key(k) == before_map.insert(name, value).contains_key(
                    k,
                ) && (map_of(after_list).contains_key(k) ==> map_of(after_list)[k]
                == before_map.insert(name, value)[k]) by {
                lemma_same_after_put(before_list, after_list, at as int, found, name, value, k);
            }
            assert(map_of(after_list) =~= before_map.insert(name, value));
        }
        displaced
    }

    /// Takes the entry under `key` out.
    pub fn remove(&mut self, key: &str) -> (r: Option<V>)
        ensures
            final(self)@ == old(self)@.remove(key@),
            r is Some <==> old(self)@.contains_key(key@),
            r matches Some(v) ==> v == old(self)@[key@],
    {
        let (at, found) = self.place(key);
        let ghost before_list = self.listing();
        let ghost before_map = self@;
        proof {
            use_type_invariant(&*self);
            lemma_map_of(self.listing());
            if !found {
                self.lemma_absent(key@, at as int);
            }
        }
        if !found {
            assert(before_map.remove(key@) =~= before_map);
            return None;
        }
        let mut entries: Vec<(String, V)> = Vec::new();
        std::mem::swap(&mut entries, &mut self.entries);
        let taken = entries.remove(at);
        let ghost after_list = Seq::new(
            entries@.len(),
            |i: int| (entries@[i].0@, entries@[i].1),
        );
        proof {
            assert(after_list =~= before_list.remove(at as int));
            assert(ordered(after_list));
        }
        self.entries = entries;
        proof {
            assert(self.listing() =~= after_list);
            lemma_map_of(after_list);
            assert forall|k: Seq<char>| #[trigger]
                map_of(after_list).contains_key(k) == before_map.remove(key@).contains_key(k) && (
            map_of(after_list).contains_key(k) ==> map_of(after_list)[k] == before_map.remove(
                key@,
            )[k]) by {
                lemma_same_after_take(before_list, after_list, at as int, key@, k);
            }
            assert(map_of(after_list) =~= before_map.remove(key@));
        }
        Some(taken.1)
    }
}

impl<V: Clone> Clone for NameMap<V> {
    fn clone(&self) -> (r: Self)
        ensures
            r.listing().len() == self.listing().len(),
            forall|i: int|
                #![trigger r.listing()[i]]
                0 <= i < self.listing().len() ==> r.listing()[i].0 == self.listing()[i].0
                    && cloned::<V>(self.listing()[i].1, r.listing()[i].1),
    {
        proof {
            use_type_invariant(self);
        }
        let mut entries: Vec<(String, V)> = Vec::new();
        let mut i: usize = 0;
        while i < self.entries.len()
            invariant
                i <= self.entries.len(),
                entries@.len() == i,
                forall|j: int|
                    #![trigger entries@[j]]
                    0 <= j < i ==> entries@[j].0@ == self.entries@[j].0@ && cloned::<V>(
                        self.entries@[j].1,
                        entries@[j].1,
                    ),
            decreases self.entries.len() - i,
        {
            let value = self.entries[i].1.clone();
            entries.push((self.entries[i].0.clone(), value));
            i = i + 1;
        }
        let ghost copy = Seq::new(entries@.len(), |i: int| (entries@[i].0@, entries@[i].1));
        proof {
            assert forall|a: int, b: int| 0 <= a < b < copy.len() implies before(
                #[trigger] copy[a].0,
                #[trigger] copy[b].0,
            ) by {
                assert(self.listing()[a].0 == copy[a].0);
                assert(self.listing()[b].0 == copy[b].0);
            }
        }
        let r = NameMap { entries };
        assert(r.listing() =~= copy);
        r
    }
}

proof fn lemma_same_after_put<V>(
    old_list: Seq<(Seq<char>, V)>,
    new_list: Seq<(Seq<char>, V)>,
    at: int,
    found: bool,
    key: Seq<char>,
    value: V,
    k: Seq<char>,
)
    requires
        ordered(old_list),
        ordered(new_list),
        0 <= at <= old_list.len(),
        found ==> at < old_list.len() && old_list[at].0 == key && new_list == old_list.update(
            at,
            (key, value),
        ),
        !found ==> new_list == old_list.insert(at, (key, value)),
    ensures
        map_of(new_list).contains_key(k) == map_of(old_list).insert(key, value).contains_key(k),
        map_of(new_list).contains_key(k) ==> map_of(new_list)[k] == map_of(old_list).insert(
            key,
            value,
        )[k],
{
    lemma_map_of(old_list);
    lemma_map_of(new_list);
    assert(new_list[at].0 == key && new_list[at].1 == value);
    if k != key {
        if names(new_list, k) {
            let i = choose|i: int| 0 <= i < new_list.len() && #[trigger] new_list[i].0 == k;
            let j = if found || i < at { i } else { i - 1 };
            assert(old_list[j] == new_list[i]);
        }
        if names(old_list, k) {
            let i = choose|i: int| 0 <= i < old_list.len() && #[trigger] old_list[i].0 == k;
            let j = if found || i < at { i } else { i + 1 };
            assert(new_list[j] == old_list[i]);
        }
    }
}

proof fn lemma_same_after_take<V>(
    old_list: Seq<(Seq<char>, V)>,
    new_list: Seq<(Seq<char>, V)>,
    at: int,
    key: Seq<char>,
    k: Seq<char>,
)
    requires
        ordered(old_list),
        ordered(new_list),
        0 <= at < old_list.len(),
        old_list[at].0 == key,
        new_list == old_list.remove(at),
    ensures
        map_of(new_list).contains_key(k) == map_of(old_list).remove(key).contains_key(k),
        map_of(new_list).contains_key(k) ==> map_of(new_list)[k] == map_of(old_list).remove(key)[k],
{
    lemma_map_of(old_list);
    lemma_map_of(new_list);
    if names(new_list, k) {
        let i = choose|i: int| 0 <= i < new_list.len() && #[trigger] new_list[i].0 == k;
        let j = if i < at { i } else { i + 1 };
        assert(old_list[j] == new_list[i]);
        if j < at {
            lemma_before_asymmetric(old_list[j].0, old_list[at].0);
        } else {
            lemma_before_asymmetric(old_list[at].0, old_list[j].0);
        }
    }
    if names(old_list, k) && k != key {
        let i = choose|i: int| 0 <= i < old_list.len() && #[trigger] old_list[i].0 == k;
        let j = if i < at { i } else { i - 1 };
        assert(new_list[j] == old_list[i]);
    }
}

/// A set of names.
#[derive(Debug, PartialEq, Eq)]
pub struct NameSet {
    names: NameMap<()>,
}

impl View for NameSet {
    type V = Set<Seq<char>>;

    closed spec fn view(&self) -> Set<Seq<char>> {
        self.names@.dom()
    }
}

impl NameSet {
    /// The set without names.
    pub fn new() -> (r: Self)
        ensures
            r@ == Set::<Seq<char>>::empty(),
    {
        let r = NameSet { names: NameMap::new() };
        assert(r@ =~= Set::<Seq<char>>::empty());
        r
    }

    /// Whether `name` is in the set.
    pub fn contains(&self, name: &str) -> (r: bool)
        ensures
            r == self@.contains(name@),
    {
        self.names.contains_key(name)
    }

    /// Whether the set has no names.
    pub fn is_empty(&self) -> (r: bool)
        ensures
            r == (self@ == Set::<Seq<char>>::empty()),
    {
        let n: usize = self.names.len();
        proof {
            use_type_invariant(&self.names);
            lemma_map_of(self.names.listing());
            if n == 0 {
                assert(self.names.listing() =~= Seq::<(Seq<char>, ())>::empty());
                assert(self@ =~= Set::<Seq<char>>::empty());
            } else {
                assert(self@.contains(self.names.listing()[0].0));
            }
        }
        n == 0
    }

    /// Puts `name` into the set; whether it was not there before.
    pub fn insert(&mut self, name: String) -> (r: bool)
        ensures
            final(self)@ == old(self)@.insert(name@),
            r == !old(self)@.contains(name@),
    {
        let ghost key = name@;
        let displaced = self.names.insert(name, ());
        assert(self@ =~= old(self)@.insert(key));
        displaced.is_none()
    }

    /// The names of a list.
    pub fn from_list(list: &Vec<String>) -> (r: Self)
        ensures
            r@ == name_set(texts(list@)),
    {
        let mut r = NameSet::new();
        let mut i: usize = 0;
        assert(name_set(texts(list@.take(0))) =~= Set::<Seq<char>>::empty());
        while i < list.len()
            invariant
                i <= list.len(),
                r@ == name_set(texts(list@.take(i as int))),
            decreases list.len() - i,
        {
            r.insert(list[i].clone());
            proof {
                let s = texts(list@.take(i as int));
                let t = texts(list@.take(i + 1));
                assert(t =~= s.push(list@[i as int]@));
                lemma_name_set_push(s, list@[i as int]@);
            }
            i = i + 1;
        }
        assert(list@.take(i as int) =~= list@);
        r
    }
}

/// The texts of a list of strings.
pub open spec fn texts(list: Seq<String>) -> Seq<Seq<char>> {
    list.map_values(|s: String| s@)
}

/// The set of the names that a sequence holds.
pub open spec fn name_set(s: Seq<Seq<char>>) -> Set<Seq<char>> {
    Set::new(|k: Seq<char>| s.contains(k))
}

pub proof fn lemma_name_set_push(s: Seq<Seq<char>>, name: Seq<char>)
    ensures
        name_set(s.push(name)) == name_set(s).insert(name),
{
    assert forall|k: Seq<char>| #[trigger] s.push(name).contains(k) == (s.contains(k) || k == name) by {
        if s.contains(k) {
            let i = choose|i: int| 0 <= i < s.len() && s[i] == k;
            assert(s.push(name)[i] == k);
        }
        if k == name {
            assert(s.push(name)[s.len() as int] == k);
        }
    }
    assert(name_set(s.push(name)) =~= name_set(s).insert(name));
}

/// Whether `name` is in the list.
pub fn lists(list: &Vec<String>, name: &str) -> (r: bool)
    ensures
        r == texts(list@).contains(name@),
{
    let mut i: usize = 0;
    while i < list.len()
        invariant
            i <= list.len(),
            forall|j: int| 0 <= j < i ==> list@[j]@ != name@,
        decreases list.len() - i,
    {
        if crate::text::same(&list[i], name) {
            assert(texts(list@)[i as int] == name@);
            return true;
        }
        i = i + 1;
    }
    proof {
        if texts(list@).contains(name@) {
            let j = choose|j: int| 0 <= j < texts(list@).len() && texts(list@)[j] == name@;
            assert(list@[j]@ == name@);
        }
    }
    false
}

/// A list with the same texts.
pub fn copy_list(list: &Vec<String>) -> (r: Vec<String>)
    ensures
        texts(r@) == texts(list@),
{
    let mut r: Vec<String> = Vec::new();
    let mut i: usize = 0;
    while i < list.len()
        invariant
            i <= list.len(),
            texts(r@) == texts(list@.take(i as int)),
        decreases list.len() - i,
    {
        r.push(list[i].clone());
        assert(texts(list@.take(i + 1)) =~= texts(list@.take(i as int)).push(list@[i as int]@));
        assert(texts(r@) =~= texts(list@.take(i as int)).push(list@[i as int]@));
        i = i + 1;
    }
    assert(list@.take(i as int) =~= list@);
    r
}

/// A list of strings has the texts of its strings, each in its place, and the names of a list are its texts.
pub proof fn law_lists_have_the_texts_of_their_strings(list: Seq<String>, name: Seq<char>)
    ensures
        texts(list).len() == list.len(),
        forall|i: int| 0 <= i < list.len() ==> #[trigger] texts(list)[i] == list[i]@,
        texts(list).contains(name) <==> exists|i: int|
            0 <= i < list.len() && (#[trigger] list[i])@ == name,
        name_set(texts(list)).contains(name) <==> exists|i: int|
            0 <= i < list.len() && (#[trigger] list[i])@ == name,
{
    if texts(list).contains(name) {
        let i = choose|i: int| 0 <= i < texts(list).len() && texts(list)[i] == name;
        assert(list[i]@ == name);
    }
    if exists|i: int| 0 <= i < list.len() && (#[trigger] list[i])@ == name {
        let i = choose|i: int| 0 <= i < list.len() && (#[trigger] list[i])@ == name;
        assert(texts(list)[i] == name);
    }
}

/// A map holds its entries: what its listing gives for a name, the map gives for it, and it gives nothing else. The
/// listing goes from the first name to the last.
pub proof fn law_maps_hold_their_entries<V>(map: NameMap<V>, name: Seq<char>)
    requires
        map.well_ordered(),
    ensures
        map@.contains_key(name) <==> exists|i: int|
            0 <= i < map.listing().len() && (#[trigger] map.listing()[i]).0 == name,
        forall|i: int|
            0 <= i < map.listing().len() ==> map@.contains_key((#[trigger] map.listing()[i]).0)
                && map@[map.listing()[i].0] == map.listing()[i].1,
        forall|i: int, j: int|
            0 <= i < j < map.listing().len() ==> before(
                (#[trigger] map.listing()[i]).0,
                (#[trigger] map.listing()[j]).0,
            ),
{
    let s = map.listing();
    lemma_map_of(s);
    if map@.contains_key(name) {
        assert(names(s, name));
        let i = choose|i: int| 0 <= i < s.len() && #[trigger] s[i].0 == name;
        assert(map.listing()[i].0 == name);
    }
    if exists|i: int| 0 <= i < s.len() && (#[trigger] s[i]).0 == name {
        let i = choose|i: int| 0 <= i < s.len() && (#[trigger] s[i]).0 == name;
        assert(map_of(s).contains_key(s[i].0));
    }
    assert forall|i: int| 0 <= i < s.len() implies map@.contains_key((#[trigger] s[i]).0) && map@[
        s[i].0
    ] == s[i].1 by {
        assert(map_of(s).contains_key(s[i].0));
    }
    assert forall|i: int, j: int| 0 <= i < j < s.len() implies before(
        (#[trigger] s[i]).0,
        (#[trigger] s[j]).0,
    ) by {
        assert(before(s[i].0, s[j].0));
    }
}

} // verus!
