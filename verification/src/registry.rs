//! A map from names to values that remembers the order in which names
//! were first inserted.

use vstd::prelude::*;

verus! {

/// No name occurs twice.
pub open spec fn names_distinct<T>(m: Seq<(Seq<char>, T)>) -> bool {
    forall|i: int, j: int| 0 <= i < j < m.len() ==> (#[trigger] m[i]).0 != (#[trigger] m[j]).0
}

/// Some entry has the name.
pub open spec fn has_name<T>(m: Seq<(Seq<char>, T)>, name: Seq<char>) -> bool {
    exists|i: int| 0 <= i < m.len() && (#[trigger] m[i]).0 == name
}

/// The place of an entry with the name, where there is one.
pub open spec fn position<T>(m: Seq<(Seq<char>, T)>, name: Seq<char>) -> int {
    choose|i: int| 0 <= i < m.len() && (#[trigger] m[i]).0 == name
}

/// The value stored under the name, where there is one.
pub open spec fn value_of<T>(m: Seq<(Seq<char>, T)>, name: Seq<char>) -> T {
    m[position(m, name)].1
}

/// The entries after `value` was stored under `name`: in the place of the
/// entry that had the name, or at the end where none had it.
pub open spec fn upserted<T>(m: Seq<(Seq<char>, T)>, name: Seq<char>, value: T) -> Seq<
    (Seq<char>, T),
> {
    if has_name(m, name) {
        m.update(position(m, name), (name, value))
    } else {
        m.push((name, value))
    }
}

/// The entries as a map, without their order.
pub open spec fn to_map<T>(m: Seq<(Seq<char>, T)>) -> Map<Seq<char>, T> {
    Map::new(|name: Seq<char>| has_name(m, name), |name: Seq<char>| value_of(m, name))
}

/// The names, in order.
pub open spec fn names_of<T>(m: Seq<(Seq<char>, T)>) -> Seq<Seq<char>> {
    Seq::new(m.len(), |i: int| m[i].0)
}

/// The model of a list of entries.
pub open spec fn entries_view<V: View>(entries: Seq<(String, V)>) -> Seq<(Seq<char>, V::V)> {
    Seq::new(entries.len(), |i: int| (entries[i].0@, entries[i].1@))
}

/// Storing under a name keeps every entry's name in its place.
pub proof fn lemma_upserted_extends<T>(m: Seq<(Seq<char>, T)>, name: Seq<char>, value: T)
    requires
        names_distinct(m),
    ensures
        names_distinct(upserted(m, name, value)),
        upserted(m, name, value).len() >= m.len(),
        forall|i: int| 0 <= i < m.len() ==> (#[trigger] upserted(m, name, value)[i]).0 == m[i].0,
        forall|i: int|
            m.len() <= i < upserted(m, name, value).len() ==> !has_name(
                m,
                (#[trigger] upserted(m, name, value)[i]).0,
            ),
{
}

/// Storing under a name, seen as a map, is an insertion.
pub proof fn lemma_to_map_upserted<T>(m: Seq<(Seq<char>, T)>, name: Seq<char>, value: T)
    requires
        names_distinct(m),
    ensures
        names_distinct(upserted(m, name, value)),
        to_map(upserted(m, name, value)) == to_map(m).insert(name, value),
{
    let after = upserted(m, name, value);
    assert(names_distinct(after));
    assert forall|n: Seq<char>| has_name(after, n) <==> (n == name || has_name(m, n)) by {
        if has_name(after, n) {
            let i = choose|i: int| 0 <= i < after.len() && (#[trigger] after[i]).0 == n;
            if n != name {
                assert(i < m.len());
                assert(m[i].0 == n);
            }
        }
        if n == name {
            if has_name(m, name) {
                let p = position(m, name);
                assert(after[p].0 == name);
            } else {
                assert(after[m.len() as int].0 == name);
            }
        } else if has_name(m, n) {
            let i = choose|i: int| 0 <= i < m.len() && (#[trigger] m[i]).0 == n;
            assert(after[i].0 == n);
        }
    }
    assert forall|n: Seq<char>| has_name(after, n) implies value_of(after, n) == (if n == name {
        value
    } else {
        value_of(m, n)
    }) by {
        let i = position(after, n);
        if n == name {
            if has_name(m, name) {
                let p = position(m, name);
                assert(after[p].0 == name);
                assert(i == p);
            } else {
                assert(after[m.len() as int].0 == name);
                assert(i == m.len());
            }
        } else {
            let j = position(m, n);
            assert(m[j].0 == n);
            assert(after[j].0 == n);
            assert(i == j);
        }
    }
    assert(to_map(after) =~= to_map(m).insert(name, value));
}

/// A map from names to values. Storing under a name that is there replaces
/// the value and keeps the entry's place; a new name goes to the end.
#[derive(Debug)]
pub struct NameMap<V: View> {
    entries: Vec<(String, V)>,
}

impl<V: View> View for NameMap<V> {
    type V = Seq<(Seq<char>, V::V)>;

    closed spec fn view(&self) -> Seq<(Seq<char>, V::V)> {
        entries_view(self.entries@)
    }
}

impl<V: View> NameMap<V> {
    #[verifier::type_invariant]
    spec fn distinct(self) -> bool {
        names_distinct(self@)
    }

    /// The map without entries.
    pub fn new() -> (r: NameMap<V>)
        ensures
            r@ == Seq::<(Seq<char>, V::V)>::empty(),
    {
        let r = NameMap { entries: Vec::new() };
        assert(r@ =~= Seq::<(Seq<char>, V::V)>::empty());
        r
    }

    /// The number of entries.
    pub fn len(&self) -> (n: usize)
        ensures
            n == self@.len(),
            names_distinct(self@),
    {
        proof {
            use_type_invariant(self);
        }
        self.entries.len()
    }

    /// The entries in order, for reading.
    pub fn entries(&self) -> (r: &Vec<(String, V)>)
        ensures
            entries_view(r@) == self@,
            names_distinct(self@),
    {
        proof {
            use_type_invariant(self);
        }
        &self.entries
    }

    /// The names, in the order in which they were first stored.
    pub fn keys(&self) -> (r: Vec<String>)
        ensures
            crate::util::views(r@) == names_of(self@),
            names_distinct(self@),
    {
        proof {
            use_type_invariant(self);
        }
        let mut names: Vec<String> = Vec::new();
        let mut i: usize = 0;
        while i < self.entries.len()
            invariant
                i <= self.entries.len(),
                names.len() == i,
                forall|j: int| 0 <= j < i ==> (#[trigger] names@[j])@ == self.entries@[j].0@,
            decreases self.entries.len() - i,
        {
            names.push(self.entries[i].0.clone());
            i += 1;
        }
        assert(crate::util::views(names@) =~= names_of(self@));
        names
    }

    fn find(&self, name: &String) -> (r: Option<usize>)
        ensures
            names_distinct(self@),
            match r {
                Some(i) => i < self@.len() && self@[i as int].0 == name@ && has_name(self@, name@)
                    && position(self@, name@) == i,
                None => !has_name(self@, name@),
            },
    {
        proof {
            use_type_invariant(self);
        }
        let mut i: usize = 0;
        while i < self.entries.len()
            invariant
                i <= self.entries.len(),
                names_distinct(self@),
                forall|j: int| 0 <= j < i ==> (#[trigger] self@[j]).0 != name@,
            decreases self.entries.len() - i,
        {
            if self.entries[i].0 == *name {
                assert(self@[i as int].0 == name@);
                return Some(i);
            }
            i += 1;
        }
        None
    }

    /// Whether a value is stored under `name`.
    pub fn contains_key(&self, name: &str) -> (r: bool)
        ensures
            r == has_name(self@, name@),
    {
        let wanted = name.to_owned();
        self.find(&wanted).is_some()
    }

    /// The value stored under `name`.
    pub fn get(&self, name: &str) -> (r: Option<&V>)
        ensures
            match r {
                Some(v) => has_name(self@, name@) && v@ == value_of(self@, name@),
                None => !has_name(self@, name@),
            },
    {
        let wanted = name.to_owned();
        match self.find(&wanted) {
            Some(i) => Some(&self.entries[i].1),
            None => None,
        }
    }

    /// Stores `value` under `name`; a value that was there is replaced.
    pub fn insert(&mut self, name: String, value: V)
        ensures
            final(self)@ == upserted(old(self)@, name@, value@),
            names_distinct(old(self)@),
            names_distinct(final(self)@),
    {
        let found = self.find(&name);
        let mut entries: Vec<(String, V)> = Vec::new();
        core::mem::swap(&mut self.entries, &mut entries);
        match found {
            Some(i) => {
                entries.set(i, (name, value));
            },
            None => {
                entries.push((name, value));
            },
        }
        assert(entries_view(entries@) =~= upserted(old(self)@, name@, value@));
        core::mem::swap(&mut self.entries, &mut entries);
    }
}

} // verus!
