//! A map from names to values that is walked in the order of the names.

use crate::order::{
    before, before_has_a_reason, before_is_irreflexive, before_is_transitive, place,
    strict_order_is_unique, strictly_ordered, Place,
};
use vstd::prelude::*;
use vstd::utf8::{encode_utf8, encode_utf8_decode_utf8};

verus! {

/// A map from names to values. Its entries stand in the byte order of the names.
#[derive(Debug)]
pub struct NameMap<E> {
    names: Vec<String>,
    values: Vec<E>,
}

/// The bytes of each name.
pub open spec fn name_bytes(names: Seq<Seq<char>>) -> Seq<Seq<u8>> {
    Seq::new(names.len(), |i: int| encode_utf8(names[i]))
}

/// The position of a name.
pub open spec fn position(names: Seq<Seq<char>>, name: Seq<char>) -> int {
    choose|i: int| 0 <= i < names.len() && names[i] == name
}

/// The map that gives each name the value at its position.
pub open spec fn as_map<E>(names: Seq<Seq<char>>, values: Seq<E>) -> Map<Seq<char>, E> {
    Map::new(
        |name: Seq<char>| names.contains(name),
        |name: Seq<char>| values[position(names, name)],
    )
}

impl<E> View for NameMap<E> {
    type V = Map<Seq<char>, E>;

    open spec fn view(&self) -> Map<Seq<char>, E> {
        as_map(self.names(), self.values())
    }
}

proof fn lemma_bytes_fix_name(a: Seq<char>, b: Seq<char>)
    requires
        encode_utf8(a) == encode_utf8(b),
    ensures
        a == b,
{
    encode_utf8_decode_utf8(a);
    encode_utf8_decode_utf8(b);
}

proof fn lemma_names_differ(names: Seq<Seq<char>>, i: int, j: int)
    requires
        strictly_ordered(name_bytes(names)),
        0 <= i < names.len(),
        0 <= j < names.len(),
        names[i] == names[j],
    ensures
        i == j,
{
    let bytes = name_bytes(names);
    before_is_irreflexive(bytes[i]);
    if i < j {
        assert(before(bytes[i], bytes[j]));
    } else if j < i {
        assert(before(bytes[j], bytes[i]));
    }
}

proof fn lemma_position(names: Seq<Seq<char>>, i: int)
    requires
        strictly_ordered(name_bytes(names)),
        0 <= i < names.len(),
    ensures
        names.contains(names[i]),
        position(names, names[i]) == i,
{
    lemma_names_differ(names, position(names, names[i]), i);
}

proof fn lemma_replace<E>(names: Seq<Seq<char>>, values: Seq<E>, at: int, value: E)
    requires
        names.len() == values.len(),
        strictly_ordered(name_bytes(names)),
        0 <= at < names.len(),
    ensures
        as_map(names, values.update(at, value)) == as_map(names, values).insert(names[at], value),
{
    let new = as_map(names, values.update(at, value));
    let wanted = as_map(names, values).insert(names[at], value);
    lemma_position(names, at);
    assert forall|name: Seq<char>| new.contains_key(name) implies #[trigger] new[name] == wanted[name] by {
        let i = position(names, name);
        assert(names[i] == name);
    }
    assert(new =~= wanted);
}

proof fn lemma_place<E>(names: Seq<Seq<char>>, values: Seq<E>, at: int, name: Seq<char>, value: E)
    requires
        names.len() == values.len(),
        strictly_ordered(name_bytes(names)),
        0 <= at <= names.len(),
        forall|k: int| 0 <= k < at ==> before(#[trigger] name_bytes(names)[k], encode_utf8(name)),
        at < names.len() ==> before(encode_utf8(name), encode_utf8(names[at])),
    ensures
        strictly_ordered(name_bytes(names.insert(at, name))),
        as_map(names.insert(at, name), values.insert(at, value)) == as_map(names, values).insert(
            name,
            value,
        ),
{
    let bytes = name_bytes(names);
    let key = encode_utf8(name);
    let names1 = names.insert(at, name);
    let values1 = values.insert(at, value);
    let bytes1 = name_bytes(names1);
    assert forall|k: int| at <= k < names.len() implies before(key, #[trigger] bytes[k]) by {
        if at < k {
            assert(before(bytes[at], bytes[k]));
            before_is_transitive(key, bytes[at], bytes[k]);
        }
    }
    assert forall|i: int, j: int| 0 <= i < j < bytes1.len() implies #[trigger] before(
        bytes1[i],
        bytes1[j],
    ) by {
        let i0 = if i < at { i } else { i - 1 };
        let j0 = if j < at { j } else { j - 1 };
        if i == at {
            assert(bytes1[j] == bytes[j0]);
        } else if j == at {
            assert(bytes1[i] == bytes[i0]);
        } else {
            assert(bytes1[i] == bytes[i0]);
            assert(bytes1[j] == bytes[j0]);
            assert(before(bytes[i0], bytes[j0]));
        }
    }
    let new = as_map(names1, values1);
    let old_map = as_map(names, values);
    let wanted = old_map.insert(name, value);
    lemma_position(names1, at);
    assert forall|other: Seq<char>| names1.contains(other) implies names.contains(other) || other == name by {
        let i = position(names1, other);
        if i < at {
            assert(names[i] == other);
        } else if i > at {
            assert(names[i - 1] == other);
        }
    }
    assert forall|other: Seq<char>| names.contains(other) implies names1.contains(other) && new[other]
        == wanted[other] by {
        let i = position(names, other);
        let i1 = if i < at { i } else { i + 1 };
        assert(names1[i1] == other);
        lemma_position(names1, i1);
        if other == name {
            before_is_irreflexive(key);
            assert(bytes[i] == key);
        }
    }
    assert(new =~= wanted);
}

impl<E> NameMap<E> {
    /// The names, in order.
    pub closed spec fn names(&self) -> Seq<Seq<char>> {
        Seq::new(self.names@.len(), |i: int| self.names@[i]@)
    }

    /// The values, in the order of their names.
    pub closed spec fn values(&self) -> Seq<E> {
        self.values@
    }

    /// There is one value for each name, and the names are strictly ordered by
    /// their bytes.
    pub open spec fn wf(&self) -> bool {
        &&& self.names().len() == self.values().len()
        &&& strictly_ordered(name_bytes(self.names()))
    }

    /// The map without entries.
    pub fn new() -> (map: Self)
        ensures
            map.wf(),
            map@ == Map::<Seq<char>, E>::empty(),
            map.names() == Seq::<Seq<char>>::empty(),
    {
        let map: NameMap<E> = NameMap { names: Vec::new(), values: Vec::new() };
        assert(map.names() =~= Seq::empty());
        assert(map@ =~= Map::<Seq<char>, E>::empty());
        map
    }

    /// How many entries there are.
    pub fn len(&self) -> (n: usize)
        requires
            self.wf(),
        ensures
            n == self.names().len(),
    {
        self.names.len()
    }

    /// The name of entry `i`.
    pub fn name(&self, i: usize) -> (name: &str)
        requires
            self.wf(),
            i < self.names().len(),
        ensures
            name@ == self.names()[i as int],
    {
        self.names[i].as_str()
    }

    /// The value of entry `i`.
    pub fn value(&self, i: usize) -> (value: &E)
        requires
            self.wf(),
            i < self.names().len(),
        ensures
            *value == self.values()[i as int],
            self@.contains_key(self.names()[i as int]),
            *value == self@[self.names()[i as int]],
    {
        proof {
            self.entry_is_in_map(i as int);
        }
        &self.values[i]
    }

    /// Sets the value of a name. An earlier value of that name is dropped.
    pub fn insert(&mut self, name: String, value: E)
        requires
            old(self).wf(),
        ensures
            final(self).wf(),
            final(self)@ == old(self)@.insert(name@, value),
    {
        let ghost names = self.names();
        let ghost values = self.values();
        let ghost bytes = name_bytes(names);
        let ghost key = encode_utf8(name@);
        let mut at: usize = 0;
        while at < self.names.len() && place(self.names[at].as_str().as_bytes(), name.as_str().as_bytes()) == Place::Before
            invariant
                at <= self.names@.len(),
                names == self.names(),
                bytes == name_bytes(names),
                key == encode_utf8(name@),
                forall|k: int| 0 <= k < at ==> before(#[trigger] bytes[k], key),
            decreases self.names@.len() - at,
        {
            at = at + 1;
        }
        if at < self.names.len() && place(self.names[at].as_str().as_bytes(), name.as_str().as_bytes()) == Place::Same {
            proof {
                lemma_bytes_fix_name(names[at as int], name@);
                lemma_replace(names, values, at as int, value);
            }
            self.values.set(at, value);
            assert(self.names() =~= names);
            assert(self.values() =~= values.update(at as int, value));
        } else {
            proof {
                lemma_place(names, values, at as int, name@, value);
            }
            self.names.insert(at, name);
            self.values.insert(at, value);
            assert(self.names() =~= names.insert(at as int, name@));
            assert(self.values() =~= values.insert(at as int, value));
        }
    }
}

impl<E> NameMap<E> {
    /// Each listed entry is an entry of the map.
    pub proof fn entry_is_in_map(&self, i: int)
        requires
            self.wf(),
            0 <= i < self.names().len(),
        ensures
            self@.contains_key(self.names()[i]),
            self@[self.names()[i]] == self.values()[i],
    {
        lemma_position(self.names(), i);
    }

    /// Maps with the same entries list them in the same order.
    pub proof fn entries_fix_the_order(&self, other: &Self)
        requires
            self.wf(),
            other.wf(),
            self@ == other@,
        ensures
            self.names() == other.names(),
            self.values() == other.values(),
    {
        self.domain_fixes_the_order(other);
        assert forall|i: int| 0 <= i < self.values().len() implies self.values()[i] == other.values()[i] by {
            self.entry_is_in_map(i);
            other.entry_is_in_map(i);
        }
        assert(self.values() =~= other.values());
    }
}

impl<E> NameMap<E> {
    /// Maps that know the same names list them in the same order, whatever the
    /// values are.
    pub proof fn domain_fixes_the_order<F>(&self, other: &NameMap<F>)
        requires
            self.wf(),
            other.wf(),
            self@.dom() == other@.dom(),
        ensures
            self.names() == other.names(),
    {
        let s = name_bytes(self.names());
        let t = name_bytes(other.names());
        assert forall|bytes: Seq<u8>| s.contains(bytes) <==> t.contains(bytes) by {
            if s.contains(bytes) {
                let i = choose|i: int| 0 <= i < s.len() && s[i] == bytes;
                self.entry_is_in_map(i);
                assert(other@.contains_key(self.names()[i]));
                let j = position(other.names(), self.names()[i]);
                assert(t[j] == bytes);
            }
            if t.contains(bytes) {
                let j = choose|j: int| 0 <= j < t.len() && t[j] == bytes;
                other.entry_is_in_map(j);
                assert(self@.contains_key(other.names()[j]));
                let i = position(self.names(), other.names()[j]);
                assert(s[i] == bytes);
            }
        }
        strict_order_is_unique(s, t);
        assert forall|i: int| 0 <= i < self.names().len() implies self.names()[i] == other.names()[i] by {
            assert(s[i] == t[i]);
            lemma_bytes_fix_name(self.names()[i], other.names()[i]);
        }
        assert(self.names() =~= other.names());
    }
}

impl<E> NameMap<E> {
    /// The listing is complete, and holds no name twice: a name has a value exactly if
    /// it stands at one place of the listing.
    pub proof fn listing_is_complete(&self, name: Seq<char>)
        requires
            self.wf(),
        ensures
            self.names().len() == self.values().len(),
            self@.contains_key(name) <==> exists|i: int|
                0 <= i < self.names().len() && #[trigger] self.names()[i] == name,
            self.names().no_duplicates(),
    {
        assert forall|i: int, j: int|
            0 <= i < self.names().len() && 0 <= j < self.names().len() && i
                != j implies self.names()[i] != self.names()[j] by {
            if self.names()[i] == self.names()[j] {
                lemma_names_differ(self.names(), i, j);
            }
        }
        if self@.contains_key(name) {
            let i = position(self.names(), name);
            assert(self.names()[i] == name);
        }
    }

    /// The names are listed by their bytes: an earlier name is a proper prefix of a
    /// later one, or has the smaller byte where they first differ.
    pub proof fn names_are_listed_by_their_bytes(&self, i: int, j: int)
        requires
            self.wf(),
            0 <= i < j < self.names().len(),
        ensures
            exists|d: int|
                0 <= d <= encode_utf8(self.names()[i]).len() && d < encode_utf8(self.names()[j]).len()
                    && #[trigger] encode_utf8(self.names()[i]).take(d) == encode_utf8(
                    self.names()[j],
                ).take(d) && (d == encode_utf8(self.names()[i]).len() || encode_utf8(self.names()[i])[d]
                    < encode_utf8(self.names()[j])[d]),
    {
        let bytes = name_bytes(self.names());
        assert(before(bytes[i], bytes[j]));
        before_has_a_reason(bytes[i], bytes[j]);
    }
}

/// The map after these entries were set, one after the other.
pub open spec fn filled<E>(entries: Seq<(Seq<char>, E)>) -> Map<Seq<char>, E>
    decreases entries.len(),
{
    if entries.len() == 0 {
        Map::empty()
    } else {
        filled(entries.drop_last()).insert(entries.last().0, entries.last().1)
    }
}

/// No name is set twice.
pub open spec fn set_once<E>(entries: Seq<(Seq<char>, E)>) -> bool {
    forall|i: int, j: int|
        0 <= i < j < entries.len() ==> (#[trigger] entries[i]).0 != (#[trigger] entries[j]).0
}

proof fn lemma_filled<E>(entries: Seq<(Seq<char>, E)>)
    requires
        set_once(entries),
    ensures
        forall|i: int|
            0 <= i < entries.len() ==> filled(entries).contains_key((#[trigger] entries[i]).0)
                && filled(entries)[entries[i].0] == entries[i].1,
        forall|name: Seq<char>| #[trigger]
            filled(entries).contains_key(name) ==> exists|i: int|
                0 <= i < entries.len() && (#[trigger] entries[i]).0 == name,
    decreases entries.len(),
{
    if entries.len() > 0 {
        let rest = entries.drop_last();
        let last = entries.last();
        assert(forall|i: int| 0 <= i < rest.len() ==> rest[i] == entries[i]);
        lemma_filled(rest);
        assert forall|i: int| 0 <= i < entries.len() implies filled(entries).contains_key(
            (#[trigger] entries[i]).0,
        ) && filled(entries)[entries[i].0] == entries[i].1 by {
            if i < rest.len() {
                assert(rest[i] == entries[i]);
                assert(entries[i].0 != entries[entries.len() - 1].0);
            }
        }
        assert forall|name: Seq<char>| #[trigger] filled(entries).contains_key(name) implies exists|
            i: int,
        | 0 <= i < entries.len() && (#[trigger] entries[i]).0 == name by {
            if name == last.0 {
                assert(entries[entries.len() - 1].0 == name);
            } else {
                assert(filled(rest).contains_key(name));
                let i = choose|i: int| 0 <= i < rest.len() && (#[trigger] rest[i]).0 == name;
                assert(entries[i].0 == name);
            }
        }
    }
}

/// The order in which entries arrive does not matter: maps that were filled with
/// the same entries, each name set once, hold the same and list it alike.
pub proof fn filling_order_does_not_matter<E>(
    one: &NameMap<E>,
    entries: Seq<(Seq<char>, E)>,
    two: &NameMap<E>,
    other_entries: Seq<(Seq<char>, E)>,
)
    requires
        one.wf(),
        two.wf(),
        one@ == filled(entries),
        two@ == filled(other_entries),
        set_once(entries),
        set_once(other_entries),
        forall|entry: (Seq<char>, E)| entries.contains(entry) <==> other_entries.contains(entry),
    ensures
        one@ == two@,
        one.names() == two.names(),
        one.values() == two.values(),
{
    lemma_filled(entries);
    lemma_filled(other_entries);
    let s = filled(entries);
    let t = filled(other_entries);
    assert forall|name: Seq<char>| s.contains_key(name) implies #[trigger] t.contains_key(name) && s[name]
        == t[name] by {
        let i = choose|i: int| 0 <= i < entries.len() && (#[trigger] entries[i]).0 == name;
        assert(entries.contains(entries[i]));
        assert(other_entries.contains(entries[i]));
        let j = choose|j: int| 0 <= j < other_entries.len() && other_entries[j] == entries[i];
        assert(other_entries[j].0 == name);
    }
    assert forall|name: Seq<char>| t.contains_key(name) implies #[trigger] s.contains_key(name) by {
        let i = choose|i: int| 0 <= i < other_entries.len() && (#[trigger] other_entries[i]).0 == name;
        assert(other_entries.contains(other_entries[i]));
        assert(entries.contains(other_entries[i]));
        let j = choose|j: int| 0 <= j < entries.len() && entries[j] == other_entries[i];
        assert(entries[j].0 == name);
    }
    assert(s =~= t);
    one.entries_fix_the_order(two);
}

} // verus!
