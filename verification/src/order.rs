//! The order in which names are listed: lexicographic, byte by byte. It is how
//! both strings and file names of one directory are ordered.

use vstd::prelude::*;

verus! {

/// `a` comes strictly before `b`: it is a proper prefix of `b`, or has the
/// smaller byte at the first place where they differ.
pub open spec fn before(a: Seq<u8>, b: Seq<u8>) -> bool
    decreases a.len(),
{
    if b.len() == 0 {
        false
    } else if a.len() == 0 {
        true
    } else {
        a[0] < b[0] || (a[0] == b[0] && before(a.drop_first(), b.drop_first()))
    }
}

/// Every name comes strictly before those that follow it.
pub open spec fn strictly_ordered(names: Seq<Seq<u8>>) -> bool {
    forall|i: int, j: int|
        0 <= i < j < names.len() ==> #[trigger] before(names[i], names[j])
}

/// Nothing comes before itself.
pub proof fn before_is_irreflexive(a: Seq<u8>)
    ensures
        !before(a, a),
    decreases a.len(),
{
    if a.len() > 0 {
        before_is_irreflexive(a.drop_first());
    }
}

/// What comes before something that comes before `c` comes before `c`.
pub proof fn before_is_transitive(a: Seq<u8>, b: Seq<u8>, c: Seq<u8>)
    requires
        before(a, b),
        before(b, c),
    ensures
        before(a, c),
    decreases a.len(),
{
    if a.len() > 0 && a[0] == b[0] && b[0] == c[0] {
        before_is_transitive(a.drop_first(), b.drop_first(), c.drop_first());
    }
}

/// Of two different names, one comes before the other.
pub proof fn before_is_total(a: Seq<u8>, b: Seq<u8>)
    ensures
        before(a, b) || a == b || before(b, a),
    decreases a.len(),
{
    if a.len() == 0 {
        if b.len() == 0 {
            assert(a =~= b);
        }
    } else if b.len() > 0 && a[0] == b[0] {
        before_is_total(a.drop_first(), b.drop_first());
        if a.drop_first() == b.drop_first() {
            assert(a =~= seq![a[0]] + a.drop_first());
            assert(b =~= seq![b[0]] + b.drop_first());
        }
    }
}

/// A name comes before every longer name that starts with it.
pub proof fn prefix_comes_first(name: Seq<u8>, rest: Seq<u8>)
    requires
        rest.len() > 0,
    ensures
        before(name, name + rest),
    decreases name.len(),
{
    if name.len() > 0 {
        prefix_comes_first(name.drop_first(), rest);
        assert((name + rest).drop_first() =~= name.drop_first() + rest);
    }
}

/// The first byte in which two names differ decides which comes before the other,
/// whatever follows it.
pub proof fn first_difference_decides(head: Seq<u8>, x: u8, y: u8, s: Seq<u8>, t: Seq<u8>)
    requires
        x < y,
    ensures
        before(head + seq![x] + s, head + seq![y] + t),
        !before(head + seq![y] + t, head + seq![x] + s),
    decreases head.len(),
{
    let a = head + seq![x] + s;
    let b = head + seq![y] + t;
    if head.len() > 0 {
        first_difference_decides(head.drop_first(), x, y, s, t);
        assert(a.drop_first() =~= head.drop_first() + seq![x] + s);
        assert(b.drop_first() =~= head.drop_first() + seq![y] + t);
    }
}

/// Where a name comes before another one, it is a proper prefix of it, or there is a
/// place up to which they agree and at which it has the smaller byte.
pub proof fn before_has_a_reason(a: Seq<u8>, b: Seq<u8>)
    requires
        before(a, b),
    ensures
        exists|d: int|
            0 <= d <= a.len() && d < b.len() && #[trigger] a.take(d) == b.take(d) && (d == a.len()
                || a[d] < b[d]),
    decreases a.len(),
{
    if a.len() == 0 || a[0] < b[0] {
        assert(a.take(0) =~= b.take(0));
    } else {
        let a1 = a.drop_first();
        let b1 = b.drop_first();
        before_has_a_reason(a1, b1);
        let d = choose|d: int|
            0 <= d <= a1.len() && d < b1.len() && #[trigger] a1.take(d) == b1.take(d) && (d == a1.len()
                || a1[d] < b1[d]);
        assert(a.take(d + 1) =~= seq![a[0]] + a1.take(d));
        assert(b.take(d + 1) =~= seq![b[0]] + b1.take(d));
    }
}

/// Two names do not come before each other.
pub proof fn before_is_asymmetric(a: Seq<u8>, b: Seq<u8>)
    requires
        before(a, b),
    ensures
        !before(b, a),
        a != b,
{
    if before(b, a) {
        before_is_transitive(a, b, a);
    }
    before_is_irreflexive(a);
}

/// Lists of the same names, both strictly ordered, are the same list.
pub proof fn strict_order_is_unique(s: Seq<Seq<u8>>, t: Seq<Seq<u8>>)
    requires
        strictly_ordered(s),
        strictly_ordered(t),
        forall|name: Seq<u8>| s.contains(name) <==> t.contains(name),
    ensures
        s == t,
    decreases s.len(),
{
    if s.len() == 0 {
        if t.len() > 0 {
            assert(t.contains(t[0]));
            assert(s.contains(t[0]));
        }
        assert(s =~= t);
    } else {
        assert(s.contains(s.last()));
        assert(t.contains(s.last()));
        assert(t.contains(t.last()));
        assert(s.contains(t.last()));
        lemma_last_is_greatest(s, t.last());
        lemma_last_is_greatest(t, s.last());
        if s.last() != t.last() {
            before_is_asymmetric(s.last(), t.last());
        }
        let s1 = s.drop_last();
        let t1 = t.drop_last();
        assert(strictly_ordered(s1)) by {
            assert forall|i: int, j: int| 0 <= i < j < s1.len() implies #[trigger] before(s1[i], s1[j]) by {
                assert(before(s[i], s[j]));
            }
        }
        assert(strictly_ordered(t1)) by {
            assert forall|i: int, j: int| 0 <= i < j < t1.len() implies #[trigger] before(t1[i], t1[j]) by {
                assert(before(t[i], t[j]));
            }
        }
        assert forall|name: Seq<u8>| s1.contains(name) <==> t1.contains(name) by {
            lemma_drop_last_contains(s, name);
            lemma_drop_last_contains(t, name);
        }
        strict_order_is_unique(s1, t1);
        assert(s =~= s1.push(s.last()));
        assert(t =~= t1.push(t.last()));
    }
}

proof fn lemma_last_is_greatest(s: Seq<Seq<u8>>, name: Seq<u8>)
    requires
        strictly_ordered(s),
        s.contains(name),
    ensures
        name == s.last() || before(name, s.last()),
{
    let i = choose|i: int| 0 <= i < s.len() && s[i] == name;
    if i < s.len() - 1 {
        assert(before(s[i], s[s.len() - 1]));
    }
}

proof fn lemma_drop_last_contains(s: Seq<Seq<u8>>, name: Seq<u8>)
    requires
        strictly_ordered(s),
        s.len() > 0,
    ensures
        s.drop_last().contains(name) <==> s.contains(name) && name != s.last(),
{
    let d = s.drop_last();
    if d.contains(name) {
        let i = choose|i: int| 0 <= i < d.len() && d[i] == name;
        assert(s[i] == name);
        assert(before(s[i], s[s.len() - 1]));
        before_is_asymmetric(s[i], s.last());
    }
    if s.contains(name) && name != s.last() {
        let i = choose|i: int| 0 <= i < s.len() && s[i] == name;
        assert(d[i] == name);
    }
}

/// How one name stands to another.
#[derive(Debug, Clone, Copy, PartialEq, Eq, Structural)]
pub enum Place {
    Before,
    Same,
    After,
}

/// How `a` stands to `b`.
pub open spec fn place_of(a: Seq<u8>, b: Seq<u8>) -> Place {
    if before(a, b) {
        Place::Before
    } else if a == b {
        Place::Same
    } else {
        Place::After
    }
}

proof fn lemma_same_head(a: Seq<u8>, b: Seq<u8>, i: int)
    requires
        0 <= i < a.len(),
        i < b.len(),
        a[i] == b[i],
    ensures
        place_of(a.skip(i), b.skip(i)) == place_of(a.skip(i + 1), b.skip(i + 1)),
{
    assert(a.skip(i).drop_first() =~= a.skip(i + 1));
    assert(b.skip(i).drop_first() =~= b.skip(i + 1));
    assert(a.skip(i) =~= seq![a[i]] + a.skip(i + 1));
    assert(b.skip(i) =~= seq![b[i]] + b.skip(i + 1));
    if a.skip(i + 1) != b.skip(i + 1) {
        assert(a.skip(i) != b.skip(i)) by {
            if a.skip(i) == b.skip(i) {
                assert(a.skip(i).drop_first() == b.skip(i).drop_first());
            }
        }
    }
}

/// Finds out how `a` stands to `b`.
pub fn place(a: &[u8], b: &[u8]) -> (r: Place)
    ensures
        r == place_of(a@, b@),
        r == Place::Before <==> before(a@, b@),
        r == Place::Same <==> a@ == b@,
        r == Place::After <==> before(b@, a@),
{
    let mut i: usize = 0;
    proof {
        before_is_total(a@, b@);
        before_is_irreflexive(a@);
        if before(b@, a@) {
            before_is_asymmetric(b@, a@);
        }
        assert(a@.skip(0) =~= a@);
        assert(b@.skip(0) =~= b@);
    }
    while i < a.len() && i < b.len() && a[i] == b[i]
        invariant
            i <= a.len(),
            i <= b.len(),
            place_of(a@, b@) == place_of(a@.skip(i as int), b@.skip(i as int)),
        decreases a.len() - i,
    {
        proof {
            lemma_same_head(a@, b@, i as int);
        }
        i = i + 1;
    }
    if i == a.len() {
        if i == b.len() {
            assert(a@.skip(i as int) =~= b@.skip(i as int));
            proof {
                before_is_irreflexive(a@.skip(i as int));
            }
            Place::Same
        } else {
            Place::Before
        }
    } else if i == b.len() || b[i] < a[i] {
        assert(a@.skip(i as int)[0] == a@[i as int]);
        assert(i < b.len() ==> b@.skip(i as int)[0] == b@[i as int]);
        assert(a@.skip(i as int) != b@.skip(i as int));
        Place::After
    } else {
        Place::Before
    }
}

} // verus!
