//! A map with string keys, kept in the order of its keys.

use vstd::prelude::*;

use crate::text::{chars_of, same};

verus! {

/// Whether `a` comes before `b` in dictionary order of the characters.
pub open spec fn before(a: Seq<char>, b: Seq<char>) -> bool
    decreases a.len(),
{
    if b.len() == 0 {
        false
    } else if a.len() == 0 {
        true
    } else if a[0] != b[0] {
        a[0] < b[0]
    } else {
        before(a.drop_first(), b.drop_first())
    }
}

/// No string comes before itself.
pub proof fn lemma_before_irreflexive(a: Seq<char>)
    ensures
        !before(a, a),
    decreases a.len(),
{
    if a.len() > 0 {
        lemma_before_irreflexive(a.drop_first());
    }
}

/// Of two different strings one comes before the other.
pub proof fn lemma_before_total(a: Seq<char>, b: Seq<char>)
    ensures
        before(a, b) || before(b, a) || a == b,
    decreases a.len(),
{
    if a.len() > 0 && b.len() > 0 && a[0] == b[0] {
        lemma_before_total(a.drop_first(), b.drop_first());
        if a.drop_first() == b.drop_first() {
            assert(a =~= seq![a[0]] + a.drop_first());
            assert(b =~= seq![b[0]] + b.drop_first());
        }
    } else if a.len() == 0 && b.len() == 0 {
        assert(a =~= b);
    }
}

/// The order of strings is transitive.
pub proof fn lemma_before_transitive(a: Seq<char>, b: Seq<char>, c: Seq<char>)
    requires
        before(a, b),
        before(b, c),
    ensures
        before(a, c),
    decreases a.len(),
{
    if a.len() > 0 && a[0] == b[0] && b[0] == c[0] {
        lemma_before_transitive(a.drop_first(), b.drop_first(), c.drop_first());
    }
}

/// Whether `a` comes before `b`.
pub fn is_before(a: &str, b: &str) -> (r: bool)
    ensures
        r == before(a@, b@),
{
    let x = chars_of(a);
    let y = chars_of(b);
    let mut i: usize = 0;
    assert(a@.skip(0) =~= a@);
    assert(b@.skip(0) =~= b@);
    loop
        invariant
            i <= x@.len(),
            i <= y@.len(),
            x@ == a@,
            y@ == b@,
            before(a@, b@) == before(a@.skip(i as int), b@.skip(i as int)),
        decreases x@.len() - i,
    {
        if i == y.len() {
            return false;
        }
        if i == x.len() {
            return true;
        }
        if x[i] != y[i] {
            return x[i] < y[i];
        }
        assert(a@.skip(i as int).drop_first() =~= a@.skip(i as int + 1));
        assert(b@.skip(i as int).drop_first() =~= b@.skip(i as int + 1));
        i += 1;
    }
}

/// What two strings start with in common does not tell which comes first.
pub proof fn law_same_start(p: Seq<char>, x: Seq<char>, y: Seq<char>)
    requires
        before(x, y),
    ensures
        before(p + x, p + y),
    decreases p.len(),
{
    if p.len() == 0 {
        assert(p + x =~= x);
        assert(p + y =~= y);
    } else {
        let q = p.drop_first();
        law_same_start(q, x, y);
        assert((p + x).drop_first() =~= q + x);
        assert((p + y).drop_first() =~= q + y);
    }
}

/// The order is that of a dictionary: where two strings first differ, the one with the lower
/// character comes first, and a string comes before those that go on from it.
pub proof fn law_dictionary_order(
    p: Seq<char>,
    a: char,
    b: char,
    x: Seq<char>,
    y: Seq<char>,
)
    ensures
        (a as int) < b as int ==> before(p + (seq![a] + x), p + (seq![b] + y)),
        (b as int) < a as int ==> !before(p + (seq![a] + x), p + (seq![b] + y)),
        before(p, p + (seq![a] + x)),
        !before(p + x, p),
{
    let (s, t) = (seq![a] + x, seq![b] + y);
    assert(s[0] == a && t[0] == b);
    if (a as int) < b as int {
        law_same_start(p, s, t);
    }
    if (b as int) < a as int {
        law_same_start(p, t, s);
        if before(p + s, p + t) {
            lemma_before_transitive(p + s, p + t, p + s);
            lemma_before_irreflexive(p + s);
        }
    }
    law_same_start(p, seq![], s);
    assert(p + Seq::<char>::empty() =~= p);
    if before(p + x, p) {
        if x.len() > 0 {
            law_same_start(p, seq![], x);
            lemma_before_transitive(p + x, p, p + x);
            lemma_before_irreflexive(p + x);
        } else {
            assert(p + x =~= p);
            lemma_before_irreflexive(p);
        }
    }
}

/// Keys in strictly growing order.
pub open spec fn ordered(keys: Seq<Seq<char>>) -> bool {
    forall|i: int, j: int| 0 <= i < j < keys.len() ==> before(#[trigger] keys[i], #[trigger] keys[j])
}

/// A map from strings to values, walked in the order of its keys.
pub struct StrMap<V> {
    entries: Vec<(String, V)>,
}

impl<V> StrMap<V> {
    /// The keys, in order.
    pub closed spec fn keys(&self) -> Seq<Seq<char>> {
        Seq::new(self.entries@.len(), |i: int| self.entries@[i].0@)
    }

    /// The values, in the order of their keys.
    pub closed spec fn values(&self) -> Seq<V> {
        Seq::new(self.entries@.len(), |i: int| self.entries@[i].1)
    }

    #[verifier::type_invariant]
    spec fn in_order(&self) -> bool {
        ordered(self.keys())
    }

    /// What holds of every map: its keys are in order, and each has the value
    /// at its place.
    pub open spec fn well_formed(&self) -> bool {
        &&& ordered(self.keys())
        &&& self.keys().len() == self.values().len()
        &&& forall|i: int|
            0 <= i < self.keys().len() ==> {
                &&& self@.dom().contains(#[trigger] self.keys()[i])
                &&& self@[self.keys()[i]] == self.values()[i]
            }
        &&& forall|k: Seq<char>| #[trigger] self@.dom().contains(k) ==> self.keys().contains(k)
    }
}

/// The map that pairs each key with the value at its place.
pub open spec fn paired<V>(keys: Seq<Seq<char>>, values: Seq<V>) -> Map<Seq<char>, V> {
    Map::new(|k: Seq<char>| keys.contains(k), |k: Seq<char>| values[keys.index_of(k)])
}

impl<V> View for StrMap<V> {
    type V = Map<Seq<char>, V>;

    open spec fn view(&self) -> Map<Seq<char>, V> {
        paired(self.keys(), self.values())
    }
}

proof fn lemma_ordered_index(keys: Seq<Seq<char>>, i: int)
    requires
        ordered(keys),
        0 <= i < keys.len(),
    ensures
        keys.contains(keys[i]),
        keys.index_of(keys[i]) == i,
{
    let j = keys.index_of(keys[i]);
    assert(keys.contains(keys[i]));
    assert(0 <= j < keys.len() && keys[j] == keys[i]);
    lemma_before_irreflexive(keys[i]);
    if i < j {
        assert(before(keys[i], keys[j]));
    } else if j < i {
        assert(before(keys[j], keys[i]));
    }
}

/// What inserting in order does to the map of the pairs.
proof fn lemma_paired_insert<V>(keys: Seq<Seq<char>>, values: Seq<V>, at: int, k: Seq<char>, v: V)
    requires
        ordered(keys),
        keys.len() == values.len(),
        0 <= at <= keys.len(),
        forall|i: int| 0 <= i < at ==> before(#[trigger] keys[i], k),
        forall|i: int| at <= i < keys.len() ==> before(k, #[trigger] keys[i]),
    ensures
        ordered(keys.insert(at, k)),
        paired(keys.insert(at, k), values.insert(at, v)) == paired(keys, values).insert(k, v),
        !keys.contains(k),
{
    let nk = keys.insert(at, k);
    let nv = values.insert(at, v);
    assert forall|i: int, j: int| 0 <= i < j < nk.len() implies before(
        #[trigger] nk[i],
        #[trigger] nk[j],
    ) by {
        let oi = if i < at { i } else { i - 1 };
        let oj = if j < at { j } else { j - 1 };
        if i != at {
            assert(nk[i] == keys[oi]);
        }
        if j != at {
            assert(nk[j] == keys[oj]);
        }
    }
    if keys.contains(k) {
        let i = choose|i: int| 0 <= i < keys.len() && keys[i] == k;
        lemma_before_irreflexive(k);
    }
    let a = paired(nk, nv);
    let b = paired(keys, values).insert(k, v);
    assert forall|q: Seq<char>| a.dom().contains(q) <==> b.dom().contains(q) by {
        if nk.contains(q) && q != k {
            let i = choose|i: int| 0 <= i < nk.len() && nk[i] == q;
            assert(nk[at] == k);
            if i < at {
                assert(keys[i] == q);
            } else {
                assert(keys[i - 1] == q);
            }
            assert(keys.contains(q));
        }
        if keys.contains(q) {
            let i = choose|i: int| 0 <= i < keys.len() && keys[i] == q;
            if i < at {
                assert(nk[i] == q);
            } else {
                assert(nk[i + 1] == q);
            }
            assert(nk.contains(q));
        }
        assert(nk[at] == k);
        assert(nk.contains(k));
    }
    assert forall|q: Seq<char>| a.dom().contains(q) implies a[q] == b[q] by {
        let i = choose|i: int| 0 <= i < nk.len() && nk[i] == q;
        lemma_ordered_index(nk, i);
        if q != k {
            assert(nk[at] == k);
            let o = if i < at { i } else { i - 1 };
            assert(keys[o] == q);
            lemma_ordered_index(keys, o);
        } else {
            lemma_ordered_index(nk, at);
        }
    }
    assert(a =~= b);
}

/// What replacing a value does to the map of the pairs.
proof fn lemma_paired_update<V>(keys: Seq<Seq<char>>, values: Seq<V>, at: int, v: V)
    requires
        ordered(keys),
        keys.len() == values.len(),
        0 <= at < keys.len(),
    ensures
        paired(keys, values.update(at, v)) == paired(keys, values).insert(keys[at], v),
{
    let a = paired(keys, values.update(at, v));
    let b = paired(keys, values).insert(keys[at], v);
    assert(keys.contains(keys[at]));
    assert forall|q: Seq<char>| a.dom().contains(q) implies a[q] == b[q] by {
        let i = choose|i: int| 0 <= i < keys.len() && keys[i] == q;
        lemma_ordered_index(keys, i);
        lemma_ordered_index(keys, at);
    }
    assert(a =~= b);
}

/// What taking an entry out does to the map of the pairs.
proof fn lemma_paired_remove<V>(keys: Seq<Seq<char>>, values: Seq<V>, at: int)
    requires
        ordered(keys),
        keys.len() == values.len(),
        0 <= at < keys.len(),
    ensures
        ordered(keys.remove(at)),
        paired(keys.remove(at), values.remove(at)) == paired(keys, values).remove(keys[at]),
{
    let nk = keys.remove(at);
    let nv = values.remove(at);
    let k = keys[at];
    assert forall|i: int, j: int| 0 <= i < j < nk.len() implies before(
        #[trigger] nk[i],
        #[trigger] nk[j],
    ) by {
        let oi = if i < at { i } else { i + 1 };
        let oj = if j < at { j } else { j + 1 };
        assert(nk[i] == keys[oi] && nk[j] == keys[oj]);
    }
    let a = paired(nk, nv);
    let b = paired(keys, values).remove(k);
    assert forall|q: Seq<char>| a.dom().contains(q) <==> b.dom().contains(q) by {
        if nk.contains(q) {
            let i = choose|i: int| 0 <= i < nk.len() && nk[i] == q;
            let o = if i < at { i } else { i + 1 };
            assert(keys[o] == q);
            lemma_ordered_index(keys, o);
            lemma_ordered_index(keys, at);
            assert(q != k);
        }
        if keys.contains(q) && q != k {
            let i = choose|i: int| 0 <= i < keys.len() && keys[i] == q;
            if i < at {
                assert(nk[i] == q);
            } else {
                assert(nk[i - 1] == q);
            }
            assert(nk.contains(q));
        }
    }
    assert forall|q: Seq<char>| a.dom().contains(q) implies a[q] == b[q] by {
        let i = choose|i: int| 0 <= i < nk.len() && nk[i] == q;
        lemma_ordered_index(nk, i);
        let o = if i < at { i } else { i + 1 };
        lemma_ordered_index(keys, o);
    }
    assert(a =~= b);
}

proof fn lemma_ordered_distinct(keys: Seq<Seq<char>>)
    requires
        ordered(keys),
    ensures
        keys.no_duplicates(),
{
    assert forall|i: int, j: int| 0 <= i < keys.len() && 0 <= j < keys.len() && i != j implies keys[i]
        != keys[j] by {
        if i < j {
            assert(before(keys[i], keys[j]));
        } else {
            assert(before(keys[j], keys[i]));
        }
        lemma_before_irreflexive(keys[i]);
    }
}

proof fn lemma_well_formed<V>(m: &StrMap<V>)
    requires
        m.in_order(),
    ensures
        m.well_formed(),
{
    assert forall|i: int| 0 <= i < m.keys().len() implies {
        &&& m@.dom().contains(#[trigger] m.keys()[i])
        &&& m@[m.keys()[i]] == m.values()[i]
    } by {
        lemma_ordered_index(m.keys(), i);
    }
}

impl<V> StrMap<V> {
    /// A map without entries.
    pub fn new() -> (m: Self)
        ensures
            m@ == Map::<Seq<char>, V>::empty(),
            m.keys() == Seq::<Seq<char>>::empty(),
            m.values() == Seq::<V>::empty(),
    {
        let m = StrMap { entries: Vec::new() };
        assert(m.keys() =~= Seq::<Seq<char>>::empty());
        assert(m.values() =~= Seq::<V>::empty());
        assert(m@ =~= Map::<Seq<char>, V>::empty());
        m
    }

    /// How many entries there are. The keys are in order, and each has its value.
    pub fn len(&self) -> (n: usize)
        ensures
            n == self.keys().len(),
            n == self.values().len(),
            n == self@.dom().len(),
            self@.dom().finite(),
            self.well_formed(),
    {
        proof {
            use_type_invariant(self);
            lemma_well_formed(self);
            lemma_ordered_distinct(self.keys());
            self.keys().unique_seq_to_set();
            vstd::seq_lib::seq_to_set_is_finite(self.keys());
            assert(self@.dom() =~= self.keys().to_set());
        }
        self.entries.len()
    }

    /// Whether there are no entries.
    pub fn is_empty(&self) -> (r: bool)
        ensures
            r == (self.keys().len() == 0),
            r == (self@ == Map::<Seq<char>, V>::empty()),
    {
        proof {
            if self.keys().len() > 0 {
                assert(self.keys().contains(self.keys()[0]));
                assert(self@.dom().contains(self.keys()[0]));
            } else {
                assert(self@ =~= Map::<Seq<char>, V>::empty());
            }
        }
        self.entries.len() == 0
    }

    /// The key at a place of the order.
    pub fn key_at(&self, i: usize) -> (k: &String)
        requires
            i < self.keys().len(),
        ensures
            k@ == self.keys()[i as int],
    {
        &self.entries[i].0
    }

    /// The value at a place of the order.
    pub fn value_at(&self, i: usize) -> (v: &V)
        requires
            i < self.keys().len(),
        ensures
            *v == self.values()[i as int],
            *v == self@[self.keys()[i as int]],
            self@.dom().contains(self.keys()[i as int]),
    {
        proof {
            use_type_invariant(self);
            lemma_ordered_index(self.keys(), i as int);
        }
        &self.entries[i].1
    }

    /// The place where `key` is, or would go.
    fn place(&self, key: &str) -> (at: usize)
        ensures
            at <= self.keys().len(),
            forall|i: int| 0 <= i < at ==> before(#[trigger] self.keys()[i], key@),
            at < self.keys().len() ==> !before(self.keys()[at as int], key@),
            forall|i: int|
                at <= i < self.keys().len() && self.keys()[at as int] != key@ ==> before(
                    key@,
                    #[trigger] self.keys()[i],
                ),
    {
        let mut at: usize = 0;
        while at < self.entries.len() && is_before(self.entries[at].0.as_str(), key)
            invariant
                at <= self.keys().len(),
                self.keys().len() == self.entries@.len(),
                forall|i: int| 0 <= i < at ==> before(#[trigger] self.keys()[i], key@),
            decreases self.entries@.len() - at,
        {
            assert(self.keys()[at as int] == self.entries@[at as int].0@);
            at += 1;
        }
        proof {
            use_type_invariant(self);
            if at < self.keys().len() {
                let first = self.keys()[at as int];
                assert(first == self.entries@[at as int].0@);
                lemma_before_total(first, key@);
                assert forall|i: int|
                    at <= i < self.keys().len() && self.keys()[at as int] != key@ implies before(
                    key@,
                    #[trigger] self.keys()[i],
                ) by {
                    if i > at {
                        lemma_before_transitive(key@, first, self.keys()[i]);
                    }
                }
            }
        }
        at
    }

    /// Whether the key is at the place found for it.
    fn found(&self, key: &str, at: usize) -> (r: bool)
        requires
            at <= self.keys().len(),
            forall|i: int| 0 <= i < at ==> before(#[trigger] self.keys()[i], key@),
            forall|i: int|
                at <= i < self.keys().len() && self.keys()[at as int] != key@ ==> before(
                    key@,
                    #[trigger] self.keys()[i],
                ),
        ensures
            r == self@.dom().contains(key@),
            r ==> at < self.keys().len() && self.keys()[at as int] == key@ && self@[key@]
                == self.values()[at as int],
    {
        proof {
            use_type_invariant(self);
            lemma_before_irreflexive(key@);
        }
        if at < self.entries.len() && same(self.entries[at].0.as_str(), key) {
            proof {
                lemma_ordered_index(self.keys(), at as int);
            }
            true
        } else {
            proof {
                if self.keys().contains(key@) {
                    let i = choose|i: int| 0 <= i < self.keys().len() && self.keys()[i] == key@;
                    assert(before(self.keys()[i], key@) || before(key@, self.keys()[i]));
                }
            }
            false
        }
    }

    /// The value of a key, if it has one.
    pub fn get(&self, key: &str) -> (r: Option<&V>)
        ensures
            match r {
                Some(v) => self@.dom().contains(key@) && *v == self@[key@],
                None => !self@.dom().contains(key@),
            },
    {
        let at: usize = self.place(key);
        if self.found(key, at) {
            Some(&self.entries[at].1)
        } else {
            None
        }
    }

    /// Whether a key has a value.
    pub fn contains_key(&self, key: &str) -> (r: bool)
        ensures
            r == self@.dom().contains(key@),
    {
        let at: usize = self.place(key);
        self.found(key, at)
    }

    /// Gives a key a value, in place of the one it may have.
    pub fn insert(&mut self, key: String, value: V)
        ensures
            final(self)@ == old(self)@.insert(key@, value),
    {
        let at: usize = self.place(key.as_str());
        let present: bool = self.found(key.as_str(), at);
        proof {
            use_type_invariant(&*self);
        }
        let ghost keys = self.keys();
        let ghost values = self.values();
        let mut entries: Vec<(String, V)> = Vec::new();
        std::mem::swap(&mut entries, &mut self.entries);
        if present {
            proof {
                lemma_paired_update(keys, values, at as int, value);
            }
            entries[at].1 = value;
            assert(Seq::new(entries@.len(), |i: int| entries@[i].0@) =~= keys);
            assert(Seq::new(entries@.len(), |i: int| entries@[i].1) =~= values.update(
                at as int,
                value,
            ));
        } else {
            proof {
                if at < keys.len() && keys[at as int] == key@ {
                    assert(keys.contains(key@));
                }
                lemma_paired_insert(keys, values, at as int, key@, value);
            }
            let ghost k = key@;
            entries.insert(at, (key, value));
            assert(Seq::new(entries@.len(), |i: int| entries@[i].0@) =~= keys.insert(at as int, k));
            assert(Seq::new(entries@.len(), |i: int| entries@[i].1) =~= values.insert(
                at as int,
                value,
            ));
        }
        self.entries = entries;
    }

    /// Takes a key out, and hands back the value it had.
    pub fn remove(&mut self, key: &str) -> (r: Option<V>)
        ensures
            final(self)@ == old(self)@.remove(key@),
            match r {
                Some(v) => old(self)@.dom().contains(key@) && v == old(self)@[key@],
                None => !old(self)@.dom().contains(key@),
            },
    {
        let at: usize = self.place(key);
        let present: bool = self.found(key, at);
        if !present {
            assert(self@.remove(key@) =~= self@);
            return None;
        }
        proof {
            use_type_invariant(&*self);
        }
        let ghost keys = self.keys();
        let ghost values = self.values();
        let mut entries: Vec<(String, V)> = Vec::new();
        std::mem::swap(&mut entries, &mut self.entries);
        proof {
            lemma_paired_remove(keys, values, at as int);
        }
        let (_, v) = entries.remove(at);
        assert(Seq::new(entries@.len(), |i: int| entries@[i].0@) =~= keys.remove(at as int));
        assert(Seq::new(entries@.len(), |i: int| entries@[i].1) =~= values.remove(at as int));
        self.entries = entries;
        Some(v)
    }
}

impl StrMap<bool> {
    /// Another map with the same entries.
    pub fn copied(&self) -> (m: Self)
        ensures
            m@ == self@,
            m.keys() == self.keys(),
            m.values() == self.values(),
    {
        proof {
            use_type_invariant(self);
        }
        let mut entries: Vec<(String, bool)> = Vec::new();
        let mut i: usize = 0;
        while i < self.entries.len()
            invariant
                i <= self.entries@.len(),
                entries@ =~= self.entries@.take(i as int),
            decreases self.entries@.len() - i,
        {
            entries.push((self.entries[i].0.clone(), self.entries[i].1));
            i += 1;
        }
        assert(entries@ =~= self.entries@);
        assert(Seq::new(entries@.len(), |i: int| entries@[i].0@) =~= self.keys());
        let m = StrMap { entries };
        assert(m.keys() =~= self.keys());
        assert(m.values() =~= self.values());
        m
    }

    /// A map with the same keys and each value turned round.
    pub fn negated(&self) -> (m: Self)
        ensures
            m@ == self@.map_values(|b: bool| !b),
            m.keys() == self.keys(),
    {
        proof {
            use_type_invariant(self);
        }
        let mut entries: Vec<(String, bool)> = Vec::new();
        let mut i: usize = 0;
        while i < self.entries.len()
            invariant
                i <= self.entries@.len(),
                entries@.len() == i,
                forall|k: int| 0 <= k < i ==> (#[trigger] entries@[k]).0 == self.entries@[k].0
                    && entries@[k].1 == !self.entries@[k].1,
            decreases self.entries@.len() - i,
        {
            entries.push((self.entries[i].0.clone(), !self.entries[i].1));
            i += 1;
        }
        assert(Seq::new(entries@.len(), |i: int| entries@[i].0@) =~= self.keys());
        let m = StrMap { entries };
        proof {
            assert(m.keys() =~= self.keys());
            let (a, b) = (m@, self@.map_values(|b: bool| !b));
            assert forall|k: Seq<char>| a.dom().contains(k) implies a[k] == b[k] by {
                let j = self.keys().index_of(k);
                assert(m.values()[j] == !self.values()[j]);
            }
            assert(a =~= b);
        }
        m
    }
}

} // verus!
