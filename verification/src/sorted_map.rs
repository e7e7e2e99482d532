//! Ordered maps kept as strictly increasing sequences of entries.
//!
//! The store iterates its maps in key order (farms by key, workers by id,
//! data by timestamp), so a map here is a vector of `(key, value)` entries
//! whose keys strictly increase. Its model is the sequence of entries, and
//! the map that sequence denotes.

use vstd::prelude::*;
use vstd::utf8::*;

verus! {

/// Where one key stands relative to another.
pub enum KeyOrder {
    Before,
    Same,
    After,
}

/// Keys with a strict total order on their views.
pub trait OrderedKey: View + Sized {
    spec fn precedes(a: Self::V, b: Self::V) -> bool;

    proof fn lemma_precedes_irreflexive(a: Self::V)
        ensures
            !Self::precedes(a, a),
    ;

    proof fn lemma_precedes_transitive(a: Self::V, b: Self::V, c: Self::V)
        requires
            Self::precedes(a, b),
            Self::precedes(b, c),
        ensures
            Self::precedes(a, c),
    ;

    proof fn lemma_precedes_total(a: Self::V, b: Self::V)
        ensures
            a == b || Self::precedes(a, b) || Self::precedes(b, a),
    ;

    fn compare_key(&self, other: &Self) -> (order: KeyOrder)
        ensures
            order is Before ==> Self::precedes(self@, other@),
            order is Same ==> self@ == other@,
            order is After ==> Self::precedes(other@, self@),
    ;
}

/// `a` and `b` agree before index `i`, and at `i` either `a` ends while `b`
/// goes on, or `a` has the smaller byte.
pub open spec fn lex_differs_at(a: Seq<u8>, b: Seq<u8>, i: int) -> bool {
    &&& 0 <= i <= a.len()
    &&& i <= b.len()
    &&& forall|j: int| 0 <= j < i ==> a[j] == b[j]
    &&& (i == a.len() && i < b.len()) || (i < a.len() && i < b.len() && a[i] < b[i])
}

/// Lexicographic order on byte strings, as `Ord` orders `[u8]` and `str`.
pub open spec fn lex_precedes(a: Seq<u8>, b: Seq<u8>) -> bool {
    exists|i: int| lex_differs_at(a, b, i)
}

pub proof fn lemma_lex_irreflexive(a: Seq<u8>)
    ensures
        !lex_precedes(a, a),
{
}

pub proof fn lemma_lex_transitive(a: Seq<u8>, b: Seq<u8>, c: Seq<u8>)
    requires
        lex_precedes(a, b),
        lex_precedes(b, c),
    ensures
        lex_precedes(a, c),
{
    let i = choose|i: int| lex_differs_at(a, b, i);
    let j = choose|j: int| lex_differs_at(b, c, j);
    if i <= j {
        assert(lex_differs_at(a, c, i));
    } else {
        assert(lex_differs_at(a, c, j));
    }
}

proof fn lemma_lex_scan(a: Seq<u8>, b: Seq<u8>, i: int)
    requires
        0 <= i <= a.len(),
        i <= b.len(),
        forall|j: int| 0 <= j < i ==> a[j] == b[j],
    ensures
        a == b || lex_precedes(a, b) || lex_precedes(b, a),
    decreases a.len() - i,
{
    if i == a.len() && i == b.len() {
        assert(a =~= b);
    } else if i == a.len() {
        assert(lex_differs_at(a, b, i));
    } else if i == b.len() {
        assert(lex_differs_at(b, a, i));
    } else if a[i] < b[i] {
        assert(lex_differs_at(a, b, i));
    } else if b[i] < a[i] {
        assert(lex_differs_at(b, a, i));
    } else {
        lemma_lex_scan(a, b, i + 1);
    }
}

pub proof fn lemma_lex_total(a: Seq<u8>, b: Seq<u8>)
    ensures
        a == b || lex_precedes(a, b) || lex_precedes(b, a),
{
    lemma_lex_scan(a, b, 0);
}

/// Compares two byte strings lexicographically.
pub fn compare_bytes(a: &[u8], b: &[u8]) -> (order: KeyOrder)
    ensures
        order is Before ==> lex_precedes(a@, b@),
        order is Same ==> a@ == b@,
        order is After ==> lex_precedes(b@, a@),
{
    let mut i: usize = 0;
    while i < a.len() && i < b.len()
        invariant
            i <= a@.len(),
            i <= b@.len(),
            forall|j: int| 0 <= j < i ==> a@[j] == b@[j],
        decreases a@.len() - i,
    {
        if a[i] < b[i] {
            assert(lex_differs_at(a@, b@, i as int));
            return KeyOrder::Before;
        }
        if b[i] < a[i] {
            assert(lex_differs_at(b@, a@, i as int));
            return KeyOrder::After;
        }
        i += 1;
    }
    if a.len() < b.len() {
        assert(lex_differs_at(a@, b@, i as int));
        KeyOrder::Before
    } else if b.len() < a.len() {
        assert(lex_differs_at(b@, a@, i as int));
        KeyOrder::After
    } else {
        assert(a@ =~= b@);
        KeyOrder::Same
    }
}

impl OrderedKey for [u8; 32] {
    open spec fn precedes(a: Seq<u8>, b: Seq<u8>) -> bool {
        lex_precedes(a, b)
    }

    proof fn lemma_precedes_irreflexive(a: Seq<u8>) {
        lemma_lex_irreflexive(a);
    }

    proof fn lemma_precedes_transitive(a: Seq<u8>, b: Seq<u8>, c: Seq<u8>) {
        lemma_lex_transitive(a, b, c);
    }

    proof fn lemma_precedes_total(a: Seq<u8>, b: Seq<u8>) {
        lemma_lex_total(a, b);
    }

    fn compare_key(&self, other: &Self) -> (order: KeyOrder) {
        compare_bytes(self, other)
    }
}

impl OrderedKey for String {
    /// Strings are ordered as `str` orders them: by their UTF-8 bytes.
    open spec fn precedes(a: Seq<char>, b: Seq<char>) -> bool {
        lex_precedes(encode_utf8(a), encode_utf8(b))
    }

    proof fn lemma_precedes_irreflexive(a: Seq<char>) {
        lemma_lex_irreflexive(encode_utf8(a));
    }

    proof fn lemma_precedes_transitive(a: Seq<char>, b: Seq<char>, c: Seq<char>) {
        lemma_lex_transitive(encode_utf8(a), encode_utf8(b), encode_utf8(c));
    }

    proof fn lemma_precedes_total(a: Seq<char>, b: Seq<char>) {
        lemma_lex_total(encode_utf8(a), encode_utf8(b));
        encode_utf8_decode_utf8(a);
        encode_utf8_decode_utf8(b);
    }

    fn compare_key(&self, other: &Self) -> (order: KeyOrder) {
        let order = compare_bytes(self.as_str().as_bytes(), other.as_str().as_bytes());
        proof {
            encode_utf8_decode_utf8(self@);
            encode_utf8_decode_utf8(other@);
        }
        order
    }
}

impl OrderedKey for i64 {
    open spec fn precedes(a: i64, b: i64) -> bool {
        a < b
    }

    proof fn lemma_precedes_irreflexive(a: i64) {
    }

    proof fn lemma_precedes_transitive(a: i64, b: i64, c: i64) {
    }

    proof fn lemma_precedes_total(a: i64, b: i64) {
    }

    fn compare_key(&self, other: &Self) -> (order: KeyOrder) {
        if *self < *other {
            KeyOrder::Before
        } else if *self == *other {
            KeyOrder::Same
        } else {
            KeyOrder::After
        }
    }
}

/// The value a map holds for `k`, if any.
pub open spec fn map_get<K, V>(m: Map<K, V>, k: K) -> Option<V> {
    if m.contains_key(k) {
        Some(m[k])
    } else {
        None
    }
}

/// Keys strictly increase along the entries.
pub open spec fn strictly_sorted<K: OrderedKey, V>(s: Seq<(K::V, V)>) -> bool {
    forall|i: int, j: int| 0 <= i < j < s.len() ==> K::precedes(#[trigger] s[i].0, #[trigger] s[j].0)
}

/// Some entry has key `k`.
pub open spec fn has_key<KV, V>(s: Seq<(KV, V)>, k: KV) -> bool {
    exists|i: int| 0 <= i < s.len() && (#[trigger] s[i]).0 == k
}

/// The map that a sequence of entries denotes.
pub open spec fn entries_to_map<KV, V>(s: Seq<(KV, V)>) -> Map<KV, V> {
    Map::new(
        |k: KV| has_key(s, k),
        |k: KV| s[choose|i: int| 0 <= i < s.len() && (#[trigger] s[i]).0 == k].1,
    )
}

/// In a strictly sorted sequence, an entry's key maps to its value.
pub proof fn lemma_entry_in_map<K: OrderedKey, V>(s: Seq<(K::V, V)>, i: int)
    requires
        strictly_sorted::<K, V>(s),
        0 <= i < s.len(),
    ensures
        entries_to_map(s).contains_key(s[i].0),
        entries_to_map(s)[s[i].0] == s[i].1,
{
    assert(has_key(s, s[i].0));
    let j = choose|j: int| 0 <= j < s.len() && (#[trigger] s[j]).0 == s[i].0;
    if j < i {
        assert(K::precedes(s[j].0, s[i].0));
        K::lemma_precedes_irreflexive(s[i].0);
    } else if i < j {
        assert(K::precedes(s[i].0, s[j].0));
        K::lemma_precedes_irreflexive(s[i].0);
    }
}

/// A strictly sorted sequence denotes `m` when it holds exactly `m`'s entries.
proof fn lemma_denotes<K: OrderedKey, V>(s: Seq<(K::V, V)>, m: Map<K::V, V>)
    requires
        strictly_sorted::<K, V>(s),
        forall|i: int| 0 <= i < s.len() ==> m.contains_key((#[trigger] s[i]).0) && m[s[i].0] == s[i].1,
        forall|k: K::V| m.contains_key(k) ==> has_key(s, k),
    ensures
        entries_to_map(s) == m,
{
    assert forall|k: K::V| #[trigger] entries_to_map(s).contains_key(k) <==> m.contains_key(k) by {
        if has_key(s, k) {
            let i = choose|i: int| 0 <= i < s.len() && (#[trigger] s[i]).0 == k;
            assert(m.contains_key(s[i].0));
        }
    }
    assert forall|k: K::V| #[trigger] entries_to_map(s).contains_key(k) implies entries_to_map(s)[k] == m[k] by {
        let i = choose|i: int| 0 <= i < s.len() && (#[trigger] s[i]).0 == k;
        lemma_entry_in_map::<K, V>(s, i);
    }
    assert(entries_to_map(s) =~= m);
}

/// An ordered map: a vector of entries whose keys strictly increase.
///
/// It stands where std's `BTreeMap` would. vstd's contracts for
/// `BTreeMap::insert`, `get`, `remove` and `len` hold only under
/// `obeys_cmp::<K>()`, which vstd establishes for integers and tuples of
/// them, not for the 32-byte digests and strings that key the maps here:
/// with `[u8; 32]` keys, that a key is present after `insert` does not
/// follow, and with `String` keys neither does a length of one after one
/// `insert` into an empty map. vstd also gives `range`, which the timestamp
/// queries walk, no contract.
pub struct SortedMap<K, V> {
    entries: Vec<(K, V)>,
}

impl<K: OrderedKey, V> SortedMap<K, V> {
    /// The entries, keys taken by their views, in increasing key order.
    pub closed spec fn entries(self) -> Seq<(K::V, V)> {
        self.entries@.map_values(|e: (K, V)| (e.0@, e.1))
    }

    /// The map the entries denote.
    pub open spec fn map(self) -> Map<K::V, V> {
        entries_to_map(self.entries())
    }

    pub open spec fn wf(self) -> bool {
        strictly_sorted::<K, V>(self.entries())
    }

    pub fn new() -> (m: Self)
        ensures
            m.wf(),
            m.entries() == Seq::<(K::V, V)>::empty(),
            m.map() == Map::<K::V, V>::empty(),
    {
        let m = SortedMap { entries: Vec::new() };
        assert(m.entries() =~= Seq::<(K::V, V)>::empty());
        assert(m.map() =~= Map::<K::V, V>::empty());
        m
    }

    pub fn len(&self) -> (n: usize)
        ensures
            n == self.entries().len(),
    {
        self.entries.len()
    }

    pub fn key_at(&self, i: usize) -> (k: &K)
        requires
            i < self.entries().len(),
        ensures
            k@ == self.entries()[i as int].0,
    {
        &self.entries[i].0
    }

    pub fn value_at(&self, i: usize) -> (v: &V)
        requires
            i < self.entries().len(),
        ensures
            *v == self.entries()[i as int].1,
    {
        &self.entries[i].1
    }

    /// Where `key` stands: `Ok(i)` if entry `i` has it, `Err(i)` if it
    /// belongs before entry `i`.
    fn position(&self, key: &K) -> (r: Result<usize, usize>)
        requires
            self.wf(),
        ensures
            r matches Ok(i) ==> i < self.entries().len() && self.entries()[i as int].0 == key@,
            r matches Err(i) ==> i <= self.entries().len() && (forall|j: int|
                0 <= j < i ==> K::precedes(#[trigger] self.entries()[j].0, key@)) && (forall|j: int|
                i <= j < self.entries().len() ==> K::precedes(key@, #[trigger] self.entries()[j].0)),
    {
        let ghost s = self.entries();
        let mut i: usize = 0;
        while i < self.entries.len()
            invariant
                s == self.entries(),
                self.wf(),
                i <= s.len(),
                forall|j: int| 0 <= j < i ==> K::precedes(#[trigger] s[j].0, key@),
            decreases s.len() - i,
        {
            match key.compare_key(&self.entries[i].0) {
                KeyOrder::Before => {
                    assert forall|j: int| i <= j < s.len() implies K::precedes(key@, #[trigger] s[j].0) by {
                        if i < j {
                            K::lemma_precedes_transitive(key@, s[i as int].0, s[j].0);
                        }
                    }
                    return Err(i);
                },
                KeyOrder::Same => {
                    return Ok(i);
                },
                KeyOrder::After => {},
            }
            i += 1;
        }
        Err(i)
    }

    pub fn get(&self, key: &K) -> (r: Option<&V>)
        requires
            self.wf(),
        ensures
            r matches Some(v) ==> self.map().contains_key(key@) && *v == self.map()[key@],
            r is None ==> !self.map().contains_key(key@),
    {
        match self.position(key) {
            Ok(i) => {
                proof {
                    lemma_entry_in_map::<K, V>(self.entries(), i as int);
                }
                Some(&self.entries[i].1)
            },
            Err(i) => {
                proof {
                    let s = self.entries();
                    assert forall|j: int| 0 <= j < s.len() implies (#[trigger] s[j]).0 != key@ by {
                        if j < i {
                            K::lemma_precedes_irreflexive(key@);
                        } else {
                            K::lemma_precedes_irreflexive(key@);
                        }
                    }
                }
                None
            },
        }
    }

    pub fn contains_key(&self, key: &K) -> (b: bool)
        requires
            self.wf(),
        ensures
            b == self.map().contains_key(key@),
    {
        self.get(key).is_some()
    }

    pub fn insert(&mut self, key: K, value: V)
        requires
            old(self).wf(),
        ensures
            final(self).wf(),
            final(self).map() == old(self).map().insert(key@, value),
    {
        let ghost s = self.entries();
        let ghost kv = key@;
        match self.position(&key) {
            Ok(i) => {
                self.entries.set(i, (key, value));
                proof {
                    let t = self.entries();
                    assert(t =~= s.update(i as int, (kv, value)));
                    assert(strictly_sorted::<K, V>(t));
                    let m = entries_to_map(s).insert(kv, value);
                    assert forall|j: int| 0 <= j < t.len() implies m.contains_key(
                        (#[trigger] t[j]).0,
                    ) && m[t[j].0] == t[j].1 by {
                        if j != i {
                            lemma_entry_in_map::<K, V>(s, j);
                            K::lemma_precedes_irreflexive(kv);
                        }
                    }
                    assert forall|k: K::V| m.contains_key(k) implies has_key(t, k) by {
                        if k == kv {
                            assert(t[i as int].0 == k);
                        } else {
                            let j = choose|j: int| 0 <= j < s.len() && (#[trigger] s[j]).0 == k;
                            assert(t[j].0 == k);
                        }
                    }
                    lemma_denotes::<K, V>(t, m);
                }
            },
            Err(i) => {
                self.entries.insert(i, (key, value));
                proof {
                    let t = self.entries();
                    assert(t =~= s.insert(i as int, (kv, value)));
                    assert forall|a: int, b: int| 0 <= a < b < t.len() implies K::precedes(
                        #[trigger] t[a].0,
                        #[trigger] t[b].0,
                    ) by {
                        if b < i {
                        } else if b == i {
                        } else if a < i {
                            assert(K::precedes(s[a].0, kv));
                            assert(K::precedes(kv, s[b - 1].0));
                            K::lemma_precedes_transitive(s[a].0, kv, s[b - 1].0);
                        } else if a == i {
                        } else {
                            assert(t[a] == s[a - 1] && t[b] == s[b - 1]);
                        }
                    }
                    let m = entries_to_map(s).insert(kv, value);
                    assert forall|j: int| 0 <= j < t.len() implies m.contains_key(
                        (#[trigger] t[j]).0,
                    ) && m[t[j].0] == t[j].1 by {
                        if j < i {
                            lemma_entry_in_map::<K, V>(s, j);
                            K::lemma_precedes_irreflexive(kv);
                        } else if j > i {
                            lemma_entry_in_map::<K, V>(s, j - 1);
                            K::lemma_precedes_irreflexive(kv);
                        }
                    }
                    assert forall|k: K::V| m.contains_key(k) implies has_key(t, k) by {
                        if k == kv {
                            assert(t[i as int].0 == k);
                        } else {
                            let j = choose|j: int| 0 <= j < s.len() && (#[trigger] s[j]).0 == k;
                            if j < i {
                                assert(t[j].0 == k);
                            } else {
                                assert(t[j + 1].0 == k);
                            }
                        }
                    }
                    lemma_denotes::<K, V>(t, m);
                }
            },
        }
    }

    pub fn remove(&mut self, key: &K) -> (r: Option<V>)
        requires
            old(self).wf(),
        ensures
            final(self).wf(),
            final(self).map() == old(self).map().remove(key@),
            r matches Some(v) ==> old(self).map().contains_key(key@) && v == old(self).map()[key@],
            r is None ==> !old(self).map().contains_key(key@) && *final(self) == *old(self),
    {
        let ghost s = self.entries();
        match self.position(key) {
            Ok(i) => {
                proof {
                    lemma_entry_in_map::<K, V>(s, i as int);
                }
                let (_, v) = self.entries.remove(i);
                proof {
                    let t = self.entries();
                    assert(t =~= s.remove(i as int));
                    assert forall|a: int, b: int| 0 <= a < b < t.len() implies K::precedes(
                        #[trigger] t[a].0,
                        #[trigger] t[b].0,
                    ) by {
                        if a < i && b >= i {
                            assert(t[b] == s[b + 1]);
                        } else if a >= i {
                            assert(t[a] == s[a + 1] && t[b] == s[b + 1]);
                        }
                    }
                    let m = entries_to_map(s).remove(key@);
                    assert forall|j: int| 0 <= j < t.len() implies m.contains_key(
                        (#[trigger] t[j]).0,
                    ) && m[t[j].0] == t[j].1 by {
                        let jj = if j < i {
                            j
                        } else {
                            j + 1
                        };
                        assert(t[j] == s[jj]);
                        lemma_entry_in_map::<K, V>(s, jj);
                        K::lemma_precedes_irreflexive(key@);
                    }
                    assert forall|k: K::V| m.contains_key(k) implies has_key(t, k) by {
                        let j = choose|j: int| 0 <= j < s.len() && (#[trigger] s[j]).0 == k;
                        if j < i {
                            assert(t[j].0 == k);
                        } else {
                            assert(j != i);
                            assert(t[j - 1].0 == k);
                        }
                    }
                    lemma_denotes::<K, V>(t, m);
                }
                Some(v)
            },
            Err(i) => {
                proof {
                    assert forall|j: int| 0 <= j < s.len() implies (#[trigger] s[j]).0 != key@ by {
                        K::lemma_precedes_irreflexive(key@);
                    }
                    assert(entries_to_map(s).remove(key@) =~= entries_to_map(s));
                }
                None
            },
        }
    }
}

} // verus!
