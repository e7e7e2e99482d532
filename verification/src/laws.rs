//! Properties that hold across the operations of the library.

use vstd::prelude::*;
use vstd::utf8::*;
use crate::farm_store::{nested, records_in_range, Farm, FarmStore, Person, Role};
use crate::geo_index::{
    append_to_cells, cells_appended, geohash_cell, geohash_neighbor, is_geohash_char, search_directions, Candidates,
    Direction, GeoIndex,
};
use crate::hashing::{sha256_digest, text_key};
use crate::id_tools::{
    checksum_text, geohash_alphabet, geohash_digit, hex_byte_value, hex_digit_table, lower_hex_char,
    upper_hex_digit_table, geohash_offset, hex_char_value, hex_geohash, id_geohash, identifier_char,
};
use crate::sorted_map::{entries_to_map, has_key, lemma_entry_in_map, map_get, strictly_sorted, OrderedKey};

verus! {

/// Two strictly sorted entry sequences that denote the same map are the same
/// sequence: the order in which a map's entries are listed is determined by
/// the map.
pub proof fn law_sorted_entries_unique<K: OrderedKey, V>(s: Seq<(K::V, V)>, t: Seq<(K::V, V)>)
    requires
        strictly_sorted::<K, V>(s),
        strictly_sorted::<K, V>(t),
        entries_to_map(s) == entries_to_map(t),
    ensures
        s == t,
    decreases s.len() + t.len(),
{
    if s.len() == 0 || t.len() == 0 {
        if s.len() > 0 {
            lemma_entry_in_map::<K, V>(s, 0);
            assert(has_key(t, s[0].0));
        }
        if t.len() > 0 {
            lemma_entry_in_map::<K, V>(t, 0);
            assert(has_key(s, t[0].0));
        }
        assert(s =~= t);
    } else {
        lemma_entry_in_map::<K, V>(s, 0);
        lemma_entry_in_map::<K, V>(t, 0);
        assert(has_key(t, s[0].0));
        assert(has_key(s, t[0].0));
        let i = choose|i: int| 0 <= i < t.len() && (#[trigger] t[i]).0 == s[0].0;
        let j = choose|j: int| 0 <= j < s.len() && (#[trigger] s[j]).0 == t[0].0;
        if i > 0 && j > 0 {
            assert(K::precedes(t[0].0, t[i].0));
            assert(K::precedes(s[0].0, s[j].0));
            K::lemma_precedes_transitive(t[0].0, s[0].0, t[0].0);
            K::lemma_precedes_irreflexive(t[0].0);
        } else if i > 0 {
            assert(K::precedes(t[0].0, t[i].0));
            K::lemma_precedes_irreflexive(t[0].0);
        } else if j > 0 {
            assert(K::precedes(s[0].0, s[j].0));
            K::lemma_precedes_irreflexive(s[0].0);
        }
        assert(s[0].0 == t[0].0);
        assert(s[0] == t[0]);
        let s1 = s.drop_first();
        let t1 = t.drop_first();
        assert(strictly_sorted::<K, V>(s1)) by {
            assert forall|a: int, b: int| 0 <= a < b < s1.len() implies K::precedes(
                #[trigger] s1[a].0,
                #[trigger] s1[b].0,
            ) by {
                assert(s1[a] == s[a + 1] && s1[b] == s[b + 1]);
            }
        }
        assert(strictly_sorted::<K, V>(t1)) by {
            assert forall|a: int, b: int| 0 <= a < b < t1.len() implies K::precedes(
                #[trigger] t1[a].0,
                #[trigger] t1[b].0,
            ) by {
                assert(t1[a] == t[a + 1] && t1[b] == t[b + 1]);
            }
        }
        assert forall|k: K::V| #[trigger] has_key(s1, k) == has_key(t1, k) by {
            if has_key(s1, k) {
                let a = choose|a: int| 0 <= a < s1.len() && (#[trigger] s1[a]).0 == k;
                assert(s[a + 1].0 == k);
                assert(K::precedes(s[0].0, k));
                K::lemma_precedes_irreflexive(k);
                assert(has_key(s, k));
                assert(entries_to_map(s).contains_key(k));
                assert(has_key(t, k));
                let b = choose|b: int| 0 <= b < t.len() && (#[trigger] t[b]).0 == k;
                assert(b != 0);
                assert(t1[b - 1].0 == k);
            }
            if has_key(t1, k) {
                let a = choose|a: int| 0 <= a < t1.len() && (#[trigger] t1[a]).0 == k;
                assert(t[a + 1].0 == k);
                assert(K::precedes(t[0].0, k));
                K::lemma_precedes_irreflexive(k);
                assert(has_key(t, k));
                assert(entries_to_map(t).contains_key(k));
                assert(has_key(s, k));
                let b = choose|b: int| 0 <= b < s.len() && (#[trigger] s[b]).0 == k;
                assert(b != 0);
                assert(s1[b - 1].0 == k);
            }
        }
        assert forall|k: K::V| #[trigger] entries_to_map(s1).contains_key(k) implies entries_to_map(s1)[k]
            == entries_to_map(t1)[k] by {
            let a = choose|a: int| 0 <= a < s1.len() && (#[trigger] s1[a]).0 == k;
            let b = choose|b: int| 0 <= b < t1.len() && (#[trigger] t1[b]).0 == k;
            lemma_entry_in_map::<K, V>(s1, a);
            lemma_entry_in_map::<K, V>(t1, b);
            lemma_entry_in_map::<K, V>(s, a + 1);
            lemma_entry_in_map::<K, V>(t, b + 1);
            assert(s1[a] == s[a + 1]);
            assert(t1[b] == t[b + 1]);
        }
        assert(entries_to_map(s1) =~= entries_to_map(t1));
        law_sorted_entries_unique::<K, V>(s1, t1);
        assert(s =~= seq![s[0]] + s1);
        assert(t =~= seq![t[0]] + t1);
    }
}

/// The records that a range query over a farm's timestamp index returns
/// are records of that farm, with timestamps in the range, in strictly
/// increasing timestamp order.
pub proof fn law_range_query_records(store: FarmStore, farm_key: Seq<u8>, start: i64, end: i64)
    requires
        store.wf(),
        store.data_index().map().contains_key(farm_key),
    ensures
        ({
            let found = records_in_range(
                store.data_index().map()[farm_key].entries(),
                store.data().map(),
                start,
                end,
            );
            &&& forall|i: int|
                0 <= i < found.len() ==> {
                    &&& (#[trigger] found[i]).farm_id@ == farm_key
                    &&& start <= found[i].ts <= end
                }
            &&& forall|i: int, j: int| 0 <= i < j < found.len() ==> (#[trigger] found[i]).ts < (#[trigger] found[j]).ts
        }),
{
    let entries = store.data_index().map()[farm_key].entries();
    lemma_range_prefix(store, farm_key, start, end, entries.len() as int);
    assert(entries.take(entries.len() as int) =~= entries);
}

/// A range query over a farm's timestamp index misses nothing: the record
/// indexed at every timestamp in the range is among those returned.
pub proof fn law_range_query_complete(store: FarmStore, farm_key: Seq<u8>, start: i64, end: i64, t: i64)
    requires
        store.wf(),
        store.data_index().map().contains_key(farm_key),
        store.data_index().map()[farm_key].map().contains_key(t),
        start <= t <= end,
    ensures
        records_in_range(
            store.data_index().map()[farm_key].entries(),
            store.data().map(),
            start,
            end,
        ).contains(store.data().map()[store.data_index().map()[farm_key].map()[t]@]),
{
    let entries = store.data_index().map()[farm_key].entries();
    assert(has_key(entries, t));
    let m = choose|m: int| 0 <= m < entries.len() && (#[trigger] entries[m]).0 == t;
    lemma_entry_in_map::<i64, [u8; 32]>(entries, m);
    lemma_range_complete_prefix(store, farm_key, start, end, entries.len() as int, m);
    assert(entries.take(entries.len() as int) =~= entries);
}

proof fn lemma_range_complete_prefix(store: FarmStore, farm_key: Seq<u8>, start: i64, end: i64, n: int, m: int)
    requires
        store.wf(),
        store.data_index().map().contains_key(farm_key),
        0 <= m < n <= store.data_index().map()[farm_key].entries().len(),
        start <= store.data_index().map()[farm_key].entries()[m].0 <= end,
    ensures
        ({
            let entries = store.data_index().map()[farm_key].entries();
            records_in_range(entries.take(n), store.data().map(), start, end).contains(
                store.data().map()[entries[m].1@],
            )
        }),
    decreases n,
{
    let entries = store.data_index().map()[farm_key].entries();
    let data = store.data().map();
    let x = data[entries[m].1@];
    let found = records_in_range(entries.take(n), data, start, end);
    let rest = records_in_range(entries.take(n - 1), data, start, end);
    assert(entries.take(n).drop_last() =~= entries.take(n - 1));
    assert(entries.take(n).last() == entries[n - 1]);
    let e = entries[n - 1];
    if m == n - 1 {
        assert(found == rest.push(x));
        assert(found[found.len() - 1] == x);
    } else {
        lemma_range_complete_prefix(store, farm_key, start, end, n - 1, m);
        let i = choose|i: int| 0 <= i < rest.len() && rest[i] == x;
        if start <= e.0 && e.0 <= end {
            assert(found == rest.push(data[e.1@]));
            assert(found[i] == x);
        } else {
            assert(found == rest);
        }
    }
}

proof fn lemma_range_prefix(store: FarmStore, farm_key: Seq<u8>, start: i64, end: i64, n: int)
    requires
        store.wf(),
        store.data_index().map().contains_key(farm_key),
        0 <= n <= store.data_index().map()[farm_key].entries().len(),
    ensures
        ({
            let entries = store.data_index().map()[farm_key].entries();
            let found = records_in_range(entries.take(n), store.data().map(), start, end);
            &&& forall|i: int|
                0 <= i < found.len() ==> {
                    &&& (#[trigger] found[i]).farm_id@ == farm_key
                    &&& start <= found[i].ts <= end
                    &&& exists|m: int| 0 <= m < n && entries[m].0 == found[i].ts
                }
            &&& forall|i: int, j: int| 0 <= i < j < found.len() ==> (#[trigger] found[i]).ts < (#[trigger] found[j]).ts
        }),
    decreases n,
{
    let entries = store.data_index().map()[farm_key].entries();
    let ts_map = store.data_index().map()[farm_key];
    if n > 0 {
        lemma_range_prefix(store, farm_key, start, end, n - 1);
        assert(entries.take(n).drop_last() =~= entries.take(n - 1));
        let e = entries[n - 1];
        let rest = records_in_range(entries.take(n - 1), store.data().map(), start, end);
        let found = records_in_range(entries.take(n), store.data().map(), start, end);
        if start <= e.0 && e.0 <= end {
            lemma_entry_in_map::<i64, [u8; 32]>(entries, n - 1);
            assert(ts_map.map()[e.0] == e.1);
            let d = store.data().map()[e.1@];
            assert(found == rest.push(d));
            assert forall|i: int, j: int| 0 <= i < j < found.len() implies (#[trigger] found[i]).ts < (
            #[trigger] found[j]).ts by {
                if j == found.len() - 1 && i < rest.len() {
                    let m = choose|m: int| 0 <= m < n - 1 && entries[m].0 == rest[i].ts;
                    assert(i64::precedes(entries[m].0, entries[n - 1].0));
                }
            }
            assert forall|i: int| 0 <= i < found.len() implies {
                &&& (#[trigger] found[i]).farm_id@ == farm_key
                &&& start <= found[i].ts <= end
                &&& exists|m: int| 0 <= m < n && entries[m].0 == found[i].ts
            } by {
                if i == found.len() - 1 {
                    assert(entries[n - 1].0 == found[i].ts);
                } else {
                    assert(found[i] == rest[i]);
                    let m = choose|m: int| 0 <= m < n - 1 && entries[m].0 == rest[i].ts;
                    assert(entries[m].0 == found[i].ts);
                }
            }
        } else {
            assert(found == rest);
            assert forall|i: int| 0 <= i < found.len() implies exists|m: int|
                0 <= m < n && entries[m].0 == (#[trigger] found[i]).ts by {
                let m = choose|m: int| 0 <= m < n - 1 && entries[m].0 == rest[i].ts;
                assert(entries[m].0 == found[i].ts);
            }
        }
    }
}

/// Indexing only appends: every id listed under a cell stays listed there,
/// at the same place, and no cell disappears.
pub proof fn law_cells_only_grow(m: Map<Seq<u8>, Seq<String>>, keys: Seq<Seq<u8>>, id: String)
    ensures
        forall|k: Seq<u8>| #[trigger] m.contains_key(k) ==> {
            let after = append_to_cells(m, keys, id);
            &&& after.contains_key(k)
            &&& m[k].len() <= after[k].len()
            &&& after[k].take(m[k].len() as int) == m[k]
        },
    decreases keys.len(),
{
    if keys.len() > 0 {
        law_cells_only_grow(m, keys.drop_last(), id);
        assert forall|k: Seq<u8>| #[trigger] m.contains_key(k) implies {
            let after = append_to_cells(m, keys, id);
            &&& after.contains_key(k)
            &&& m[k].len() <= after[k].len()
            &&& after[k].take(m[k].len() as int) == m[k]
        } by {
            let before = append_to_cells(m, keys.drop_last(), id);
            let after = append_to_cells(m, keys, id);
            if k == keys.last() {
                assert(after[k] == before[k].push(id));
                assert(after[k].take(m[k].len() as int) =~= before[k].take(m[k].len() as int));
            }
        }
    }
}

/// Indexing under a list of keys lists the id last under the last key.
pub proof fn law_indexed_id_is_listed(m: Map<Seq<u8>, Seq<String>>, keys: Seq<Seq<u8>>, id: String)
    requires
        keys.len() > 0,
    ensures
        append_to_cells(m, keys, id).contains_key(keys.last()),
        append_to_cells(m, keys, id)[keys.last()].last() == id,
{
}

/// A farm that was registered is found under its name, with the caller as
/// its farmer.
pub proof fn law_registered_farm_is_found(
    before: FarmStore,
    after: FarmStore,
    name: String,
    metadata: String,
    caller: String,
)
    requires
        after.farms().map() == before.farms().map().insert(
            text_key(name@),
            Farm { name, metadata, farmer: caller },
        ),
    ensures
        map_get(after.farms().map(), text_key(name@)) == Some(Farm { name, metadata, farmer: caller }),
{
}

/// A worker that was added or updated is found on its farm, with what was
/// given; it is approved exactly when the farmer made the change.
pub proof fn law_updated_worker_is_found(
    before: FarmStore,
    after: FarmStore,
    farm: String,
    name: String,
    id: String,
    role: Role,
    image_cid: String,
    caller: String,
)
    requires
        before.wf(),
        after.wf(),
        before.farms().map().contains_key(text_key(farm@)),
        after.workers().map().contains_key(text_key(farm@)),
        after.workers().map()[text_key(farm@)].map() == nested(
            before.workers().map(),
            text_key(farm@),
        ).insert(
            id@,
            Person {
                name,
                id: if nested(before.workers().map(), text_key(farm@)).contains_key(id@) {
                    nested(before.workers().map(), text_key(farm@))[id@].id
                } else {
                    id
                },
                role,
                image_cid,
                approved: caller@ == before.farms().map()[text_key(farm@)].farmer@,
            },
        ),
    ensures
        ({
            let found = map_get(nested(after.workers().map(), text_key(farm@)), id@);
            &&& found is Some
            &&& found.unwrap().id@ == id@
            &&& found.unwrap().name == name
            &&& found.unwrap().role == role
            &&& found.unwrap().image_cid == image_cid
            &&& found.unwrap().approved == (caller@ == before.farms().map()[text_key(farm@)].farmer@)
        }),
{
}

/// A data record that was filed is found under its id, and the farm's
/// timestamp index lists it at its timestamp.
pub proof fn law_filed_record_is_found(before: FarmStore, after: FarmStore, id: String, ts: i64, farm: String)
    requires
        after.wf(),
        after.data().map().contains_key(text_key(id@)),
        after.data().map()[text_key(id@)].id == id,
        after.data().map()[text_key(id@)].farm_id@ == text_key(farm@),
        after.data().map()[text_key(id@)].ts == ts,
        after.data_index().map().contains_key(text_key(farm@)),
        after.data_index().map()[text_key(farm@)].map().contains_key(ts),
        after.data_index().map()[text_key(farm@)].map()[ts]@ == text_key(id@),
    ensures
        map_get(after.data().map(), text_key(id@)) matches Some(d) && d.id == id && d.ts == ts,
        ({
            let listed = records_in_range(
                after.data_index().map()[text_key(farm@)].entries(),
                after.data().map(),
                ts,
                ts,
            );
            listed.len() == 1 && listed[0] == after.data().map()[text_key(id@)]
        }),
{
    let entries = after.data_index().map()[text_key(farm@)].entries();
    let ts_map = after.data_index().map()[text_key(farm@)];
    assert(has_key(entries, ts));
    let m = choose|m: int| 0 <= m < entries.len() && (#[trigger] entries[m]).0 == ts;
    lemma_entry_in_map::<i64, [u8; 32]>(entries, m);
    lemma_single_in_range(after, text_key(farm@), ts, m, entries.len() as int);
    assert(entries.take(entries.len() as int) =~= entries);
}

proof fn lemma_single_in_range(store: FarmStore, farm_key: Seq<u8>, ts: i64, m: int, n: int)
    requires
        store.wf(),
        store.data_index().map().contains_key(farm_key),
        0 <= m < store.data_index().map()[farm_key].entries().len(),
        store.data_index().map()[farm_key].entries()[m].0 == ts,
        0 <= n <= store.data_index().map()[farm_key].entries().len(),
    ensures
        ({
            let entries = store.data_index().map()[farm_key].entries();
            let found = records_in_range(entries.take(n), store.data().map(), ts, ts);
            &&& n <= m ==> found.len() == 0
            &&& n > m ==> found.len() == 1 && found[0] == store.data().map()[entries[m].1@]
        }),
    decreases n,
{
    let entries = store.data_index().map()[farm_key].entries();
    if n > 0 {
        lemma_single_in_range(store, farm_key, ts, m, n - 1);
        assert(entries.take(n).drop_last() =~= entries.take(n - 1));
        if n - 1 != m {
            if n - 1 < m {
                assert(i64::precedes(entries[n - 1].0, entries[m].0));
            } else {
                assert(i64::precedes(entries[m].0, entries[n - 1].0));
            }
        }
    }
}

/// A deleted farm is no longer found, and neither are its workers.
pub proof fn law_deleted_farm_is_gone(before: FarmStore, after: FarmStore, name: String)
    requires
        after.farms().map() == before.farms().map().remove(text_key(name@)),
        after.workers().map() == before.workers().map().remove(text_key(name@)),
    ensures
        map_get(after.farms().map(), text_key(name@)) is None,
        nested(after.workers().map(), text_key(name@)) == Map::<Seq<char>, Person>::empty(),
{
}

/// An identifier is accepted only when its prefix pair decodes to `c`, `C`
/// or `W` and its checksum pair is the checksum of its geohash part.
pub proof fn law_accepted_id_is_checked(id: Seq<char>)
    requires
        id_geohash(encode_utf8(id)) is Ok,
    ensures
        ({
            let b = encode_utf8(id);
            let prefix = identifier_char(b.subrange(0, 2));
            &&& prefix is Ok
            &&& geohash_offset(prefix.unwrap()) is Some
            &&& checksum_text(b.subrange(geohash_offset(prefix.unwrap()).unwrap(), b.len() as int))
                == decode_utf8(b.subrange(2, 4))
        }),
{
}

/// A worker that is new to a farm is afterwards found to belong to it.
pub proof fn law_new_worker_belongs_to_farm(before: FarmStore, after: FarmStore, farm: String, id: String)
    requires
        before.farms().map().contains_key(text_key(farm@)),
        after.farms() == before.farms(),
        after.farm_lookup().map().contains_key(id@),
        after.farm_lookup().map()[id@]@ == text_key(farm@),
    ensures
        after.farm_of_worker(id@) == Some(before.farms().map()[text_key(farm@)]),
{
}

/// The geohash read out of an identifier uses only geohash-alphabet
/// characters, one for each even-placed hex digit at most.
pub proof fn law_decoded_geohash_uses_alphabet(s: Seq<char>)
    ensures
        hex_geohash(s).len() <= (s.len() + 1) / 2,
        forall|i: int| 0 <= i < hex_geohash(s).len() ==> is_geohash_char(#[trigger] hex_geohash(s)[i]),
    decreases s.len(),
{
    if s.len() >= 2 {
        law_decoded_geohash_uses_alphabet(s.skip(2));
    }
    if s.len() > 0 {
        let head = match hex_char_value(s[0]) {
            Some(v) => seq![geohash_digit(v % 32)],
            None => Seq::<char>::empty(),
        };
        assert forall|i: int| 0 <= i < head.len() implies is_geohash_char(#[trigger] head[i]) by {
            let v = hex_char_value(s[0]).unwrap();
            assert(0 <= v < 16);
        }
        if s.len() >= 2 {
            let rest = hex_geohash(s.skip(2));
            assert(hex_geohash(s) == head + rest);
            assert forall|i: int| 0 <= i < hex_geohash(s).len() implies is_geohash_char(
                #[trigger] hex_geohash(s)[i],
            ) by {
                if i >= head.len() {
                    assert(hex_geohash(s)[i] == rest[i - head.len()]);
                }
            }
        }
    }
}

/// An id listed under a cell stays listed there through any later indexing.
pub proof fn law_listing_persists(m: Map<Seq<u8>, Seq<String>>, keys: Seq<Seq<u8>>, id: String, k: Seq<u8>, x: String)
    requires
        m.contains_key(k),
        m[k].contains(x),
    ensures
        append_to_cells(m, keys, id).contains_key(k),
        append_to_cells(m, keys, id)[k].contains(x),
{
    law_cells_only_grow(m, keys, id);
    let after = append_to_cells(m, keys, id);
    let i = choose|i: int| 0 <= i < m[k].len() && m[k][i] == x;
    assert(after[k].take(m[k].len() as int)[i] == x);
    assert(after[k][i] == x);
}

/// After `index(g, id)`, a search around `g` at any precision from two to
/// six lists `id` among the ids of the cell searched.
pub proof fn law_indexed_id_is_found_around(before: GeoIndex, after: GeoIndex, g: Seq<char>, id: String, p: usize)
    requires
        2 <= p <= 6,
        after.cells() == append_to_cells(
            before.cells(),
            seq![
                text_key(geohash_cell(g, 2)),
                text_key(geohash_cell(g, 3)),
                text_key(geohash_cell(g, 4)),
                text_key(geohash_cell(g, 5)),
                text_key(geohash_cell(g, 6)),
            ],
            id,
        ),
    ensures
        after.ids_in(geohash_cell(g, p)).contains(id),
{
    let keys = seq![
        text_key(geohash_cell(g, 2)),
        text_key(geohash_cell(g, 3)),
        text_key(geohash_cell(g, 4)),
        text_key(geohash_cell(g, 5)),
        text_key(geohash_cell(g, 6)),
    ];
    let n = (p - 1) as int;
    let k = text_key(geohash_cell(g, p));
    assert(keys.take(n).last() == k);
    law_indexed_id_is_listed(before.cells(), keys.take(n), id);
    let mid = append_to_cells(before.cells(), keys.take(n), id);
    assert(mid[k][mid[k].len() - 1] == id);
    assert(mid[k].contains(id));
    lemma_append_split(before.cells(), keys, n, id);
    law_listing_persists(mid, keys.skip(n), id, k, id);
}

/// An id indexed at `g` is still listed under each cell of `g` that the
/// search uses, after any number of later indexings: `states` runs from the
/// index before `index(g, id)` through the state after it, then through one
/// later indexing per step.
pub proof fn law_indexed_id_stays_found(states: Seq<GeoIndex>, g: Seq<char>, id: String, p: usize)
    requires
        states.len() >= 2,
        2 <= p <= 6,
        states[1].cells() == append_to_cells(
            states[0].cells(),
            seq![
                text_key(geohash_cell(g, 2)),
                text_key(geohash_cell(g, 3)),
                text_key(geohash_cell(g, 4)),
                text_key(geohash_cell(g, 5)),
                text_key(geohash_cell(g, 6)),
            ],
            id,
        ),
        forall|i: int| 1 <= i < states.len() - 1 ==> cells_appended(#[trigger] states[i].cells(), states[i + 1].cells()),
    ensures
        states.last().ids_in(geohash_cell(g, p)).contains(id),
    decreases states.len(),
{
    if states.len() == 2 {
        law_indexed_id_is_found_around(states[0], states[1], g, id, p);
    } else {
        let shorter = states.drop_last();
        assert forall|i: int| 1 <= i < shorter.len() - 1 implies cells_appended(
            #[trigger] shorter[i].cells(),
            shorter[i + 1].cells(),
        ) by {
            assert(cells_appended(states[i].cells(), states[i + 1].cells()));
        }
        law_indexed_id_stays_found(shorter, g, id, p);
        let n = states.len() - 2;
        let prev = states[n].cells();
        assert(cells_appended(states[n].cells(), states[n + 1].cells()));
        let (keys, other) = choose|keys: Seq<Seq<u8>>, other: String| #[trigger] append_to_cells(prev, keys, other)
            == states[n + 1].cells();
        let k = text_key(geohash_cell(g, p));
        law_listing_persists(prev, keys, other, k, id);
    }
}

/// Indexing under `keys` is indexing under a prefix, then under the rest.
proof fn lemma_append_split(m: Map<Seq<u8>, Seq<String>>, keys: Seq<Seq<u8>>, n: int, id: String)
    requires
        0 <= n <= keys.len(),
    ensures
        append_to_cells(m, keys, id) == append_to_cells(append_to_cells(m, keys.take(n), id), keys.skip(n), id),
    decreases keys.len(),
{
    if keys.len() == n {
        assert(keys.take(n) =~= keys);
        assert(keys.skip(n) =~= Seq::<Seq<u8>>::empty());
    } else {
        lemma_append_split(m, keys.drop_last(), n, id);
        assert(keys.drop_last().take(n) =~= keys.take(n));
        assert(keys.skip(n).drop_last() =~= keys.drop_last().skip(n));
        assert(keys.skip(n).last() == keys.last());
    }
}

/// A search reads the index without changing it, and its result is
/// determined by the index, the geohash and the precision: two searches
/// give the same ids and locations.
pub proof fn law_search_repeats(geo: GeoIndex, g: Seq<char>, p: usize, a: Candidates, b: Candidates)
    requires
        a.cell_ids@ == geo.ids_in(geohash_cell(g, p)),
        a.neighbours@ == geo.search_neighbours(geohash_cell(g, p)),
        b.cell_ids@ == geo.ids_in(geohash_cell(g, p)),
        b.neighbours@ == geo.search_neighbours(geohash_cell(g, p)),
    ensures
        a.cell_ids@ == b.cell_ids@,
        a.neighbours@ == b.neighbours@,
{
}

/// The search visits eight directions, all different, so every compass
/// direction is searched exactly once.
pub proof fn law_search_covers_every_direction(d: Direction)
    ensures
        search_directions().len() == 8,
        forall|i: int, j: int|
            0 <= i < j < 8 ==> #[trigger] search_directions()[i] != #[trigger] search_directions()[j],
        exists|j: int| 0 <= j < 8 && #[trigger] search_directions()[j] == d,
{
    let dirs = search_directions();
    match d {
        Direction::N => assert(dirs[0] == d),
        Direction::NE => assert(dirs[1] == d),
        Direction::E => assert(dirs[2] == d),
        Direction::SE => assert(dirs[3] == d),
        Direction::S => assert(dirs[4] == d),
        Direction::SW => assert(dirs[5] == d),
        Direction::W => assert(dirs[6] == d),
        Direction::NW => assert(dirs[7] == d),
    }
}

/// Every id listed under any neighbour of a cell, in whichever direction,
/// is among the neighbour ids that a search around the cell collects.
pub proof fn law_every_neighbour_is_searched(geo: GeoIndex, cell: Seq<char>, d: Direction, n: Seq<char>, k: int)
    requires
        geohash_neighbor(cell, d) == Some(n),
        0 <= k < geo.ids_in(n).len(),
    ensures
        geo.neighbour_ids(cell, search_directions()).contains(geo.ids_in(n)[k]),
{
    law_search_covers_every_direction(d);
    let dirs = search_directions();
    let j = choose|j: int| 0 <= j < 8 && #[trigger] search_directions()[j] == d;
    geo.lemma_neighbour_ids_step(cell, dirs, j);
    geo.lemma_neighbour_ids_prefix(cell, dirs, j + 1);
    let pre = geo.neighbour_ids(cell, dirs.take(j));
    let next = geo.neighbour_ids(cell, dirs.take(j + 1));
    let idx = pre.len() + k;
    assert(next[idx] == geo.ids_in(n)[k]);
    let all = geo.neighbour_ids(cell, dirs);
    assert(all[idx] == geo.ids_in(n)[k]);
}

/// The digit for each value below sixteen is the lower-case hex digit of
/// that value.
pub proof fn law_hex_digits_are_lower_case(n: int)
    requires
        0 <= n < 16,
    ensures
        lower_hex_char(n) == hex_digit_table()[n],
{
    assert(lower_hex_char(0) == '0');
    assert(lower_hex_char(1) == '1');
    assert(lower_hex_char(2) == '2');
    assert(lower_hex_char(3) == '3');
    assert(lower_hex_char(4) == '4');
    assert(lower_hex_char(5) == '5');
    assert(lower_hex_char(6) == '6');
    assert(lower_hex_char(7) == '7');
    assert(lower_hex_char(8) == '8');
    assert(lower_hex_char(9) == '9');
    assert(lower_hex_char(10) == 'a');
    assert(lower_hex_char(11) == 'b');
    assert(lower_hex_char(12) == 'c');
    assert(lower_hex_char(13) == 'd');
    assert(lower_hex_char(14) == 'e');
    assert(lower_hex_char(15) == 'f');
}

/// The checksum of the geohash part `data` is the first byte of the
/// SHA-256 digest of all of `data`, written as two lower-case hex digits,
/// high digit first.
pub proof fn law_checksum_is_first_digest_byte(data: Seq<u8>)
    ensures
        checksum_text(data).len() == 2,
        checksum_text(data)[0] == hex_digit_table()[(sha256_digest(data)[0] / 16) as int],
        checksum_text(data)[1] == hex_digit_table()[(sha256_digest(data)[0] % 16) as int],
{
    let b = sha256_digest(data)[0];
    law_hex_digits_are_lower_case((b / 16) as int);
    law_hex_digits_are_lower_case((b % 16) as int);
}

/// The key of a text is the SHA-256 digest of all of its UTF-8 bytes: two
/// texts get the same key exactly when the digests of their whole
/// encodings agree, and different texts have different encodings.
pub proof fn law_key_digests_whole_text(a: Seq<char>, b: Seq<char>)
    ensures
        text_key(a) == sha256_digest(encode_utf8(a)),
        (text_key(a) == text_key(b)) <==> (sha256_digest(encode_utf8(a)) == sha256_digest(encode_utf8(b))),
        a != b ==> encode_utf8(a) != encode_utf8(b),
{
    encode_utf8_decode_utf8(a);
    encode_utf8_decode_utf8(b);
}

/// Each neighbour candidate of a search is paired with its lookup: the
/// first id listed under the cell keyed by the geohash recorded for it.
pub proof fn law_neighbour_paired_with_lookup(geo: GeoIndex, cell: Seq<char>, i: int)
    requires
        geo.neighbours_located(cell),
        0 <= i < geo.neighbour_ids(cell, search_directions()).len(),
    ensures
        ({
            let id = geo.neighbour_ids(cell, search_directions())[i];
            let pair = geo.search_neighbours(cell)[i];
            &&& geo.search_neighbours(cell).len() == geo.neighbour_ids(cell, search_directions()).len()
            &&& pair.0 == id
            &&& geo.locations().contains_key(id@)
            &&& geo.cells().contains_key(geo.locations()[id@])
            &&& geo.cells()[geo.locations()[id@]].len() > 0
            &&& pair.1 == geo.cells()[geo.locations()[id@]][0]
        }),
{
    let ids = geo.neighbour_ids(cell, search_directions());
    assert(geo.location_of(ids[i]@) is Some);
}

/// The geohash character for each value below thirty-two is the character
/// at that place of the geohash alphabet `0123456789bcdefghjkmnpqrstuvwxyz`.
pub proof fn law_geohash_digits_follow_alphabet(v: int)
    requires
        0 <= v < 32,
    ensures
        geohash_digit(v) == geohash_alphabet()[v],
{
    assert(geohash_digit(0) == '0');
    assert(geohash_digit(1) == '1');
    assert(geohash_digit(2) == '2');
    assert(geohash_digit(3) == '3');
    assert(geohash_digit(4) == '4');
    assert(geohash_digit(5) == '5');
    assert(geohash_digit(6) == '6');
    assert(geohash_digit(7) == '7');
    assert(geohash_digit(8) == '8');
    assert(geohash_digit(9) == '9');
    assert(geohash_digit(10) == 'b');
    assert(geohash_digit(11) == 'c');
    assert(geohash_digit(12) == 'd');
    assert(geohash_digit(13) == 'e');
    assert(geohash_digit(14) == 'f');
    assert(geohash_digit(15) == 'g');
    assert(geohash_digit(16) == 'h');
    assert(geohash_digit(17) == 'j');
    assert(geohash_digit(18) == 'k');
    assert(geohash_digit(19) == 'm');
    assert(geohash_digit(20) == 'n');
    assert(geohash_digit(21) == 'p');
    assert(geohash_digit(22) == 'q');
    assert(geohash_digit(23) == 'r');
    assert(geohash_digit(24) == 's');
    assert(geohash_digit(25) == 't');
    assert(geohash_digit(26) == 'u');
    assert(geohash_digit(27) == 'v');
    assert(geohash_digit(28) == 'w');
    assert(geohash_digit(29) == 'x');
    assert(geohash_digit(30) == 'y');
    assert(geohash_digit(31) == 'z');
}

/// A hex digit of either case has its value; a byte is read as the hex
/// digit of the same code.
pub proof fn law_hex_digit_values(v: int, b: u8)
    requires
        0 <= v < 16,
    ensures
        hex_char_value(hex_digit_table()[v]) == Some(v),
        hex_char_value(upper_hex_digit_table()[v]) == Some(v),
        hex_byte_value(b) == hex_char_value(b as char),
{
    assert(hex_char_value('0') == Some(0int));
    assert(hex_char_value('0') == Some(0int));
    assert(hex_char_value('1') == Some(1int));
    assert(hex_char_value('1') == Some(1int));
    assert(hex_char_value('2') == Some(2int));
    assert(hex_char_value('2') == Some(2int));
    assert(hex_char_value('3') == Some(3int));
    assert(hex_char_value('3') == Some(3int));
    assert(hex_char_value('4') == Some(4int));
    assert(hex_char_value('4') == Some(4int));
    assert(hex_char_value('5') == Some(5int));
    assert(hex_char_value('5') == Some(5int));
    assert(hex_char_value('6') == Some(6int));
    assert(hex_char_value('6') == Some(6int));
    assert(hex_char_value('7') == Some(7int));
    assert(hex_char_value('7') == Some(7int));
    assert(hex_char_value('8') == Some(8int));
    assert(hex_char_value('8') == Some(8int));
    assert(hex_char_value('9') == Some(9int));
    assert(hex_char_value('9') == Some(9int));
    assert(hex_char_value('a') == Some(10int));
    assert(hex_char_value('A') == Some(10int));
    assert(hex_char_value('b') == Some(11int));
    assert(hex_char_value('B') == Some(11int));
    assert(hex_char_value('c') == Some(12int));
    assert(hex_char_value('C') == Some(12int));
    assert(hex_char_value('d') == Some(13int));
    assert(hex_char_value('D') == Some(13int));
    assert(hex_char_value('e') == Some(14int));
    assert(hex_char_value('E') == Some(14int));
    assert(hex_char_value('f') == Some(15int));
    assert(hex_char_value('F') == Some(15int));
}

/// Only hex digits have a value: a character with one is the lower- or
/// upper-case digit of that value.
pub proof fn law_only_hex_digits_have_values(c: char)
    requires
        hex_char_value(c) is Some,
    ensures
        c == hex_digit_table()[hex_char_value(c).unwrap()] || c == upper_hex_digit_table()[hex_char_value(
            c,
        ).unwrap()],
{
    let v = hex_char_value(c).unwrap();
    law_hex_digit_values(v, 0);
    assert(0 <= v < 16);
    if '0' <= c <= '9' {
        assert(hex_digit_table()[v] as int == v + 48);
    } else if 'a' <= c <= 'f' {
        assert(hex_digit_table()[v] as int == v + 87);
    } else {
        assert(upper_hex_digit_table()[v] as int == v + 55);
    }
}

} // verus!
