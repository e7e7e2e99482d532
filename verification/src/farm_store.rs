//! The farm registry: farms, their workers, and the data records that
//! workers file, keyed by the SHA-256 digests of names and ids.
//!
//! Each update takes the identity of its caller as a plain string. The
//! requests that the service refuses are left out by the `requires` of each
//! operation; the queries here let a caller test for them first.

use vstd::prelude::*;
use crate::hashing::{get_id, text_key};
use crate::sorted_map::{map_get, OrderedKey, SortedMap};

verus! {

/// What a worker does on a farm.
#[derive(Clone, Copy, Debug, PartialEq, Eq)]
pub enum Role {
    Farmer,
    FarmManager,
    FieldManager,
    FactoryManager,
    ReceivingManager,
    Harvester,
    Scout,
}

#[derive(Clone, Debug)]
pub struct Farm {
    pub name: String,
    pub metadata: String,
    pub farmer: String,
}

#[derive(Clone, Debug)]
pub struct Person {
    pub name: String,
    pub id: String,
    pub role: Role,
    pub image_cid: String,
    pub approved: bool,
}

#[derive(Clone, Debug)]
pub struct Data {
    pub id: String,
    pub farm_id: [u8; 32],
    pub ts: i64,
    pub metadata: String,
}

impl Farm {
    pub fn duplicate(&self) -> (r: Farm)
        ensures
            r == *self,
    {
        Farm { name: self.name.clone(), metadata: self.metadata.clone(), farmer: self.farmer.clone() }
    }
}

impl Person {
    pub fn duplicate(&self) -> (r: Person)
        ensures
            r == *self,
    {
        Person {
            name: self.name.clone(),
            id: self.id.clone(),
            role: self.role,
            image_cid: self.image_cid.clone(),
            approved: self.approved,
        }
    }
}

impl Data {
    pub fn duplicate(&self) -> (r: Data)
        ensures
            r == *self,
    {
        Data { id: self.id.clone(), farm_id: self.farm_id, ts: self.ts, metadata: self.metadata.clone() }
    }
}

/// The registry's state.
pub struct FarmStore {
    farms: SortedMap<[u8; 32], Farm>,
    workers: SortedMap<[u8; 32], SortedMap<String, Person>>,
    farm_lookup: SortedMap<String, [u8; 32]>,
    data: SortedMap<[u8; 32], Data>,
    data_index: SortedMap<[u8; 32], SortedMap<i64, [u8; 32]>>,
}

/// The records that a timestamp index lists between `start` and `end`
/// inclusive, in the order of the index.
pub open spec fn records_in_range(
    entries: Seq<(i64, [u8; 32])>,
    data: Map<Seq<u8>, Data>,
    start: i64,
    end: i64,
) -> Seq<Data>
    decreases entries.len(),
{
    if entries.len() == 0 {
        Seq::empty()
    } else {
        let rest = records_in_range(entries.drop_last(), data, start, end);
        let e = entries.last();
        if start <= e.0 && e.0 <= end {
            rest.push(data[e.1@])
        } else {
            rest
        }
    }
}

/// The map nested under `key`, or the empty map where there is none.
pub open spec fn nested<K: OrderedKey, V>(outer: Map<Seq<u8>, SortedMap<K, V>>, key: Seq<u8>) -> Map<
    K::V,
    V,
> {
    if outer.contains_key(key) {
        outer[key].map()
    } else {
        Map::empty()
    }
}

impl FarmStore {
    /// Farms, under the key of their name.
    pub closed spec fn farms(self) -> SortedMap<[u8; 32], Farm> {
        self.farms
    }

    /// For each farm key, the farm's workers under their ids.
    pub closed spec fn workers(self) -> SortedMap<[u8; 32], SortedMap<String, Person>> {
        self.workers
    }

    /// For each worker id, the key of the farm it was first added to.
    pub closed spec fn farm_lookup(self) -> SortedMap<String, [u8; 32]> {
        self.farm_lookup
    }

    /// Data records, under the key of their id.
    pub closed spec fn data(self) -> SortedMap<[u8; 32], Data> {
        self.data
    }

    /// For each farm key, the key of a data record for each timestamp.
    pub closed spec fn data_index(self) -> SortedMap<[u8; 32], SortedMap<i64, [u8; 32]>> {
        self.data_index
    }

    /// Every map is ordered, the nested ones too.
    pub open spec fn maps_ordered(self) -> bool {
        &&& self.farms().wf()
        &&& self.workers().wf()
        &&& self.farm_lookup().wf()
        &&& self.data().wf()
        &&& self.data_index().wf()
        &&& forall|k: Seq<u8>| #[trigger]
            self.workers().map().contains_key(k) ==> self.workers().map()[k].wf()
        &&& forall|k: Seq<u8>| #[trigger]
            self.data_index().map().contains_key(k) ==> self.data_index().map()[k].wf()
    }

    /// A farm is stored under the key of its own name.
    pub open spec fn farms_keyed_by_name(self) -> bool {
        forall|k: Seq<u8>| #[trigger]
            self.farms().map().contains_key(k) ==> text_key(self.farms().map()[k].name@) == k
    }

    /// A worker is stored under its own id.
    pub open spec fn workers_keyed_by_id(self) -> bool {
        forall|k: Seq<u8>, w: Seq<char>|
            #![trigger self.workers().map()[k].map()[w]]
            self.workers().map().contains_key(k) && self.workers().map()[k].map().contains_key(w)
                ==> self.workers().map()[k].map()[w].id@ == w
    }

    /// A data record is stored under the key of its own id.
    pub open spec fn data_keyed_by_id(self) -> bool {
        forall|k: Seq<u8>| #[trigger]
            self.data().map().contains_key(k) ==> text_key(self.data().map()[k].id@) == k
    }

    /// Every entry of the timestamp index names a stored record of that farm
    /// and that timestamp.
    pub open spec fn index_points_to_data(self) -> bool {
        forall|f: Seq<u8>, t: i64|
            #![trigger self.data_index().map()[f].map()[t]]
            self.data_index().map().contains_key(f) && self.data_index().map()[f].map().contains_key(t)
                ==> {
                let d = self.data_index().map()[f].map()[t]@;
                &&& self.data().map().contains_key(d)
                &&& self.data().map()[d].farm_id@ == f
                &&& self.data().map()[d].ts == t
            }
    }

    pub open spec fn wf(self) -> bool {
        &&& self.maps_ordered()
        &&& self.farms_keyed_by_name()
        &&& self.workers_keyed_by_id()
        &&& self.data_keyed_by_id()
        &&& self.index_points_to_data()
    }

    /// The farm that the worker `id` was added to, if it still exists.
    pub open spec fn farm_of_worker(self, id: Seq<char>) -> Option<Farm> {
        if self.farm_lookup().map().contains_key(id) {
            map_get(self.farms().map(), self.farm_lookup().map()[id]@)
        } else {
            None
        }
    }

    pub fn new() -> (s: FarmStore)
        ensures
            s.wf(),
            s.farms().map() == Map::<Seq<u8>, Farm>::empty(),
            s.workers().map() == Map::<Seq<u8>, SortedMap<String, Person>>::empty(),
            s.farm_lookup().map() == Map::<Seq<char>, [u8; 32]>::empty(),
            s.data().map() == Map::<Seq<u8>, Data>::empty(),
            s.data_index().map() == Map::<Seq<u8>, SortedMap<i64, [u8; 32]>>::empty(),
    {
        FarmStore {
            farms: SortedMap::new(),
            workers: SortedMap::new(),
            farm_lookup: SortedMap::new(),
            data: SortedMap::new(),
            data_index: SortedMap::new(),
        }
    }

    /// The farm stored under `id`.
    pub fn get_farm_from_id(&self, id: &[u8; 32]) -> (r: Option<Farm>)
        requires
            self.wf(),
        ensures
            r == map_get(self.farms().map(), id@),
    {
        match self.farms.get(id) {
            Some(farm) => Some(farm.duplicate()),
            None => None,
        }
    }

    /// The farm of the given name.
    pub fn get_farm(&self, name: String) -> (r: Option<Farm>)
        requires
            self.wf(),
        ensures
            r == map_get(self.farms().map(), text_key(name@)),
    {
        self.get_farm_from_id(&get_id(&name))
    }

    /// The farmer of the farm of the given name.
    pub fn get_farmer_id(&self, farm_name: &String) -> (r: String)
        requires
            self.wf(),
            self.farms().map().contains_key(text_key(farm_name@)),
        ensures
            r == self.farms().map()[text_key(farm_name@)].farmer,
    {
        match self.get_farm(farm_name.clone()) {
            Some(farm) => farm.farmer,
            None => String::new(),
        }
    }

    /// All farms, in the order of their keys.
    pub fn get_farms(&self) -> (r: Vec<Farm>)
        requires
            self.wf(),
        ensures
            r@ == self.farms().entries().map_values(|e: (Seq<u8>, Farm)| e.1),
    {
        let mut r: Vec<Farm> = Vec::new();
        let n = self.farms.len();
        for i in 0..n
            invariant
                self.wf(),
                n == self.farms().entries().len(),
                r@.len() == i,
                forall|j: int| 0 <= j < i ==> r@[j] == self.farms().entries()[j].1,
        {
            r.push(self.farms.value_at(i).duplicate());
        }
        assert(r@ =~= self.farms().entries().map_values(|e: (Seq<u8>, Farm)| e.1));
        r
    }

    /// Registers a farm of the given name, with the caller as its farmer.
    /// A name that is registered already is refused, and left out here.
    pub fn add_farm(&mut self, name: String, metadata: String, caller: String)
        requires
            old(self).wf(),
            !old(self).farms().map().contains_key(text_key(name@)),
        ensures
            final(self).wf(),
            final(self).farms().map() == old(self).farms().map().insert(
                text_key(name@),
                Farm { name, metadata, farmer: caller },
            ),
            final(self).workers() == old(self).workers(),
            final(self).farm_lookup() == old(self).farm_lookup(),
            final(self).data() == old(self).data(),
            final(self).data_index() == old(self).data_index(),
    {
        let key = get_id(&name);
        let farm = Farm { name, metadata, farmer: caller };
        self.farms.insert(key, farm);
    }

    /// Adds a worker to the farm of the given name, or updates it.
    ///
    /// The farm must exist, and only the farmer may give the farmer role; the
    /// service refuses other requests, and they are left out here. A worker
    /// is approved when the farmer makes the change. A worker that is new to
    /// the farm is recorded as belonging to it.
    pub fn update_worker(
        &mut self,
        farm: String,
        name: String,
        id: String,
        role: Role,
        image_cid: String,
        caller: String,
    )
        requires
            old(self).wf(),
            old(self).farms().map().contains_key(text_key(farm@)),
            role is Farmer ==> caller@ == old(self).farms().map()[text_key(farm@)].farmer@,
        ensures
            final(self).wf(),
            ({
                let key = text_key(farm@);
                let approved = caller@ == old(self).farms().map()[key].farmer@;
                let before = nested(old(self).workers().map(), key);
                let person = if before.contains_key(id@) {
                    Person { name, id: before[id@].id, role, image_cid, approved }
                } else {
                    Person { name, id, role, image_cid, approved }
                };
                &&& final(self).workers().map().contains_key(key)
                &&& final(self).workers().map()[key].map() == before.insert(id@, person)
                &&& final(self).workers().map().remove(key) == old(self).workers().map().remove(key)
                &&& before.contains_key(id@) ==> final(self).farm_lookup() == old(self).farm_lookup()
                &&& !before.contains_key(id@) ==> {
                    &&& final(self).farm_lookup().map().contains_key(id@)
                    &&& final(self).farm_lookup().map()[id@]@ == key
                    &&& final(self).farm_lookup().map().remove(id@) == old(
                        self,
                    ).farm_lookup().map().remove(id@)
                }
                &&& final(self).farms() == old(self).farms()
                &&& final(self).data() == old(self).data()
                &&& final(self).data_index() == old(self).data_index()
            }),
    {
        let farm_id = get_id(&farm);
        let farmer_id = self.get_farmer_id(&farm);
        let approved = caller == farmer_id;
        let ghost key = farm_id@;
        let ghost before = nested(self.workers().map(), key);
        let is_new;
        match self.workers.remove(&farm_id) {
            Some(mut worker_map) => {
                let existing = match worker_map.get(&id) {
                    Some(w) => Some(w.id.clone()),
                    None => None,
                };
                match existing {
                    Some(existing_id) => {
                        let worker = Person { name, id: existing_id, role, image_cid, approved };
                        worker_map.insert(id.clone(), worker);
                        is_new = false;
                    },
                    None => {
                        let worker = Person { name, id: id.clone(), role, image_cid, approved };
                        worker_map.insert(id.clone(), worker);
                        is_new = true;
                    },
                }
                self.workers.insert(farm_id, worker_map);
            },
            None => {
                let mut worker_map: SortedMap<String, Person> = SortedMap::new();
                let worker = Person { name, id: id.clone(), role, image_cid, approved };
                worker_map.insert(id.clone(), worker);
                self.workers.insert(farm_id, worker_map);
                is_new = true;
            },
        }
        if is_new {
            self.farm_lookup.insert(id, farm_id);
        }
    }

    /// The farm that the worker `id` belongs to.
    pub fn get_farm_from_workerid(&self, id: String) -> (r: Option<Farm>)
        requires
            self.wf(),
        ensures
            r == self.farm_of_worker(id@),
    {
        match self.farm_lookup.get(&id) {
            Some(farm_id) => self.get_farm_from_id(farm_id),
            None => None,
        }
    }

    /// The worker `id` of the farm of the given name.
    pub fn get_worker(&self, farm: String, id: String) -> (r: Option<Person>)
        requires
            self.wf(),
        ensures
            r == map_get(nested(self.workers().map(), text_key(farm@)), id@),
    {
        match self.workers.get(&get_id(&farm)) {
            Some(persons) => match persons.get(&id) {
                Some(p) => Some(p.duplicate()),
                None => None,
            },
            None => None,
        }
    }

    /// The workers of the farm under `farm_id`, in the order of their ids.
    fn workers_under(&self, farm_id: &[u8; 32]) -> (r: Vec<Person>)
        requires
            self.wf(),
        ensures
            self.workers().map().contains_key(farm_id@) ==> r@ == self.workers().map()[farm_id@].entries().map_values(
                |e: (Seq<char>, Person)| e.1,
            ),
            !self.workers().map().contains_key(farm_id@) ==> r@ == Seq::<Person>::empty(),
    {
        let mut r: Vec<Person> = Vec::new();
        match self.workers.get(farm_id) {
            Some(persons) => {
                let n = persons.len();
                for i in 0..n
                    invariant
                        persons.wf(),
                        n == persons.entries().len(),
                        r@.len() == i,
                        forall|j: int| 0 <= j < i ==> r@[j] == persons.entries()[j].1,
                {
                    r.push(persons.value_at(i).duplicate());
                }
                assert(r@ =~= persons.entries().map_values(|e: (Seq<char>, Person)| e.1));
            },
            None => {
                assert(r@ =~= Seq::<Person>::empty());
            },
        }
        r
    }

    /// The workers of the farm of the given name, in the order of their ids.
    pub fn get_workers(&self, farm: String) -> (r: Vec<Person>)
        requires
            self.wf(),
        ensures
            self.workers().map().contains_key(text_key(farm@)) ==> r@ == self.workers().map()[text_key(
                farm@,
            )].entries().map_values(|e: (Seq<char>, Person)| e.1),
            !self.workers().map().contains_key(text_key(farm@)) ==> r@ == Seq::<Person>::empty(),
    {
        self.workers_under(&get_id(&farm))
    }

    /// The workers of the farm that the worker `id` belongs to, which must be
    /// known.
    pub fn get_workers_from_workerid(&self, id: String) -> (r: Vec<Person>)
        requires
            self.wf(),
            self.farm_of_worker(id@) is Some,
        ensures
            ({
                let key = text_key(self.farm_of_worker(id@).unwrap().name@);
                &&& self.workers().map().contains_key(key) ==> r@ == self.workers().map()[key].entries().map_values(
                    |e: (Seq<char>, Person)| e.1,
                )
                &&& !self.workers().map().contains_key(key) ==> r@ == Seq::<Person>::empty()
            }),
    {
        match self.get_farm_from_workerid(id) {
            Some(farm) => self.get_workers(farm.name),
            None => Vec::new(),
        }
    }

    /// Removes the worker `id` from its farm. Only the farmer may; the service
    /// refuses anyone else, and that is left out here.
    pub fn delete_worker(&mut self, id: String, caller: String)
        requires
            old(self).wf(),
            old(self).farm_of_worker(id@) is Some ==> caller@ == old(self).farm_of_worker(id@).unwrap().farmer@,
        ensures
            final(self).wf(),
            old(self).farm_of_worker(id@) is None ==> *final(self) == *old(self),
            ({
                let farm = old(self).farm_of_worker(id@).unwrap();
                let key = text_key(farm.name@);
                old(self).farm_of_worker(id@) is Some ==> {
                    &&& old(self).workers().map().contains_key(key) ==> {
                        &&& final(self).workers().map().contains_key(key)
                        &&& final(self).workers().map()[key].map() == old(self).workers().map()[key].map().remove(id@)
                        &&& final(self).workers().map().remove(key) == old(self).workers().map().remove(key)
                    }
                    &&& !old(self).workers().map().contains_key(key) ==> final(self).workers() == old(self).workers()
                    &&& final(self).farms() == old(self).farms()
                    &&& final(self).farm_lookup() == old(self).farm_lookup()
                    &&& final(self).data() == old(self).data()
                    &&& final(self).data_index() == old(self).data_index()
                }
            }),
    {
        match self.get_farm_from_workerid(id.clone()) {
            Some(farm) => {
                let farm_id = get_id(&farm.name);
                match self.workers.remove(&farm_id) {
                    Some(mut worker_map) => {
                        let ghost before = self.workers().map();
                        worker_map.remove(&id);
                        self.workers.insert(farm_id, worker_map);
                        assert(self.workers().map().remove(farm_id@) =~= before.remove(farm_id@));
                    },
                    None => {},
                }
            },
            None => {},
        }
    }

    /// Deletes the farm of the given name and its workers. Only the farmer
    /// may; the service refuses anyone else, and that is left out here.
    pub fn delete_farm(&mut self, name: String, caller: String)
        requires
            old(self).wf(),
            old(self).farms().map().contains_key(text_key(name@)) ==> caller@ == old(
                self,
            ).farms().map()[text_key(name@)].farmer@,
        ensures
            final(self).wf(),
            !old(self).farms().map().contains_key(text_key(name@)) ==> *final(self) == *old(self),
            ({
                let key = text_key(name@);
                old(self).farms().map().contains_key(key) ==> {
                    &&& final(self).farms().map() == old(self).farms().map().remove(key)
                    &&& final(self).workers().map() == old(self).workers().map().remove(key)
                    &&& final(self).farm_lookup() == old(self).farm_lookup()
                    &&& final(self).data() == old(self).data()
                    &&& final(self).data_index() == old(self).data_index()
                }
            }),
    {
        let farm_id = get_id(&name);
        match self.get_farm_from_id(&farm_id) {
            Some(_) => {},
            None => return ,
        }
        self.farms.remove(&farm_id);
        self.workers.remove(&farm_id);
    }

    /// Lists `id` at `ts` in the timestamp index of the farm under `farm_id`,
    /// replacing what was listed there.
    fn index_data(&mut self, id: [u8; 32], ts: i64, farm_id: [u8; 32])
        requires
            old(self).maps_ordered(),
        ensures
            final(self).maps_ordered(),
            final(self).data_index().map().contains_key(farm_id@),
            final(self).data_index().map()[farm_id@].map() == nested(
                old(self).data_index().map(),
                farm_id@,
            ).insert(ts, id),
            final(self).data_index().map().remove(farm_id@) == old(self).data_index().map().remove(
                farm_id@,
            ),
            final(self).farms() == old(self).farms(),
            final(self).workers() == old(self).workers(),
            final(self).farm_lookup() == old(self).farm_lookup(),
            final(self).data() == old(self).data(),
    {
        let ghost before = self.data_index().map();
        match self.data_index.remove(&farm_id) {
            Some(mut ts_map) => {
                ts_map.insert(ts, id);
                self.data_index.insert(farm_id, ts_map);
            },
            None => {
                let mut ts_map: SortedMap<i64, [u8; 32]> = SortedMap::new();
                ts_map.insert(ts, id);
                self.data_index.insert(farm_id, ts_map);
            },
        }
        assert(self.data_index().map().remove(farm_id@) =~= before.remove(farm_id@));
    }

    /// Files a data record for a farm. Only a worker of that farm may, and
    /// only under an id not yet taken; the service refuses other requests,
    /// and they are left out here.
    pub fn add_data(&mut self, id: String, ts: i64, farm: String, metadata: String, caller: String)
        requires
            old(self).wf(),
            old(self).farm_of_worker(caller@) is Some,
            old(self).farm_of_worker(caller@).unwrap().name@ == farm@,
            !old(self).data().map().contains_key(text_key(id@)),
        ensures
            final(self).wf(),
            ({
                let dk = text_key(id@);
                let fk = text_key(farm@);
                &&& final(self).data().map().contains_key(dk)
                &&& final(self).data().map()[dk].id == id
                &&& final(self).data().map()[dk].farm_id@ == fk
                &&& final(self).data().map()[dk].ts == ts
                &&& final(self).data().map()[dk].metadata == metadata
                &&& final(self).data().map().remove(dk) == old(self).data().map()
                &&& final(self).data_index().map().contains_key(fk)
                &&& final(self).data_index().map()[fk].map().contains_key(ts)
                &&& final(self).data_index().map()[fk].map()[ts]@ == dk
                &&& final(self).data_index().map()[fk].map().remove(ts) == nested(
                    old(self).data_index().map(),
                    fk,
                ).remove(ts)
                &&& final(self).data_index().map().remove(fk) == old(self).data_index().map().remove(fk)
                &&& final(self).farms() == old(self).farms()
                &&& final(self).workers() == old(self).workers()
                &&& final(self).farm_lookup() == old(self).farm_lookup()
            }),
    {
        let data_id = get_id(&id);
        let farm_id = get_id(&farm);
        let record = Data { id, farm_id, ts, metadata };
        let ghost before = self.data().map();
        self.data.insert(data_id, record);
        assert(self.data().map().remove(data_id@) =~= before);
        self.index_data(data_id, ts, farm_id);
        proof {
            let m = nested(self.data_index().map(), farm_id@);
            assert(m.remove(ts) =~= nested(old(self).data_index().map(), farm_id@).remove(ts));
            assert forall|f: Seq<u8>, t: i64|
                self.data_index().map().contains_key(f) && self.data_index().map()[f].map().contains_key(
                    t,
                ) implies {
                let d = self.data_index().map()[f].map()[t]@;
                &&& self.data().map().contains_key(d)
                &&& self.data().map()[d].farm_id@ == f
                &&& self.data().map()[d].ts == t
            } by {
                if f == farm_id@ && t == ts {
                } else if f == farm_id@ {
                    assert(m.remove(ts).contains_key(t));
                    assert(old(self).data_index().map()[f].map()[t] == self.data_index().map()[f].map()[t]);
                } else {
                    let after = self.data_index().map();
                    let before = old(self).data_index().map();
                    assert(after.remove(farm_id@).contains_key(f));
                    assert(after.remove(farm_id@)[f] == after[f]);
                    assert(before.remove(farm_id@)[f] == before[f]);
                    assert(before.contains_key(f));
                }
            }
        }
    }

    /// Whether a data record with the given id exists.
    pub fn data_exists(&self, id: &String) -> (r: bool)
        requires
            self.wf(),
        ensures
            r == self.data().map().contains_key(text_key(id@)),
    {
        self.data.contains_key(&get_id(id))
    }

    /// Whether the farm of the given name has a timestamp index.
    pub fn farm_has_data(&self, farm: &String) -> (r: bool)
        requires
            self.wf(),
        ensures
            r == self.data_index().map().contains_key(text_key(farm@)),
    {
        self.data_index.contains_key(&get_id(farm))
    }

    /// The data record with the given id, which must exist.
    pub fn get_data_by_id(&self, id: String) -> (r: Data)
        requires
            self.wf(),
            self.data().map().contains_key(text_key(id@)),
        ensures
            r == self.data().map()[text_key(id@)],
    {
        match self.data.get(&get_id(&id)) {
            Some(d) => d.duplicate(),
            None => Data { id: String::new(), farm_id: [0u8; 32], ts: 0, metadata: String::new() },
        }
    }

    /// The records filed for the farm of the given name with timestamps from
    /// `ts_start` to `ts_end` inclusive, in timestamp order. A reversed range
    /// over a farm that has records is refused, and left out here.
    pub fn get_data_by_farm(&self, farm: String, ts_start: i64, ts_end: i64) -> (r: Vec<Data>)
        requires
            self.wf(),
            self.data_index().map().contains_key(text_key(farm@)) ==> ts_start <= ts_end,
        ensures
            ({
                let fk = text_key(farm@);
                &&& !self.data_index().map().contains_key(fk) ==> r@ == Seq::<Data>::empty()
                &&& self.data_index().map().contains_key(fk) ==> r@ == records_in_range(
                    self.data_index().map()[fk].entries(),
                    self.data().map(),
                    ts_start,
                    ts_end,
                )
            }),
    {
        let farm_id = get_id(&farm);
        let mut r: Vec<Data> = Vec::new();
        match self.data_index.get(&farm_id) {
            None => {
                assert(r@ =~= Seq::<Data>::empty());
            },
            Some(ts_map) => {
                let ghost entries = ts_map.entries();
                let n = ts_map.len();
                assert(entries.take(0) =~= Seq::<(i64, [u8; 32])>::empty());
                for i in 0..n
                    invariant
                        self.wf(),
                        self.data_index().map().contains_key(farm_id@),
                        *ts_map == self.data_index().map()[farm_id@],
                        entries == ts_map.entries(),
                        n == entries.len(),
                        r@ == records_in_range(entries.take(i as int), self.data().map(), ts_start, ts_end),
                {
                    assert(entries.take(i + 1).drop_last() =~= entries.take(i as int));
                    let t = *ts_map.key_at(i);
                    if ts_start <= t && t <= ts_end {
                        let data_id = ts_map.value_at(i);
                        proof {
                            crate::sorted_map::lemma_entry_in_map::<i64, [u8; 32]>(entries, i as int);
                            assert(self.data_index().map()[farm_id@].map()[t] == entries[i as int].1);
                        }
                        match self.data.get(data_id) {
                            Some(d) => r.push(d.duplicate()),
                            None => {},
                        }
                    }
                }
                assert(entries.take(n as int) =~= entries);
            },
        }
        r
    }
}

} // verus!
