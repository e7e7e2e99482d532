use farminfo::farm_store::{FarmStore, Role};
use farminfo::hashing::get_id;

fn s(x: &str) -> String {
    x.to_string()
}

fn store_with_farm() -> FarmStore {
    let mut store = FarmStore::new();
    store.add_farm(s("Finca"), s("{}"), s("alice"));
    store
}

#[test]
fn added_farm_is_found() {
    let store = store_with_farm();
    let farm = store.get_farm(s("Finca")).unwrap();
    assert_eq!(farm.name, "Finca");
    assert_eq!(farm.metadata, "{}");
    assert_eq!(farm.farmer, "alice");
    assert!(store.get_farm(s("Other")).is_none());
    assert_eq!(store.get_farmer_id(&s("Finca")), "alice");
    let by_id = store.get_farm_from_id(&get_id(&s("Finca"))).unwrap();
    assert_eq!(by_id.name, "Finca");
}

#[test]
fn registered_name_is_seen_before_adding() {
    let store = store_with_farm();
    assert!(store.get_farm(s("Finca")).is_some());
    assert!(store.get_farm(s("Other")).is_none());
}

#[test]
fn new_store_is_empty() {
    let store = FarmStore::new();
    assert!(store.get_farm(s("Nope")).is_none());
    assert!(store.get_farms().is_empty());
    assert!(store.get_farm_from_workerid(s("w")).is_none());
}

#[test]
fn farms_are_listed_in_key_order() {
    let mut store = FarmStore::new();
    let names = ["Finca", "Hacienda", "Granja", "Rancho", "Quinta"];
    for n in names.iter() {
        store.add_farm(s(n), s(""), s("f"));
    }
    let farms = store.get_farms();
    assert_eq!(farms.len(), names.len());
    let keys: Vec<[u8; 32]> = farms.iter().map(|f| get_id(&f.name)).collect();
    let mut sorted = keys.clone();
    sorted.sort();
    assert_eq!(keys, sorted);
}

#[test]
fn worker_added_by_farmer_is_approved() {
    let mut store = store_with_farm();
    store
        .update_worker(s("Finca"), s("Bob"), s("w1"), Role::Harvester, s("cid"), s("alice"));
    let worker = store.get_worker(s("Finca"), s("w1")).unwrap();
    assert_eq!(worker.name, "Bob");
    assert_eq!(worker.id, "w1");
    assert_eq!(worker.role, Role::Harvester);
    assert_eq!(worker.image_cid, "cid");
    assert!(worker.approved);
    assert_eq!(store.get_farm_from_workerid(s("w1")).unwrap().name, "Finca");
}

#[test]
fn worker_added_by_other_is_not_approved() {
    let mut store = store_with_farm();
    store
        .update_worker(s("Finca"), s("Bob"), s("w1"), Role::Scout, s("cid"), s("bob"));
    assert!(!store.get_worker(s("Finca"), s("w1")).unwrap().approved);
    store
        .update_worker(s("Finca"), s("Bobby"), s("w1"), Role::Scout, s("cid2"), s("alice"));
    let worker = store.get_worker(s("Finca"), s("w1")).unwrap();
    assert_eq!(worker.name, "Bobby");
    assert_eq!(worker.image_cid, "cid2");
    assert!(worker.approved);
}

#[test]
fn farmer_may_give_the_farmer_role() {
    let mut store = store_with_farm();
    store.update_worker(s("Finca"), s("A"), s("alice-w"), Role::Farmer, s(""), s("alice"));
    let w = store.get_worker(s("Finca"), s("alice-w")).unwrap();
    assert_eq!(w.role, Role::Farmer);
    assert!(w.approved);
}

#[test]
fn workers_are_listed_by_id() {
    let mut store = store_with_farm();
    for id in ["w3", "w1", "w2", "a"].iter() {
        store
            .update_worker(s("Finca"), s("n"), s(id), Role::Harvester, s(""), s("alice"));
    }
    let ids: Vec<String> = store.get_workers(s("Finca")).into_iter().map(|p| p.id).collect();
    assert_eq!(ids, vec![s("a"), s("w1"), s("w2"), s("w3")]);
    let via_worker: Vec<String> = store
        .get_workers_from_workerid(s("w2"))
        .into_iter()
        .map(|p| p.id)
        .collect();
    assert_eq!(via_worker, ids);
    assert!(store.get_workers(s("Nope")).is_empty());
    assert!(store.get_farm_from_workerid(s("ghost")).is_none());
}

#[test]
fn delete_worker_by_farmer() {
    let mut store = store_with_farm();
    store.update_worker(s("Finca"), s("B"), s("w1"), Role::Scout, s(""), s("alice"));
    assert_eq!(store.get_farm_from_workerid(s("w1")).unwrap().farmer, "alice");
    store.delete_worker(s("w1"), s("alice"));
    assert!(store.get_worker(s("Finca"), s("w1")).is_none());
    store.delete_worker(s("unknown"), s("anyone"));
    assert!(store.get_farm(s("Finca")).is_some());
}

#[test]
fn delete_farm_by_farmer() {
    let mut store = store_with_farm();
    store.update_worker(s("Finca"), s("B"), s("w1"), Role::Scout, s(""), s("alice"));
    store.delete_farm(s("Finca"), s("alice"));
    assert!(store.get_farm(s("Finca")).is_none());
    assert!(store.get_workers(s("Finca")).is_empty());
    assert!(store.get_farm_from_workerid(s("w1")).is_none());
    store.delete_farm(s("Finca"), s("anyone"));
    assert!(store.get_farms().is_empty());
}

fn store_with_worker() -> FarmStore {
    let mut store = store_with_farm();
    store
        .update_worker(s("Finca"), s("B"), s("w1"), Role::Scout, s(""), s("alice"));
    store
}

#[test]
fn filed_data_is_found() {
    let mut store = store_with_worker();
    store.add_data(s("d1"), 100, s("Finca"), s("m1"), s("w1"));
    let d = store.get_data_by_id(s("d1"));
    assert_eq!(d.id, "d1");
    assert_eq!(d.ts, 100);
    assert_eq!(d.metadata, "m1");
    assert_eq!(d.farm_id, get_id(&s("Finca")));
}

#[test]
fn conditions_for_filing_data() {
    let mut store = store_with_worker();
    assert!(store.get_farm_from_workerid(s("stranger")).is_none());
    assert_eq!(store.get_farm_from_workerid(s("w1")).unwrap().name, "Finca");
    store.add_data(s("d1"), 1, s("Finca"), s(""), s("w1"));
    assert_eq!(store.get_data_by_farm(s("Finca"), 0, 5).len(), 1);
    assert_eq!(store.get_data_by_id(s("d1")).ts, 1);
}

#[test]
fn data_by_farm_in_range_and_order() {
    let mut store = store_with_worker();
    store.add_data(s("d3"), 30, s("Finca"), s(""), s("w1"));
    store.add_data(s("d1"), -10, s("Finca"), s(""), s("w1"));
    store.add_data(s("d2"), 20, s("Finca"), s(""), s("w1"));
    store.add_data(s("d4"), 40, s("Finca"), s(""), s("w1"));
    let got: Vec<String> = store
        .get_data_by_farm(s("Finca"), -10, 30)
        .into_iter()
        .map(|d| d.id)
        .collect();
    assert_eq!(got, vec![s("d1"), s("d2"), s("d3")]);
    let one = store.get_data_by_farm(s("Finca"), 20, 20);
    assert_eq!(one.len(), 1);
    assert_eq!(one[0].id, "d2");
    assert!(store.get_data_by_farm(s("Finca"), 41, 50).is_empty());
    assert!(store.get_data_by_farm(s("Other"), 30, 20).is_empty());
}

#[test]
fn same_timestamp_lists_latest_record() {
    let mut store = store_with_worker();
    store.add_data(s("d1"), 5, s("Finca"), s(""), s("w1"));
    store.add_data(s("d2"), 5, s("Finca"), s(""), s("w1"));
    let got = store.get_data_by_farm(s("Finca"), 0, 10);
    assert_eq!(got.len(), 1);
    assert_eq!(got[0].id, "d2");
    assert_eq!(store.get_data_by_id(s("d1")).id, "d1");
}

#[test]
fn queries_that_guard_requests() {
    let mut store = store_with_worker();
    assert!(!store.data_exists(&s("d1")));
    assert!(!store.farm_has_data(&s("Finca")));
    store.add_data(s("d1"), 3, s("Finca"), s(""), s("w1"));
    assert!(store.data_exists(&s("d1")));
    assert!(store.farm_has_data(&s("Finca")));
    assert!(!store.farm_has_data(&s("Other")));
}
