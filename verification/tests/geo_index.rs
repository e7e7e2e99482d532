use farminfo::geo_index::{index, GeoError, GeoIndex};

fn s(x: &str) -> String {
    x.to_string()
}

#[test]
fn index_lists_id_under_cells_of_precision_two_to_six() {
    let mut geo = GeoIndex::new();
    index(&mut geo, s("u4pruydqqvj"), s("farm-1"));
    for p in 2..=6 {
        assert_eq!(geo.get(s(&"u4pruydqqvj"[..p])), vec![s("farm-1")], "precision {}", p);
    }
    assert!(geo.get(s("u")).is_empty());
    assert!(geo.get(s("u4pruydqqvj")).is_empty());
}

#[test]
fn ids_accumulate_in_order() {
    let mut geo = GeoIndex::new();
    index(&mut geo, s("u4pru"), s("a"));
    index(&mut geo, s("u4prv"), s("b"));
    assert_eq!(geo.get(s("u4pr")), vec![s("a"), s("b")]);
    assert_eq!(geo.get(s("u4pru")), vec![s("a")]);
}

#[test]
fn search_refuses_invalid_geohashes() {
    let geo = GeoIndex::new();
    for bad in ["", "u4pa", "U4PR", "u4pruydqqvj00"].iter() {
        assert!(matches!(geo.try_find_candidates(&s(bad), 5), Err(GeoError::InvalidGeohash)), "{}", bad);
    }
}

#[test]
fn lookup_gives_first_id_of_the_location_cell() {
    let mut geo = GeoIndex::new();
    index(&mut geo, s("u4pru"), s("a"));
    index(&mut geo, s("u4pru"), s("b"));
    assert_eq!(geo.lookup(&s("b")), s("a"));
    assert_eq!(geo.lookup(&s("a")), s("a"));
}

#[test]
fn find_candidates_in_cell_and_neighbours() {
    let mut geo = GeoIndex::new();
    let north = geohash::neighbor("u4pru", geohash::Direction::N).unwrap();
    index(&mut geo, s("u4pru"), s("a"));
    index(&mut geo, north.clone(), s("b"));
    let found = geo.try_find_candidates(&s("u4pru"), 5).unwrap();
    assert_eq!(found.cell_ids, vec![s("a")]);
    assert_eq!(found.neighbours, vec![(s("b"), s("b"))]);
    let coarse = geo.try_find_candidates(&s("u4pru"), 2).unwrap();
    assert_eq!(coarse.cell_ids, vec![s("a"), s("b")]);
    let again = geo.try_find_candidates(&s("u4pru"), 5).unwrap();
    assert_eq!(again.cell_ids, found.cell_ids);
    assert_eq!(again.neighbours, found.neighbours);
}

#[test]
fn search_refuses_neighbour_without_location() {
    let mut geo = GeoIndex::new();
    let east = geohash::neighbor("u4pru", geohash::Direction::E).unwrap();
    geo.add_to_cells(vec![east], &s("orphan"));
    assert!(matches!(geo.try_find_candidates(&s("u4pru"), 5), Err(GeoError::UnknownLocation)));
}

#[test]
fn indexed_id_is_found_around_after_later_indexing() {
    let mut geo = GeoIndex::new();
    index(&mut geo, s("u4pruydqqvj"), s("first"));
    index(&mut geo, s("u4pruyd"), s("second"));
    index(&mut geo, s("u4prv"), s("third"));
    for p in 2..=6 {
        let found = geo.try_find_candidates(&s("u4pruydqqvj"), p).unwrap();
        assert!(found.cell_ids.contains(&s("first")), "precision {}", p);
    }
}

#[test]
fn index_lists_id_under_prefixes_of_a_seven_character_geohash() {
    let mut geo = GeoIndex::new();
    index(&mut geo, s("u4pruyd"), s("farm-7"));
    for cell in ["u4", "u4p", "u4pr", "u4pru", "u4pruy"].iter() {
        assert_eq!(geo.get(s(cell)), vec![s("farm-7")], "{}", cell);
    }
    assert!(geo.get(s("u4pruyd")).is_empty());
}

#[test]
fn short_geohash_is_listed_under_its_prefixes_and_cells_inside_it() {
    let mut geo = GeoIndex::new();
    index(&mut geo, s("u4p"), s("wide"));
    assert_eq!(geo.get(s("u4")), vec![s("wide")]);
    assert_eq!(geo.get(s("u4p")), vec![s("wide")]);
    let (centre, _, _) = geohash::decode("u4p").unwrap();
    for p in 4..=6 {
        let cell = geohash::encode(centre, p).unwrap();
        assert!(cell.starts_with("u4p"), "{}", cell);
        assert_eq!(geo.get(cell.clone()), vec![s("wide")], "{}", cell);
    }
}

#[test]
fn indexed_id_stays_listed_through_many_later_indexings() {
    let mut geo = GeoIndex::new();
    index(&mut geo, s("u4pruydqqvj"), s("first"));
    let others = ["u4pruyd", "u4prv", "ezs42", "u4pruydqqvj", "9q60y", "u4p", "u4pruy"];
    for round in 0..3 {
        for (i, g) in others.iter().enumerate() {
            index(&mut geo, s(g), format!("other-{}-{}", round, i));
        }
    }
    for p in 2..=6 {
        assert!(geo.get(s(&"u4pruydqqvj"[..p])).contains(&s("first")), "precision {}", p);
        let found = geo.try_find_candidates(&s("u4pruydqqvj"), p).unwrap();
        assert!(found.cell_ids.contains(&s("first")), "precision {}", p);
    }
}
