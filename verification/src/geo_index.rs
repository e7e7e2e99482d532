//! A geohash index: ids are listed under the cells, of precisions two to
//! six, that contain their location, and each id remembers the key of its
//! full geohash. Queries return the ids of a cell and of its eight
//! neighbours.
//!
//! The geohash arithmetic itself (decoding a hash to the centre of its cell,
//! encoding a point, finding neighbouring cells) is the `geohash` crate's;
//! its floating-point work stays inside the calls below.

use vstd::prelude::*;
use crate::hashing::{get_id, text_key};
use crate::laws::law_indexed_id_is_found_around;
use crate::sorted_map::SortedMap;

verus! {

/// A compass direction, as the `geohash` crate names them.
#[derive(Clone, Copy, Debug, PartialEq, Eq)]
pub enum Direction {
    N,
    NE,
    E,
    SE,
    S,
    SW,
    W,
    NW,
}

/// Why a geohash request was refused.
#[derive(Clone, Copy, Debug, PartialEq, Eq)]
pub enum GeoError {
    /// The text is not a geohash the `geohash` crate decodes.
    InvalidGeohash,
    /// An id found in a neighbouring cell has no recorded location whose
    /// cell lists an id.
    UnknownLocation,
}

/// A character of the geohash alphabet `0123456789bcdefghjkmnpqrstuvwxyz`.
pub open spec fn is_geohash_char(c: char) -> bool {
    ||| '0' <= c <= '9'
    ||| 'b' <= c <= 'h'
    ||| c == 'j'
    ||| c == 'k'
    ||| c == 'm'
    ||| c == 'n'
    ||| 'p' <= c <= 'z'
}

/// A non-empty geohash of at most twelve characters, all from the alphabet:
/// the texts that `geohash::decode` accepts.
pub open spec fn is_geohash(s: Seq<char>) -> bool {
    &&& 1 <= s.len() <= 12
    &&& forall|i: int| 0 <= i < s.len() ==> is_geohash_char(#[trigger] s[i])
}

/// The cell of the given precision that contains the centre of the cell of
/// `hash`, as `geohash::encode` of `geohash::decode` computes it.
pub uninterp spec fn geohash_cell(hash: Seq<char>, precision: usize) -> Seq<char>;

/// The neighbour of the cell of `hash` in a direction, as
/// `geohash::neighbor` computes it.
pub uninterp spec fn geohash_neighbor(hash: Seq<char>, direction: Direction) -> Option<Seq<char>>;

/// Calls `geohash::decode`, then `geohash::encode` on the centre of the
/// cell that decoding gives (the centre is a floating-point coordinate, so
/// it stays inside this call).
/// Trusted: decoding succeeds exactly on texts of at most twelve bytes, all
/// from the geohash alphabet; the centre of a decoded cell lies within the
/// coordinate ranges, so with a precision between one and twelve encoding
/// succeeds, giving the named cell: `precision` alphabet characters. The
/// centre lies half a cell of `hash` away from every edge of that cell, so
/// at a precision no longer than `hash` the cell is `hash`'s own prefix. The
/// empty text is left out: decoding it shifts a 64-bit integer by 64.
#[verifier::external_body]
fn cell_of(hash: &str, precision: usize) -> (r: Option<String>)
    requires
        hash@.len() > 0,
        1 <= precision <= 12,
    ensures
        r is Some <==> is_geohash(hash@),
        r matches Some(c) ==> c@ == geohash_cell(hash@, precision) && c@.len() == precision && is_geohash(c@),
        r matches Some(c) ==> (precision <= hash@.len() ==> c@ == hash@.take(precision as int)),
{
    match geohash::decode(hash) {
        Ok((centre, _, _)) => geohash::encode(centre, precision).ok(),
        Err(_) => None,
    }
}

/// Calls `geohash::neighbor`.
/// Trusted: the result is the named neighbour; it fails on a text that does
/// not decode, and a neighbour has as many alphabet characters as the cell.
/// The empty text is left out, as for decoding.
#[verifier::external_body]
fn neighbor_of(hash: &str, direction: Direction) -> (r: Option<String>)
    requires
        hash@.len() > 0,
    ensures
        r matches Some(n) ==> geohash_neighbor(hash@, direction) == Some(n@),
        r is None ==> geohash_neighbor(hash@, direction) is None,
        !is_geohash(hash@) ==> r is None,
        r matches Some(n) ==> n@.len() == hash@.len() && is_geohash(n@),
{
    let d = match direction {
        Direction::N => geohash::Direction::N,
        Direction::NE => geohash::Direction::NE,
        Direction::E => geohash::Direction::E,
        Direction::SE => geohash::Direction::SE,
        Direction::S => geohash::Direction::S,
        Direction::SW => geohash::Direction::SW,
        Direction::W => geohash::Direction::W,
        Direction::NW => geohash::Direction::NW,
    };
    geohash::neighbor(hash, d).ok()
}

/// The directions searched around a cell, in search order.
pub open spec fn search_directions() -> Seq<Direction> {
    seq![
        Direction::N,
        Direction::NE,
        Direction::E,
        Direction::SE,
        Direction::S,
        Direction::SW,
        Direction::W,
        Direction::NW,
    ]
}

/// `ids` appended to the lists under each key of `keys`, in turn.
pub open spec fn append_to_cells(m: Map<Seq<u8>, Seq<String>>, keys: Seq<Seq<u8>>, id: String) -> Map<
    Seq<u8>,
    Seq<String>,
>
    decreases keys.len(),
{
    if keys.len() == 0 {
        m
    } else {
        let before = append_to_cells(m, keys.drop_last(), id);
        let k = keys.last();
        before.insert(
            k,
            if before.contains_key(k) {
                before[k].push(id)
            } else {
                seq![id]
            },
        )
    }
}

/// `after`'s cells are `before`'s with one id appended under some keys, in
/// turn: what `add_to_cells`, and so `index`, does to the cells.
pub open spec fn cells_appended(before: Map<Seq<u8>, Seq<String>>, after: Map<Seq<u8>, Seq<String>>) -> bool {
    exists|keys: Seq<Seq<u8>>, id: String| #[trigger] append_to_cells(before, keys, id) == after
}

fn direction_at(j: usize) -> (d: Direction)
    requires
        j < 8,
    ensures
        d == search_directions()[j as int],
{
    match j {
        0 => Direction::N,
        1 => Direction::NE,
        2 => Direction::E,
        3 => Direction::SE,
        4 => Direction::S,
        5 => Direction::SW,
        6 => Direction::W,
        _ => Direction::NW,
    }
}

/// The index's state.
pub struct GeoIndex {
    cells: SortedMap<[u8; 32], Vec<String>>,
    locations: SortedMap<String, [u8; 32]>,
}

/// The ids a query around a cell returns: those of the cell itself, and
/// those of the neighbouring cells, each with the location recorded for it.
pub struct Candidates {
    pub cell_ids: Vec<String>,
    pub neighbours: Vec<(String, String)>,
}

impl GeoIndex {
    /// For each cell key, the ids listed under it, in the order they came.
    pub closed spec fn cells(self) -> Map<Seq<u8>, Seq<String>> {
        self.cells.map().map_values(|v: Vec<String>| v@)
    }

    /// For each id, the key of the geohash it was indexed with.
    pub closed spec fn locations(self) -> Map<Seq<char>, Seq<u8>> {
        self.locations.map().map_values(|k: [u8; 32]| k@)
    }

    pub closed spec fn maps_ordered(self) -> bool {
        &&& self.cells.wf()
        &&& self.locations.wf()
    }

    pub open spec fn wf(self) -> bool {
        &&& self.maps_ordered()
        &&& self.cells_non_empty()
    }

    /// No cell is listed with no ids.
    pub open spec fn cells_non_empty(self) -> bool {
        forall|k: Seq<u8>| #[trigger] self.cells().contains_key(k) ==> self.cells()[k].len() > 0
    }

    /// The ids listed under the cell `hash`.
    pub open spec fn ids_in(self, hash: Seq<char>) -> Seq<String> {
        if self.cells().contains_key(text_key(hash)) {
            self.cells()[text_key(hash)]
        } else {
            Seq::empty()
        }
    }

    /// The first id listed under the cell of the geohash recorded for `id`.
    pub open spec fn location_of(self, id: Seq<char>) -> Option<String> {
        if !self.locations().contains_key(id) {
            None
        } else if !self.cells().contains_key(self.locations()[id]) {
            None
        } else if self.cells()[self.locations()[id]].len() == 0 {
            None
        } else {
            Some(self.cells()[self.locations()[id]][0])
        }
    }

    /// The ids of the neighbours of `cell` in the given directions, the
    /// neighbours taken in turn.
    pub open spec fn neighbour_ids(self, cell: Seq<char>, directions: Seq<Direction>) -> Seq<String>
        decreases directions.len(),
    {
        if directions.len() == 0 {
            Seq::empty()
        } else {
            self.neighbour_ids(cell, directions.drop_last()) + match geohash_neighbor(
                cell,
                directions.last(),
            ) {
                Some(n) => self.ids_in(n),
                None => Seq::empty(),
            }
        }
    }

    /// Every id in the neighbours of `cell` has a location.
    pub open spec fn neighbours_located(self, cell: Seq<char>) -> bool {
        let ids = self.neighbour_ids(cell, search_directions());
        forall|i: int| 0 <= i < ids.len() ==> self.location_of((#[trigger] ids[i])@) is Some
    }

    /// The ids in the neighbours of `cell`, each with its location.
    pub open spec fn search_neighbours(self, cell: Seq<char>) -> Seq<(String, String)> {
        self.neighbour_ids(cell, search_directions()).map_values(
            |id: String| (id, self.location_of(id@).unwrap()),
        )
    }

    pub fn new() -> (g: GeoIndex)
        ensures
            g.wf(),
            g.cells() == Map::<Seq<u8>, Seq<String>>::empty(),
            g.locations() == Map::<Seq<char>, Seq<u8>>::empty(),
    {
        let g = GeoIndex { cells: SortedMap::new(), locations: SortedMap::new() };
        assert(g.cells() =~= Map::<Seq<u8>, Seq<String>>::empty());
        assert(g.locations() =~= Map::<Seq<char>, Seq<u8>>::empty());
        g
    }

    /// Lists `id` under the key of each geohash, in turn.
    pub fn add_to_cells(&mut self, geohashes: Vec<String>, id: &String)
        requires
            old(self).wf(),
        ensures
            final(self).wf(),
            final(self).cells() == append_to_cells(
                old(self).cells(),
                geohashes@.map_values(|h: String| text_key(h@)),
                *id,
            ),
            final(self).locations() == old(self).locations(),
    {
        let ghost keys = geohashes@.map_values(|h: String| text_key(h@));
        let n = geohashes.len();
        for i in 0..n
            invariant
                self.wf(),
                n == geohashes@.len(),
                keys == geohashes@.map_values(|h: String| text_key(h@)),
                self.cells() == append_to_cells(old(self).cells(), keys.take(i as int), *id),
                self.locations() == old(self).locations(),
        {
            let key = get_id(&geohashes[i]);
            let ghost before = self.cells();
            assert(keys.take(i + 1).drop_last() =~= keys.take(i as int));
            assert(keys.take(i + 1).last() == key@);
            match self.cells.remove(&key) {
                Some(mut ids) => {
                    ids.push(id.clone());
                    self.cells.insert(key, ids);
                },
                None => {
                    let mut ids: Vec<String> = Vec::new();
                    ids.push(id.clone());
                    self.cells.insert(key, ids);
                },
            }
            assert(self.cells() =~= append_to_cells(old(self).cells(), keys.take(i + 1), *id));
        }
        assert(keys.take(n as int) =~= keys);
    }

    /// Records the key of `geohash` as the location of `id`.
    pub fn record_location(&mut self, geohash: &String, id: &String)
        requires
            old(self).wf(),
        ensures
            final(self).wf(),
            final(self).locations() == old(self).locations().insert(id@, text_key(geohash@)),
            final(self).cells() == old(self).cells(),
    {
        let key = get_id(geohash);
        self.locations.insert(id.clone(), key);
        assert(self.cells() == old(self).cells());
        assert(self.locations() =~= old(self).locations().insert(id@, text_key(geohash@)));
    }

    /// The ids listed under the cell `geohash`, in the order they came.
    pub fn get(&self, geohash: String) -> (r: Vec<String>)
        requires
            self.wf(),
        ensures
            r@ == self.ids_in(geohash@),
    {
        let mut r: Vec<String> = Vec::new();
        match self.cells.get(&get_id(&geohash)) {
            Some(ids) => {
                let n = ids.len();
                for i in 0..n
                    invariant
                        n == ids@.len(),
                        r@ == ids@.take(i as int),
                {
                    r.push(ids[i].clone());
                    assert(r@ =~= ids@.take(i + 1));
                }
                assert(ids@.take(n as int) =~= ids@);
            },
            None => {
                assert(r@ =~= Seq::<String>::empty());
            },
        }
        r
    }

    fn location(&self, id: &String) -> (r: Option<String>)
        requires
            self.wf(),
        ensures
            r == self.location_of(id@),
    {
        match self.locations.get(id) {
            None => None,
            Some(key) => match self.cells.get(key) {
                None => None,
                Some(ids) => {
                    if ids.len() == 0 {
                        None
                    } else {
                        Some(ids[0].clone())
                    }
                },
            },
        }
    }

    /// The first id listed under the cell of the geohash recorded for `id`;
    /// an id without one is refused, and left out here.
    pub fn lookup(&self, id: &String) -> (r: String)
        requires
            self.wf(),
            self.location_of(id@) is Some,
        ensures
            r == self.location_of(id@).unwrap(),
            r == self.cells()[self.locations()[id@]][0],
    {
        match self.location(id) {
            Some(l) => l,
            None => String::new(),
        }
    }
}

/// Indexes `id` at `geohash`: lists it under the cells of precisions two to
/// six around the centre of the geohash's cell, and records the geohash as
/// its location. A text that is not a geohash is refused, and left out here.
pub fn index(geo: &mut GeoIndex, geohash: String, id: String)
    requires
        old(geo).wf(),
        is_geohash(geohash@),
    ensures
        final(geo).wf(),
        final(geo).cells() == append_to_cells(
            old(geo).cells(),
            seq![
                text_key(geohash_cell(geohash@, 2)),
                text_key(geohash_cell(geohash@, 3)),
                text_key(geohash_cell(geohash@, 4)),
                text_key(geohash_cell(geohash@, 5)),
                text_key(geohash_cell(geohash@, 6)),
            ],
            id,
        ),
        final(geo).locations() == old(geo).locations().insert(id@, text_key(geohash@)),
        forall|p: int|
            2 <= p <= 6 && p <= geohash@.len() ==> #[trigger] geohash_cell(geohash@, p as usize)
                == geohash@.take(p),
        forall|p: int|
            2 <= p <= 6 && p <= geohash@.len() ==> final(geo).ids_in(#[trigger] geohash@.take(p)).contains(
                id,
            ),
{
    let mut to_index: Vec<String> = Vec::new();
    for precision in 2..7usize
        invariant
            is_geohash(geohash@),
            to_index@.len() == precision - 2,
            forall|i: int|
                0 <= i < to_index@.len() ==> (#[trigger] to_index@[i])@ == geohash_cell(
                    geohash@,
                    (i + 2) as usize,
                ),
            forall|p: int|
                2 <= p < precision && p <= geohash@.len() ==> #[trigger] geohash_cell(
                    geohash@,
                    p as usize,
                ) == geohash@.take(p),
    {
        match cell_of(geohash.as_str(), precision) {
            Some(cell) => to_index.push(cell),
            None => {},
        }
    }
    let ghost keys = to_index@.map_values(|h: String| text_key(h@));
    assert(keys =~= seq![
        text_key(geohash_cell(geohash@, 2)),
        text_key(geohash_cell(geohash@, 3)),
        text_key(geohash_cell(geohash@, 4)),
        text_key(geohash_cell(geohash@, 5)),
        text_key(geohash_cell(geohash@, 6)),
    ]);
    let ghost before = *geo;
    geo.add_to_cells(to_index, &id);
    geo.record_location(&geohash, &id);
    proof {
        assert forall|p: int| 2 <= p <= 6 && p <= geohash@.len() implies geo.ids_in(
            #[trigger] geohash@.take(p),
        ).contains(id) by {
            law_indexed_id_is_found_around(before, *geo, geohash@, id, p as usize);
        }
    }
}

impl GeoIndex {
    /// The neighbour ids for a prefix of the directions come first among
    /// those for all of them.
    pub proof fn lemma_neighbour_ids_prefix(self, cell: Seq<char>, directions: Seq<Direction>, j: int)
        requires
            0 <= j <= directions.len(),
        ensures
            self.neighbour_ids(cell, directions.take(j)).len() <= self.neighbour_ids(cell, directions).len(),
            forall|i: int|
                0 <= i < self.neighbour_ids(cell, directions.take(j)).len() ==> #[trigger] self.neighbour_ids(
                    cell,
                    directions.take(j),
                )[i] == self.neighbour_ids(cell, directions)[i],
        decreases directions.len(),
    {
        if j == directions.len() {
            assert(directions.take(j) =~= directions);
        } else {
            let shorter = directions.drop_last();
            assert(shorter.take(j) =~= directions.take(j));
            self.lemma_neighbour_ids_prefix(cell, shorter, j);
        }
    }

    /// Taking one more direction appends the ids of the neighbour there.
    pub proof fn lemma_neighbour_ids_step(self, cell: Seq<char>, directions: Seq<Direction>, j: int)
        requires
            0 <= j < directions.len(),
        ensures
            self.neighbour_ids(cell, directions.take(j + 1)) == self.neighbour_ids(cell, directions.take(j))
                + match geohash_neighbor(cell, directions[j]) {
                Some(n) => self.ids_in(n),
                None => Seq::<String>::empty(),
            },
    {
        assert(directions.take(j + 1).drop_last() =~= directions.take(j));
        assert(directions.take(j + 1).last() == directions[j]);
    }

    /// The ids around the cell, of the given precision, that contains the
    /// centre of `geohash`'s cell: those of the cell itself, then those of
    /// its neighbours in the search directions, each with its location. A
    /// text that is not a geohash is refused, and so is a search that meets
    /// a neighbour's id without a location.
    pub fn try_find_candidates(&self, geohash: &String, precision: usize) -> (r: Result<Candidates, GeoError>)
        requires
            self.wf(),
            1 <= precision <= 12,
        ensures
            !is_geohash(geohash@) ==> r == Err::<Candidates, GeoError>(GeoError::InvalidGeohash),
            is_geohash(geohash@) && !self.neighbours_located(geohash_cell(geohash@, precision)) ==> r
                == Err::<Candidates, GeoError>(GeoError::UnknownLocation),
            is_geohash(geohash@) && self.neighbours_located(geohash_cell(geohash@, precision)) ==> (r matches Ok(
                found,
            ) && found.cell_ids@ == self.ids_in(geohash_cell(geohash@, precision)) && found.neighbours@
                == self.search_neighbours(geohash_cell(geohash@, precision))),
            r matches Ok(found) ==> forall|i: int|
                0 <= i < found.neighbours@.len() ==> {
                    let id = (#[trigger] found.neighbours@[i]).0;
                    &&& self.locations().contains_key(id@)
                    &&& self.cells().contains_key(self.locations()[id@])
                    &&& self.cells()[self.locations()[id@]].len() > 0
                    &&& found.neighbours@[i].1 == self.cells()[self.locations()[id@]][0]
                },
    {
        if geohash.as_str().is_empty() {
            return Err(GeoError::InvalidGeohash);
        }
        let cell = match cell_of(geohash.as_str(), precision) {
            Some(cell) => cell,
            None => return Err(GeoError::InvalidGeohash),
        };
        let cell_ids = self.get(cell.clone());
        let ghost dirs = search_directions();
        assert(dirs.len() == 8);
        let ghost all = self.neighbour_ids(cell@, dirs);
        let mut neighbours: Vec<(String, String)> = Vec::new();
        for j in 0..8usize
            invariant
                self.wf(),
                dirs == search_directions(),
                dirs.len() == 8,
                all == self.neighbour_ids(cell@, dirs),
                is_geohash(geohash@),
                cell@ == geohash_cell(geohash@, precision),
                1 <= precision,
                cell@.len() == precision,
                neighbours@.len() == self.neighbour_ids(cell@, dirs.take(j as int)).len(),
                forall|i: int|
                    0 <= i < neighbours@.len() ==> {
                        &&& (#[trigger] neighbours@[i]).0 == self.neighbour_ids(cell@, dirs.take(j as int))[i]
                        &&& self.location_of(neighbours@[i].0@) == Some(neighbours@[i].1)
                    },
        {
            let ghost done = self.neighbour_ids(cell@, dirs.take(j as int));
            let direction = direction_at(j);
            proof {
                self.lemma_neighbour_ids_step(cell@, dirs, j as int);
            }
            match neighbor_of(cell.as_str(), direction) {
                Some(n) => {
                    let ids = self.get(n);
                    let m = ids.len();
                    for k in 0..m
                        invariant
                            self.wf(),
                            m == ids@.len(),
                            j < 8,
                            dirs.len() == 8,
                            all == self.neighbour_ids(cell@, dirs),
                            done == self.neighbour_ids(cell@, dirs.take(j as int)),
                            ids@ == self.ids_in(n@),
                            geohash_neighbor(cell@, direction) == Some(n@),
                            is_geohash(geohash@),
                            cell@ == geohash_cell(geohash@, precision),
                            all == self.neighbour_ids(geohash_cell(geohash@, precision), search_directions()),
                            self.neighbour_ids(cell@, dirs.take(j + 1)) == done + ids@,
                            neighbours@.len() == done.len() + k,
                            forall|i: int|
                                0 <= i < done.len() ==> (#[trigger] neighbours@[i]).0 == done[i],
                            forall|i: int|
                                0 <= i < k ==> (#[trigger] neighbours@[done.len() + i]).0 == ids@[i],
                            forall|i: int|
                                0 <= i < neighbours@.len() ==> self.location_of(
                                    (#[trigger] neighbours@[i]).0@,
                                ) == Some(neighbours@[i].1),
                    {
                        match self.location(&ids[k]) {
                            Some(location) => {
                                neighbours.push((ids[k].clone(), location));
                            },
                            None => {
                                proof {
                                    self.lemma_neighbour_ids_prefix(cell@, dirs, j + 1);
                                    let next = self.neighbour_ids(cell@, dirs.take(j + 1));
                                    assert(next[done.len() + k] == ids@[k as int]);
                                    assert(all[done.len() + k] == ids@[k as int]);
                                    assert(!(self.location_of(all[done.len() + k]@) is Some));
                                }
                                return Err(GeoError::UnknownLocation);
                            },
                        }
                    }
                    proof {
                        let next = self.neighbour_ids(cell@, dirs.take(j + 1));
                        assert forall|i: int| 0 <= i < neighbours@.len() implies (
                        #[trigger] neighbours@[i]).0 == next[i] by {
                            if i >= done.len() {
                                assert(neighbours@[done.len() + (i - done.len())] == neighbours@[i]);
                            }
                        }
                    }
                },
                None => {
                    proof {
                        let next = self.neighbour_ids(cell@, dirs.take(j + 1));
                        assert(next =~= done);
                    }
                },
            }
        }
        assert(dirs.take(8) =~= dirs);
        assert forall|i: int| 0 <= i < all.len() implies self.location_of((#[trigger] all[i])@) is Some by {
            assert(neighbours@[i].0 == all[i]);
        }
        assert(neighbours@ =~= self.search_neighbours(cell@));
        Ok(Candidates { cell_ids, neighbours })
    }
}

} // verus!
