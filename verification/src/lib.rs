//! Farm registry, geohash index and identifier decoding for a coffee-farm
//! information service, with their contracts proved by Verus.

pub mod hashing;
pub mod sorted_map;
pub mod farm_store;
pub mod id_tools;
pub mod geo_index;
pub mod laws;
