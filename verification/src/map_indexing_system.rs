//! The occupancy reindex: once per step the blocked array is rebuilt
//! from terrain plus the blocking occupants, and the per-tile occupant
//! lists are cleared and refilled from every live, positioned entity.

use vstd::prelude::*;
use crate::ai_system::pos_of;
use crate::map::{GameMap, TileType};
use crate::world::World;

verus! {

/// The occupancy reindex.
pub struct MapIndexingSystem {}

impl MapIndexingSystem {
    /// Rebuilds blocking and the occupant index: afterwards a cell is
    /// blocked exactly when its terrain is Wall or some live blocking
    /// occupant stands on it, and each cell's occupant list holds
    /// exactly the live positioned entities standing on it.
    pub fn run(w: &World, map: &mut GameMap)
        requires
            w.inv(),
            old(map).inv(),
            crate::ai_system::positions_in_bounds(*w, *old(map)),
        ensures
            final(map).inv(),
            final(map).tiles == old(map).tiles,
            final(map).rooms == old(map).rooms,
            final(map).width == old(map).width,
            final(map).height == old(map).height,
            final(map).revealed_tiles == old(map).revealed_tiles,
            final(map).visible_tiles == old(map).visible_tiles,
            forall|i: int|
                0 <= i < final(map).blocked@.len() ==> (#[trigger] final(map).blocked@[i]) == (
                final(map).tiles@[i] == TileType::Wall || exists|k: int|
                    0 <= k < w.spec_len() && w.alive@[k] && w.blocks_tile@[k] is Some
                        && w.positions@[k] is Some && #[trigger] final(map).idx_of(
                        pos_of(*w, k).x as int,
                        pos_of(*w, k).y as int,
                    ) == i),
            forall|i: int, en: usize|
                0 <= i < final(map).tile_content@.len() ==> ((#[trigger] final(map).tile_content@[i]@.contains(en)) <==> ((en as int) < w.spec_len()
                    && w.alive@[en as int] && w.positions@[en as int] is Some && final(map).idx_of(
                    pos_of(*w, en as int).x as int,
                    pos_of(*w, en as int).y as int,
                ) == i)),
    {
        map.populate_blocked();
        map.clear_content_index();
        let n = w.len();
        let mut e: usize = 0;
        while e < n
            invariant
                w.inv(),
                map.inv(),
                n == w.spec_len(),
                e <= n,
                crate::ai_system::positions_in_bounds(*w, *map),
                map.tiles == old(map).tiles,
                map.rooms == old(map).rooms,
                map.width == old(map).width,
                map.height == old(map).height,
                map.revealed_tiles == old(map).revealed_tiles,
                map.visible_tiles == old(map).visible_tiles,
                forall|i: int|
                    0 <= i < map.blocked@.len() ==> (#[trigger] map.blocked@[i]) == (map.tiles@[i]
                        == TileType::Wall || exists|k: int|
                        0 <= k < e && w.alive@[k] && w.blocks_tile@[k] is Some
                            && w.positions@[k] is Some && #[trigger] map.idx_of(
                            pos_of(*w, k).x as int,
                            pos_of(*w, k).y as int,
                        ) == i),
                forall|i: int, en: usize|
                    0 <= i < map.tile_content@.len() ==> ((#[trigger] map.tile_content@[i]@.contains(
                        en,
                    )) <==> ((en as int) < e && w.alive@[en as int] && w.positions@[en as int] is Some
                        && map.idx_of(pos_of(*w, en as int).x as int, pos_of(*w, en as int).y as int)
                        == i)),
            decreases n - e,
        {
            let ghost mpre = *map;
            if w.alive[e] && w.positions[e].is_some() {
                let p = match w.positions[e] {
                    Some(p) => p,
                    None => crate::components::Position { x: 0, y: 0 },
                };
                let idx = map.xy_idx(p.x, p.y);
                if w.blocks_tile[e].is_some() {
                    map.blocked[idx] = true;
                }
                map.tile_content[idx].push(e);
                proof {
                    assert(p == pos_of(*w, e as int));
                    assert(idx as int == map.idx_of(pos_of(*w, e as int).x as int, pos_of(*w, e as int).y as int));
                    assert forall|i: int| 0 <= i < map.blocked@.len() implies (
                    #[trigger] map.blocked@[i]) == (map.tiles@[i] == TileType::Wall || exists|k: int|
                        0 <= k < e + 1 && w.alive@[k] && w.blocks_tile@[k] is Some
                            && w.positions@[k] is Some && #[trigger] map.idx_of(
                            pos_of(*w, k).x as int,
                            pos_of(*w, k).y as int,
                        ) == i) by {
                        assert(map.blocked@[i] == (mpre.blocked@[i] || (i == idx
                            && w.blocks_tile@[e as int] is Some)));
                        assert forall|k: int|
                            0 <= k < e + 1 && w.alive@[k] && w.blocks_tile@[k] is Some
                                && w.positions@[k] is Some && #[trigger] map.idx_of(
                                pos_of(*w, k).x as int,
                                pos_of(*w, k).y as int,
                            ) == i implies map.blocked@[i] by {
                            if k < e {
                                assert(mpre.idx_of(pos_of(*w, k).x as int, pos_of(*w, k).y as int)
                                    == i);
                                assert(mpre.blocked@[i]);
                            }
                        }
                        if map.blocked@[i] && map.tiles@[i] != TileType::Wall {
                            if mpre.blocked@[i] {
                                let k0 = choose|k: int|
                                    0 <= k < e && w.alive@[k] && w.blocks_tile@[k] is Some
                                        && w.positions@[k] is Some && #[trigger] mpre.idx_of(
                                        pos_of(*w, k).x as int,
                                        pos_of(*w, k).y as int,
                                    ) == i;
                                assert(map.idx_of(pos_of(*w, k0).x as int, pos_of(*w, k0).y as int)
                                    == i);
                            } else {
                                assert(map.idx_of(
                                    pos_of(*w, e as int).x as int,
                                    pos_of(*w, e as int).y as int,
                                ) == i);
                            }
                        }
                    }
                    assert forall|i: int, en: usize| 0 <= i < map.tile_content@.len() implies ((
                    #[trigger] map.tile_content@[i]@.contains(en)) <==> ((en as int) < e + 1
                        && w.alive@[en as int] && w.positions@[en as int] is Some && map.idx_of(
                        pos_of(*w, en as int).x as int,
                        pos_of(*w, en as int).y as int,
                    ) == i)) by {
                        if i == idx {
                            assert(map.tile_content@[i]@ == mpre.tile_content@[i]@.push(e));
                            if map.tile_content@[i]@.contains(en) {
                                let j = choose|j: int|
                                    0 <= j < map.tile_content@[i]@.len() && map.tile_content@[i]@[j]
                                        == en;
                                if j < mpre.tile_content@[i]@.len() {
                                    assert(mpre.tile_content@[i]@.contains(en));
                                }
                            }
                            if (en as int) < e + 1 && w.alive@[en as int] && w.positions@[en as int] is Some
                                && map.idx_of(
                                pos_of(*w, en as int).x as int,
                                pos_of(*w, en as int).y as int,
                            ) == i {
                                if (en as int) < e {
                                    assert(mpre.tile_content@[i]@.contains(en));
                                    let j = choose|j: int|
                                        0 <= j < mpre.tile_content@[i]@.len()
                                            && mpre.tile_content@[i]@[j] == en;
                                    assert(map.tile_content@[i]@[j] == en);
                                } else {
                                    assert(map.tile_content@[i]@[map.tile_content@[i]@.len() - 1]
                                        == e);
                                }
                            }
                        } else {
                            assert(map.tile_content@[i] == mpre.tile_content@[i]);
                            if map.tile_content@[i]@.contains(en) {
                                assert(mpre.tile_content@[i]@.contains(en));
                            }
                            if mpre.tile_content@[i]@.contains(en) {
                                assert(map.tile_content@[i]@.contains(en));
                            }
                        }
                    }
                }
            } else {
                proof {
                    assert forall|i: int| 0 <= i < map.blocked@.len() implies (
                    #[trigger] map.blocked@[i]) == (map.tiles@[i] == TileType::Wall || exists|k: int|
                        0 <= k < e + 1 && w.alive@[k] && w.blocks_tile@[k] is Some
                            && w.positions@[k] is Some && #[trigger] map.idx_of(
                            pos_of(*w, k).x as int,
                            pos_of(*w, k).y as int,
                        ) == i) by {}
                }
            }
            e = e + 1;
        }
    }
}

} // verus!
