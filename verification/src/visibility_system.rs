//! The visibility engine: recomputes every dirty viewshed from its
//! owner's position and range against the map's opacity, and projects
//! the player's viewshed onto the map's shared visible array, marking
//! newly seen tiles revealed. A revealed tile never goes back.

use vstd::prelude::*;
use crate::components::Viewshed;
use crate::fov::{field_of_view, visible_from};
use crate::map::GameMap;
use crate::world::World;

verus! {

/// The entity's viewshed is recomputed this step: it is alive,
/// positioned, sighted, and flagged dirty.
pub open spec fn recomputes(w: World, e: int) -> bool {
    &&& 0 <= e < w.spec_len()
    &&& w.alive@[e]
    &&& w.positions@[e] is Some
    &&& match w.viewsheds@[e] {
        Some(v) => v.dirty,
        None => false,
    }
}

/// The sight range an entity's viewshed carries.
pub open spec fn range_of(w: World, e: int) -> int {
    match w.viewsheds@[e] {
        Some(v) => v.range as int,
        None => 0,
    }
}

/// Every viewshed carries a nonnegative sight range.
pub open spec fn ranges_nonneg(w: World) -> bool {
    forall|e: int|
        0 <= e < w.spec_len() ==> match #[trigger] w.viewsheds@[e] {
            Some(v) => v.range >= 0,
            None => true,
        }
}

/// A freshly computed viewshed: clean, same range, and its tile set
/// is exactly the visibility predicate at the owner's position.
pub open spec fn viewshed_fresh(vs: Option<Viewshed>, w: World, m: GameMap, e: int) -> bool {
    match vs {
        Some(v) => {
            &&& v.range as int == range_of(w, e)
            &&& !v.dirty
            &&& forall|x: i32, y: i32| #[trigger]
                v.visible_tiles@.contains((x, y)) <==> visible_from(
                    m,
                    crate::ai_system::pos_of(w, e).x as int,
                    crate::ai_system::pos_of(w, e).y as int,
                    range_of(w, e),
                    x as int,
                    y as int,
                )
        },
        None => false,
    }
}

/// The visibility engine.
pub struct VisibilitySystem {}

impl VisibilitySystem {
    /// Recomputes every dirty viewshed; for the player-controlled
    /// viewer the map's visible array is reset to exactly its visible
    /// set and each visible tile is marked revealed. Revealed tiles
    /// only ever accumulate.
    pub fn run(w: &mut World, map: &mut GameMap, player_entity: usize)
        requires
            old(w).inv(),
            old(map).inv(),
            crate::ai_system::positions_in_bounds(*old(w), *old(map)),
            ranges_nonneg(*old(w)),
        ensures
            final(w).inv(),
            final(map).inv(),
            final(w).spec_len() == old(w).spec_len(),
            final(map).tiles == old(map).tiles,
            final(map).rooms == old(map).rooms,
            final(map).width == old(map).width,
            final(map).height == old(map).height,
            final(map).blocked == old(map).blocked,
            final(map).tile_content == old(map).tile_content,
            final(w).alive == old(w).alive,
            final(w).positions == old(w).positions,
            final(w).renderables == old(w).renderables,
            final(w).left_movers == old(w).left_movers,
            final(w).players == old(w).players,
            final(w).enemies == old(w).enemies,
            final(w).names == old(w).names,
            final(w).combat_stats == old(w).combat_stats,
            final(w).blocks_tile == old(w).blocks_tile,
            final(w).suffer_damage == old(w).suffer_damage,
            final(w).wants_to_melee == old(w).wants_to_melee,
            forall|i: int|
                0 <= i < old(map).revealed_tiles@.len() && old(map).revealed_tiles@[i]
                    ==> final(map).revealed_tiles@[i],
            forall|k: int|
                0 <= k < old(w).spec_len() && !recomputes(*old(w), k) ==> final(w).viewsheds@[k]
                    == (#[trigger] old(w).viewsheds@[k]),
            forall|k: int|
                0 <= k < old(w).spec_len() && #[trigger] recomputes(*old(w), k) ==> viewshed_fresh(
                    final(w).viewsheds@[k],
                    *old(w),
                    *old(map),
                    k,
                ),
            recomputes(*old(w), player_entity as int) ==> {
                &&& forall|i: int|
                    0 <= i < final(map).visible_tiles@.len() ==> (#[trigger] final(map).visible_tiles@[i]) == visible_from(
                        *old(map),
                        crate::ai_system::pos_of(*old(w), player_entity as int).x as int,
                        crate::ai_system::pos_of(*old(w), player_entity as int).y as int,
                        range_of(*old(w), player_entity as int),
                        i % (old(map).width as int),
                        i / (old(map).width as int),
                    )
                &&& forall|i: int|
                    0 <= i < final(map).revealed_tiles@.len() ==> (#[trigger] final(map).revealed_tiles@[i]) == (old(map).revealed_tiles@[i] || visible_from(
                        *old(map),
                        crate::ai_system::pos_of(*old(w), player_entity as int).x as int,
                        crate::ai_system::pos_of(*old(w), player_entity as int).y as int,
                        range_of(*old(w), player_entity as int),
                        i % (old(map).width as int),
                        i / (old(map).width as int),
                    ))
            },
            !recomputes(*old(w), player_entity as int) ==> final(map).visible_tiles == old(map).visible_tiles && final(map).revealed_tiles == old(map).revealed_tiles,
    {
        let n = w.len();
        let mut player_was_dirty = false;
        let mut e: usize = 0;
        while e < n
            invariant
                w.inv(),
                old(w).inv(),
                map.inv(),
                player_was_dirty == ((player_entity as int) < e && recomputes(
                    *old(w),
                    player_entity as int,
                )),
                n == w.spec_len(),
                n == old(w).spec_len(),
                e <= n,
                crate::ai_system::positions_in_bounds(*old(w), *old(map)),
                ranges_nonneg(*old(w)),
                *map == *old(map),
                w.alive == old(w).alive,
                w.positions == old(w).positions,
                w.renderables == old(w).renderables,
                w.left_movers == old(w).left_movers,
                w.players == old(w).players,
                w.enemies == old(w).enemies,
                w.names == old(w).names,
                w.combat_stats == old(w).combat_stats,
                w.blocks_tile == old(w).blocks_tile,
                w.suffer_damage == old(w).suffer_damage,
                w.wants_to_melee == old(w).wants_to_melee,
                forall|k: int| e <= k < n ==> w.viewsheds@[k] == (#[trigger] old(w).viewsheds@[k]),
                forall|k: int|
                    0 <= k < e && !recomputes(*old(w), k) ==> w.viewsheds@[k] == (#[trigger] old(w).viewsheds@[k]),
                forall|k: int|
                    0 <= k < e && #[trigger] recomputes(*old(w), k) ==> viewshed_fresh(
                        w.viewsheds@[k],
                        *old(w),
                        *old(map),
                        k,
                    ),
            decreases n - e,
        {
            let runs = w.alive[e] && w.positions[e].is_some() && (match &w.viewsheds[e] {
                Some(v) => v.dirty,
                None => false,
            });
            proof {
                assert(w.viewsheds@[e as int] == old(w).viewsheds@[e as int]);
                assert(runs == recomputes(*old(w), e as int));
            }
            if runs {
                if e == player_entity {
                    player_was_dirty = true;
                }
                let p = match w.positions[e] {
                    Some(p) => p,
                    None => crate::components::Position { x: 0, y: 0 },
                };
                let range = match &w.viewsheds[e] {
                    Some(v) => v.range,
                    None => 0,
                };
                proof {
                    assert(p == crate::ai_system::pos_of(*old(w), e as int));
                    assert(range as int == range_of(*old(w), e as int));
                }
                let vtiles = field_of_view(map, p.x, p.y, range);
                w.viewsheds[e] = Some(Viewshed { visible_tiles: vtiles, range, dirty: false });
            }
            e = e + 1;
        }
        let project = player_was_dirty;
        proof {
            assert(project == recomputes(*old(w), player_entity as int));
        }
        if project {
            let ghost ppos = crate::ai_system::pos_of(*old(w), player_entity as int);
            let ghost prange = range_of(*old(w), player_entity as int);
            proof {
                assert(viewshed_fresh(
                    w.viewsheds@[player_entity as int],
                    *old(w),
                    *old(map),
                    player_entity as int,
                ));
            }
            let wmap = map.width;
            let len = map.visible_tiles.len();
            let mut i: usize = 0;
            while i < len
                invariant
                    w.inv(),
                    map.inv(),
                    old(map).inv(),
                    player_entity < w.spec_len(),
                    viewshed_fresh(
                        w.viewsheds@[player_entity as int],
                        *old(w),
                        *old(map),
                        player_entity as int,
                    ),
                    ppos == crate::ai_system::pos_of(*old(w), player_entity as int),
                    prange == range_of(*old(w), player_entity as int),
                    map.tiles == old(map).tiles,
                    map.rooms == old(map).rooms,
                    map.width == old(map).width,
                    map.height == old(map).height,
                    map.blocked == old(map).blocked,
                    map.tile_content == old(map).tile_content,
                    wmap == map.width,
                    len == map.visible_tiles@.len(),
                    len == map.revealed_tiles@.len(),
                    i <= len,
                    forall|j: int|
                        0 <= j < i ==> (#[trigger] map.visible_tiles@[j]) == visible_from(
                            *old(map),
                            ppos.x as int,
                            ppos.y as int,
                            prange,
                            j % (old(map).width as int),
                            j / (old(map).width as int),
                        ),
                    forall|j: int|
                        0 <= j < i ==> (#[trigger] map.revealed_tiles@[j]) == (old(map).revealed_tiles@[j] || visible_from(
                            *old(map),
                            ppos.x as int,
                            ppos.y as int,
                            prange,
                            j % (old(map).width as int),
                            j / (old(map).width as int),
                        )),
                    forall|j: int|
                        i <= j < len ==> (#[trigger] map.visible_tiles@[j]) == old(map).visible_tiles@[j],
                    forall|j: int|
                        i <= j < len ==> (#[trigger] map.revealed_tiles@[j]) == old(map).revealed_tiles@[j],
                decreases len - i,
            {
                proof {
                    crate::map::lemma_idx_coords(map.width as int, map.height as int, i as int);
                }
                let x = (i as i32) % wmap;
                let y = (i as i32) / wmap;
                let b = match &w.viewsheds[player_entity] {
                    Some(v) => crate::ai_system::contains_tile(&v.visible_tiles, (x, y)),
                    None => false,
                };
                proof {
                    assert(b == visible_from(
                        *old(map),
                        ppos.x as int,
                        ppos.y as int,
                        prange,
                        i as int % (old(map).width as int),
                        i as int / (old(map).width as int),
                    ));
                }
                map.visible_tiles[i] = b;
                if b {
                    map.revealed_tiles[i] = true;
                }
                i = i + 1;
            }
        }
    }
}

} // verus!
