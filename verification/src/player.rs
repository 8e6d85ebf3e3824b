//! Player-controlled movement and the leftward-drift demo system.

use vstd::prelude::*;
use crate::components::Position;
use crate::map::GameMap;
use crate::world::World;

verus! {

/// The entity moves with the player's input: alive, tagged as the
/// player, positioned and sighted.
pub open spec fn player_actor(w: World, e: int) -> bool {
    &&& 0 <= e < w.spec_len()
    &&& w.alive@[e]
    &&& w.players@[e] is Some
    &&& w.positions@[e] is Some
    &&& w.viewsheds@[e] is Some
}

/// Moves every player-controlled entity one step by the given delta,
/// when the destination lies inside the map and is not blocked; a
/// successful move dirties the mover's viewshed.
pub fn try_move_player(delta_x: i32, delta_y: i32, w: &mut World, map: &GameMap)
    requires
        old(w).inv(),
        map.inv(),
        -1 <= delta_x <= 1,
        -1 <= delta_y <= 1,
        crate::ai_system::positions_in_bounds(*old(w), *map),
    ensures
        final(w).inv(),
        final(w).spec_len() == old(w).spec_len(),
        final(w).alive == old(w).alive,
        final(w).renderables == old(w).renderables,
        final(w).left_movers == old(w).left_movers,
        final(w).players == old(w).players,
        final(w).enemies == old(w).enemies,
        final(w).names == old(w).names,
        final(w).combat_stats == old(w).combat_stats,
        final(w).blocks_tile == old(w).blocks_tile,
        final(w).suffer_damage == old(w).suffer_damage,
        final(w).wants_to_melee == old(w).wants_to_melee,
        crate::ai_system::positions_in_bounds(*final(w), *map),
        forall|k: int|
            0 <= k < old(w).spec_len() && !player_actor(*old(w), k) ==> final(w).positions@[k] == (
            #[trigger] old(w).positions@[k]) && final(w).viewsheds@[k] == old(w).viewsheds@[k],
        forall|k: int|
            #![trigger player_actor(*old(w), k)]
            player_actor(*old(w), k) ==> {
                let p0 = crate::ai_system::pos_of(*old(w), k);
                let nx = p0.x as int + delta_x;
                let ny = p0.y as int + delta_y;
                if map.in_bounds(nx, ny) && !map.blocked@[map.idx_of(nx, ny)] {
                    final(w).positions@[k] == Some(Position { x: nx as i32, y: ny as i32 })
                        && (match final(w).viewsheds@[k] {
                        Some(v) => v.dirty && (match old(w).viewsheds@[k] {
                            Some(v0) => v.visible_tiles == v0.visible_tiles && v.range == v0.range,
                            None => false,
                        }),
                        None => false,
                    })
                } else {
                    final(w).positions@[k] == old(w).positions@[k] && final(w).viewsheds@[k] == old(
                        w,
                    ).viewsheds@[k]
                }
            },
{
    let n = w.len();
    let mut e: usize = 0;
    while e < n
        invariant
            w.inv(),
            old(w).inv(),
            map.inv(),
            n == w.spec_len(),
            n == old(w).spec_len(),
            e <= n,
            -1 <= delta_x <= 1,
            -1 <= delta_y <= 1,
            crate::ai_system::positions_in_bounds(*old(w), *map),
            crate::ai_system::positions_in_bounds(*w, *map),
            w.alive == old(w).alive,
            w.renderables == old(w).renderables,
            w.left_movers == old(w).left_movers,
            w.players == old(w).players,
            w.enemies == old(w).enemies,
            w.names == old(w).names,
            w.combat_stats == old(w).combat_stats,
            w.blocks_tile == old(w).blocks_tile,
            w.suffer_damage == old(w).suffer_damage,
            w.wants_to_melee == old(w).wants_to_melee,
            forall|k: int| e <= k < n ==> w.positions@[k] == (#[trigger] old(w).positions@[k]),
            forall|k: int| e <= k < n ==> w.viewsheds@[k] == (#[trigger] old(w).viewsheds@[k]),
            forall|k: int|
                0 <= k < e && !player_actor(*old(w), k) ==> w.positions@[k] == (#[trigger] old(
                    w,
                ).positions@[k]) && w.viewsheds@[k] == old(w).viewsheds@[k],
            forall|k: int|
                #![trigger player_actor(*old(w), k)]
                0 <= k < e && player_actor(*old(w), k) ==> {
                    let p0 = crate::ai_system::pos_of(*old(w), k);
                    let nx = p0.x as int + delta_x;
                    let ny = p0.y as int + delta_y;
                    if map.in_bounds(nx, ny) && !map.blocked@[map.idx_of(nx, ny)] {
                        w.positions@[k] == Some(Position { x: nx as i32, y: ny as i32 }) && (
                        match w.viewsheds@[k] {
                            Some(v) => v.dirty && (match old(w).viewsheds@[k] {
                                Some(v0) => v.visible_tiles == v0.visible_tiles && v.range
                                    == v0.range,
                                None => false,
                            }),
                            None => false,
                        })
                    } else {
                        w.positions@[k] == old(w).positions@[k] && w.viewsheds@[k] == old(
                            w,
                        ).viewsheds@[k]
                    }
                },
        decreases n - e,
    {
        let ghost wpre = *w;
        let acts = w.alive[e] && w.players[e].is_some() && w.positions[e].is_some()
            && w.viewsheds[e].is_some();
        proof {
            assert(w.positions@[e as int] == old(w).positions@[e as int]);
            assert(w.viewsheds@[e as int] == old(w).viewsheds@[e as int]);
            assert(acts == player_actor(*old(w), e as int));
        }
        if acts {
            let p = match w.positions[e] {
                Some(p) => p,
                None => Position { x: 0, y: 0 },
            };
            let nx = p.x + delta_x;
            let ny = p.y + delta_y;
            let dest_ok = if nx >= 0 && nx < map.width && ny >= 0 && ny < map.height {
                let idx = map.xy_idx(nx, ny);
                !map.blocked[idx]
            } else {
                false
            };
            if dest_ok {
                w.positions[e] = Some(Position { x: nx, y: ny });
                match &mut w.viewsheds[e] {
                    Some(vs) => {
                        vs.dirty = true;
                    },
                    None => {},
                }
            }
        }
        proof {
            assert forall|k: int| e + 1 <= k < n implies w.positions@[k] == (#[trigger] old(
                w,
            ).positions@[k]) && w.viewsheds@[k] == old(w).viewsheds@[k] by {
                assert(w.positions@[k] == wpre.positions@[k]);
                assert(w.viewsheds@[k] == wpre.viewsheds@[k]);
                assert(wpre.positions@[k] == old(w).positions@[k]);
                assert(wpre.viewsheds@[k] == old(w).viewsheds@[k]);
            }
            assert forall|k: int| 0 <= k < e + 1 && !player_actor(*old(w), k) implies w.positions@[k]
                == (#[trigger] old(w).positions@[k]) && w.viewsheds@[k] == old(w).viewsheds@[k] by {
                assert(w.positions@[k] == wpre.positions@[k]);
                assert(w.viewsheds@[k] == wpre.viewsheds@[k]);
                if k < e {
                    assert(wpre.positions@[k] == old(w).positions@[k]);
                    assert(wpre.viewsheds@[k] == old(w).viewsheds@[k]);
                } else {
                    assert(wpre.positions@[k] == old(w).positions@[k]);
                    assert(wpre.viewsheds@[k] == old(w).viewsheds@[k]);
                }
            }
        }
        e = e + 1;
    }
}

impl crate::components::LeftWalker {
    /// Drifts every leftward-moving entity one column left, wrapping
    /// to the rightmost interior column at the edge.
    pub fn run(w: &mut World)
        requires
            old(w).inv(),
        ensures
            final(w).inv(),
            final(w).spec_len() == old(w).spec_len(),
            final(w).alive == old(w).alive,
            final(w).renderables == old(w).renderables,
            final(w).viewsheds == old(w).viewsheds,
            final(w).left_movers == old(w).left_movers,
            final(w).players == old(w).players,
            final(w).enemies == old(w).enemies,
            final(w).names == old(w).names,
            final(w).combat_stats == old(w).combat_stats,
            final(w).blocks_tile == old(w).blocks_tile,
            final(w).suffer_damage == old(w).suffer_damage,
            final(w).wants_to_melee == old(w).wants_to_melee,
            forall|k: int|
                0 <= k < old(w).spec_len() && !(old(w).alive@[k] && old(w).left_movers@[k] is Some
                    && old(w).positions@[k] is Some) ==> final(w).positions@[k] == (#[trigger] old(
                    w,
                ).positions@[k]),
            forall|k: int|
                0 <= k < old(w).spec_len() && old(w).alive@[k] && old(w).left_movers@[k] is Some
                    && (#[trigger] old(w).positions@[k]) is Some ==> final(w).positions@[k] == Some(
                    Position {
                        x: (if crate::ai_system::pos_of(*old(w), k).x < 1 {
                            79
                        } else {
                            (crate::ai_system::pos_of(*old(w), k).x - 1) as i32
                        }),
                        y: crate::ai_system::pos_of(*old(w), k).y,
                    },
                ),
    {
        let n = w.len();
        let mut e: usize = 0;
        while e < n
            invariant
                w.inv(),
                old(w).inv(),
                n == w.spec_len(),
                n == old(w).spec_len(),
                e <= n,
                w.alive == old(w).alive,
                w.renderables == old(w).renderables,
                w.viewsheds == old(w).viewsheds,
                w.left_movers == old(w).left_movers,
                w.players == old(w).players,
                w.enemies == old(w).enemies,
                w.names == old(w).names,
                w.combat_stats == old(w).combat_stats,
                w.blocks_tile == old(w).blocks_tile,
                w.suffer_damage == old(w).suffer_damage,
                w.wants_to_melee == old(w).wants_to_melee,
                forall|k: int|
                    e <= k < n ==> w.positions@[k] == (#[trigger] old(w).positions@[k]),
                forall|k: int|
                    0 <= k < e && !(old(w).alive@[k] && old(w).left_movers@[k] is Some && old(
                        w,
                    ).positions@[k] is Some) ==> w.positions@[k] == (#[trigger] old(
                        w,
                    ).positions@[k]),
                forall|k: int|
                    0 <= k < e && old(w).alive@[k] && old(w).left_movers@[k] is Some && (
                    #[trigger] old(w).positions@[k]) is Some ==> w.positions@[k] == Some(
                        Position {
                            x: (if crate::ai_system::pos_of(*old(w), k).x < 1 {
                                79
                            } else {
                                (crate::ai_system::pos_of(*old(w), k).x - 1) as i32
                            }),
                            y: crate::ai_system::pos_of(*old(w), k).y,
                        },
                    ),
            decreases n - e,
        {
            let ghost wpre = *w;
            if w.alive[e] && w.left_movers[e].is_some() && w.positions[e].is_some() {
                let p = match w.positions[e] {
                    Some(p) => p,
                    None => Position { x: 0, y: 0 },
                };
                let nx = if p.x < 1 {
                    79
                } else {
                    p.x - 1
                };
                w.positions[e] = Some(Position { x: nx, y: p.y });
            }
            proof {
                assert forall|k: int| e + 1 <= k < n implies w.positions@[k] == (#[trigger] old(
                    w,
                ).positions@[k]) by {
                    assert(w.positions@[k] == wpre.positions@[k]);
                    assert(wpre.positions@[k] == old(w).positions@[k]);
                }
            }
            e = e + 1;
        }
    }
}

} // verus!
