//! The pursuit decision loop: once per simulation step, every hostile
//! actor either declares a melee intent against the tracked target
//! (when adjacent), takes one step along a shortest path toward it
//! (when the target is visible to it), or does nothing. The
//! blocked-flag toggle around each move is the mutual exclusion that
//! keeps two actors from entering one tile within a step.

use vstd::prelude::*;
use crate::components::{Position, WantsToMelee};
use crate::fov::iabs;
use crate::map::GameMap;
use crate::pathfind::{path_search, is_path};
use crate::world::World;

verus! {

broadcast use crate::grid::lemma_row_major_in_range;

/// Euclidean adjacency: squared distance at most two admits the eight
/// surrounding tiles (and the tile itself), exactly the set closer
/// than one and a half.
pub open spec fn adjacent(px: int, py: int, qx: int, qy: int) -> bool {
    (px - qx) * (px - qx) + (py - qy) * (py - qy) <= 2
}

/// The adjacency threshold admits exactly the tile itself and its
/// eight orthogonal and diagonal neighbors: squared distance at most
/// two is the same as both axis offsets being at most one.
pub proof fn lemma_adjacency_is_king_move(px: int, py: int, qx: int, qy: int)
    ensures
        adjacent(px, py, qx, qy) <==> (-1 <= px - qx <= 1 && -1 <= py - qy <= 1),
{
    let dx = px - qx;
    let dy = py - qy;
    assert((dx * dx + dy * dy <= 2) <==> (-1 <= dx <= 1 && -1 <= dy <= 1)) by (nonlinear_arith);
}

/// The position component of entity `e`; the origin when it has none.
pub open spec fn pos_of(w: World, e: int) -> Position {
    match w.positions@[e] {
        Some(p) => p,
        None => Position { x: 0, y: 0 },
    }
}

/// The entity takes a pursuit turn: a live, named, sighted, positioned
/// hostile.
pub open spec fn enemy_actor(w: World, e: int) -> bool {
    &&& 0 <= e < w.spec_len()
    &&& w.alive@[e]
    &&& w.enemies@[e] is Some
    &&& w.names@[e] is Some
    &&& w.positions@[e] is Some
    &&& w.viewsheds@[e] is Some
}

/// Every positioned, live entity stands inside the map.
pub open spec fn positions_in_bounds(w: World, m: GameMap) -> bool {
    forall|e: int|
        0 <= e < w.spec_len() && w.alive@[e] && (#[trigger] w.positions@[e]) is Some ==> m.in_bounds(
            pos_of(w, e).x as int,
            pos_of(w, e).y as int,
        )
}

/// The blocked array covers every live blocking occupant's tile, and
/// no two such occupants share a tile.
pub open spec fn occupancy_consistent(w: World, m: GameMap) -> bool {
    &&& forall|e: int|
        0 <= e < w.spec_len() && w.alive@[e] && w.blocks_tile@[e] is Some && (
        #[trigger] w.positions@[e]) is Some ==> m.blocked@[m.idx_of(
            pos_of(w, e).x as int,
            pos_of(w, e).y as int,
        )]
    &&& forall|e1: int, e2: int|
        0 <= e1 < w.spec_len() && 0 <= e2 < w.spec_len() && e1 != e2 && w.alive@[e1]
            && w.alive@[e2] && w.blocks_tile@[e1] is Some && w.blocks_tile@[e2] is Some && (
        #[trigger] w.positions@[e1]) is Some && (#[trigger] w.positions@[e2]) is Some ==> pos_of(
            w,
            e1,
        ) != pos_of(w, e2)
}

/// Every hostile actor blocks its tile.
pub open spec fn enemies_block(w: World) -> bool {
    forall|e: int| #[trigger] enemy_actor(w, e) ==> w.blocks_tile@[e] is Some
}

/// One orthogonal step onto an in-border, non-Wall tile; the
/// terrain-level footprint of a pursuit move.
pub open spec fn ortho_step(m: GameMap, p0: Position, p1: Position) -> bool {
    &&& 1 <= p1.x as int <= m.width - 1
    &&& 1 <= p1.y as int <= m.height - 1
    &&& iabs(p1.x as int - p0.x as int) + iabs(p1.y as int - p0.y as int) == 1
}

pub(crate) fn contains_tile(v: &Vec<(i32, i32)>, t: (i32, i32)) -> (r: bool)
    ensures
        r == v@.contains(t),
{
    let mut i: usize = 0;
    while i < v.len()
        invariant
            i <= v@.len(),
            forall|k: int| 0 <= k < i ==> v@[k] != t,
        decreases v@.len() - i,
    {
        if v[i].0 == t.0 && v[i].1 == t.1 {
            proof {
                assert(v@[i as int] == t);
            }
            return true;
        }
        i = i + 1;
    }
    proof {
        assert forall|k: int| 0 <= k < v@.len() implies v@[k] != t by {}
    }
    false
}

/// The pursuit decision loop.
pub struct EnemyAI {}

impl EnemyAI {
    /// One actor's turn. First match wins: adjacency raises a melee
    /// intent against the tracked target; a visible target triggers
    /// one step along a shortest path, claiming the new tile's blocked
    /// flag and releasing the old; otherwise nothing happens.
    pub fn enemy_turn(
        w: &mut World,
        map: &mut GameMap,
        e: usize,
        player_pos: (i32, i32),
        player_entity: usize,
    )
        requires
            old(w).inv(),
            old(map).inv(),
            player_entity < old(w).spec_len(),
            old(map).in_bounds(player_pos.0 as int, player_pos.1 as int),
            enemy_actor(*old(w), e as int),
            old(w).blocks_tile@[e as int] is Some,
            positions_in_bounds(*old(w), *old(map)),
            occupancy_consistent(*old(w), *old(map)),
        ensures
            final(w).inv(),
            final(map).inv(),
            final(w).spec_len() == old(w).spec_len(),
            positions_in_bounds(*final(w), *final(map)),
            occupancy_consistent(*final(w), *final(map)),
            final(map).tiles == old(map).tiles,
            final(map).rooms == old(map).rooms,
            final(map).width == old(map).width,
            final(map).height == old(map).height,
            final(map).revealed_tiles == old(map).revealed_tiles,
            final(map).visible_tiles == old(map).visible_tiles,
            final(map).tile_content == old(map).tile_content,
            final(w).alive == old(w).alive,
            final(w).renderables == old(w).renderables,
            final(w).left_movers == old(w).left_movers,
            final(w).players == old(w).players,
            final(w).enemies == old(w).enemies,
            final(w).names == old(w).names,
            final(w).combat_stats == old(w).combat_stats,
            final(w).blocks_tile == old(w).blocks_tile,
            final(w).suffer_damage == old(w).suffer_damage,
            forall|k: int|
                0 <= k < old(w).spec_len() && k != e ==> (#[trigger] final(w).positions@[k])
                    == old(w).positions@[k] && final(w).viewsheds@[k] == old(w).viewsheds@[k]
                    && final(w).wants_to_melee@[k] == old(w).wants_to_melee@[k],
            adjacent(
                pos_of(*old(w), e as int).x as int,
                pos_of(*old(w), e as int).y as int,
                player_pos.0 as int,
                player_pos.1 as int,
            ) ==> final(w).wants_to_melee@[e as int] == Some(
                WantsToMelee { target: player_entity },
            ) && final(w).positions@[e as int] == old(w).positions@[e as int] && final(w).viewsheds@[e as int] == old(w).viewsheds@[e as int] && final(map).blocked == old(map).blocked,
            !adjacent(
                pos_of(*old(w), e as int).x as int,
                pos_of(*old(w), e as int).y as int,
                player_pos.0 as int,
                player_pos.1 as int,
            ) ==> final(w).wants_to_melee@[e as int] == old(w).wants_to_melee@[e as int],
            final(w).positions@[e as int] == old(w).positions@[e as int] || (!adjacent(
                pos_of(*old(w), e as int).x as int,
                pos_of(*old(w), e as int).y as int,
                player_pos.0 as int,
                player_pos.1 as int,
            ) && (match old(w).viewsheds@[e as int] {
                Some(vs) => vs.visible_tiles@.contains(player_pos),
                None => false,
            }) && final(w).positions@[e as int] is Some && ortho_step(
                *old(map),
                pos_of(*old(w), e as int),
                pos_of(*final(w), e as int),
            ) && (match final(w).viewsheds@[e as int] {
                Some(v) => v.dirty,
                None => false,
            })),
            // A turn that leaves the position alone changes neither the
            // actor's viewshed nor any blocked flag.
            final(w).positions@[e as int] == old(w).positions@[e as int] ==> final(w).viewsheds@[e as int] == old(w).viewsheds@[e as int] && final(map).blocked == old(map).blocked,
            // A move releases the old tile's blocked flag and claims
            // the new tile's, and nothing else.
            final(w).positions@[e as int] != old(w).positions@[e as int] ==> final(map).blocked@
                == old(map).blocked@.update(
                old(map).idx_of(
                    pos_of(*old(w), e as int).x as int,
                    pos_of(*old(w), e as int).y as int,
                ),
                false,
            ).update(
                old(map).idx_of(
                    pos_of(*final(w), e as int).x as int,
                    pos_of(*final(w), e as int).y as int,
                ),
                true,
            ),
            // The step taken begins a shortest valid path to the
            // target's tile on the turn's map.
            final(w).positions@[e as int] != old(w).positions@[e as int] ==> (exists|q: Seq<usize>|
                crate::pathfind::is_shortest_path(
                    *old(map),
                    q,
                    old(map).idx_of(
                        pos_of(*old(w), e as int).x as int,
                        pos_of(*old(w), e as int).y as int,
                    ),
                    old(map).idx_of(player_pos.0 as int, player_pos.1 as int),
                ) && q.len() > 1 && old(map).idx_of(
                    pos_of(*final(w), e as int).x as int,
                    pos_of(*final(w), e as int).y as int,
                ) == q[1] as int),
            // Movement is owed: a visible target on a different,
            // reachable tile is approached.
            (!adjacent(
                pos_of(*old(w), e as int).x as int,
                pos_of(*old(w), e as int).y as int,
                player_pos.0 as int,
                player_pos.1 as int,
            ) && (match old(w).viewsheds@[e as int] {
                Some(vs) => vs.visible_tiles@.contains(player_pos),
                None => false,
            }) && old(map).idx_of(
                pos_of(*old(w), e as int).x as int,
                pos_of(*old(w), e as int).y as int,
            ) != old(map).idx_of(player_pos.0 as int, player_pos.1 as int) && (exists|q: Seq<usize>|
                crate::pathfind::is_path(
                    *old(map),
                    q,
                    old(map).idx_of(
                        pos_of(*old(w), e as int).x as int,
                        pos_of(*old(w), e as int).y as int,
                    ),
                    old(map).idx_of(player_pos.0 as int, player_pos.1 as int),
                ))) ==> final(w).positions@[e as int] != old(w).positions@[e as int],
    {
        let p = match w.positions[e] {
            Some(p) => p,
            None => Position { x: 0, y: 0 },
        };
        let dx: i64 = p.x as i64 - player_pos.0 as i64;
        let dy: i64 = p.y as i64 - player_pos.1 as i64;
        proof {
            crate::fov::lemma_square_bounds(dx as int, dy as int);
        }
        let d2: i64 = dx * dx + dy * dy;
        if d2 <= 2 {
            w.insert_wants_to_melee(e, WantsToMelee { target: player_entity });
            return ;
        }
        let visible = match &w.viewsheds[e] {
            Some(vs) => contains_tile(&vs.visible_tiles, player_pos),
            None => false,
        };
        if !visible {
            return ;
        }
        let start = map.xy_idx(p.x, p.y);
        let goal = map.xy_idx(player_pos.0, player_pos.1);
        let found = path_search(map, start, goal);
        proof {
            assert(old(map).idx_of(p.x as int, p.y as int) == start as int);
            assert(old(map).idx_of(player_pos.0 as int, player_pos.1 as int) == goal as int);
        }
        match found {
            Some(path) => {
                if path.len() > 1 {
                    let next = path[1];
                    let ghost cx: int = 0int;
                    let ghost cy: int = 0int;
                    proof {
                        assert(is_path(*map, path@, start as int, goal as int));
                        assert(map.spec_step(path@[0] as int, path@[1] as int));
                        assert(path@[0] == start);
                        let a = start as int;
                        let b = next as int;
                        let wd = map.width as int;
                        crate::map::lemma_idx_coords(wd, map.height as int, a);
                        assert(a % wd == p.x as int && a / wd == p.y as int) by {
                            vstd::arithmetic::div_mod::lemma_fundamental_div_mod_converse_mod(
                                a,
                                wd,
                                p.y as int,
                                p.x as int,
                            );
                            vstd::arithmetic::div_mod::lemma_fundamental_div_mod_converse_div(
                                a,
                                wd,
                                p.y as int,
                                p.x as int,
                            );
                        }
                        // Each exit step lands one orthogonal tile away;
                        // recover the step's coordinates from its index.
                        let (gx, gy): (int, int) = if b == a - 1 {
                            (p.x as int - 1, p.y as int)
                        } else if b == a + 1 {
                            (p.x as int + 1, p.y as int)
                        } else if b == a - wd {
                            (p.x as int, p.y as int - 1)
                        } else {
                            (p.x as int, p.y as int + 1)
                        };
                        assert(map.spec_valid_exit(gx, gy));
                        assert(b == gy * wd + gx) by (nonlinear_arith)
                            requires
                                a == p.y as int * wd + p.x as int,
                                gx == (if b == a - 1 { p.x as int - 1 } else if b == a + 1 { p.x as int + 1 } else { p.x as int }),
                                gy == (if b == a - 1 || b == a + 1 { p.y as int } else if b == a - wd { p.y as int - 1 } else { p.y as int + 1 }),
                                b == a - 1 || b == a + 1 || b == a - wd || b == a + wd,
                                !(b == a - 1) && !(b == a + 1) && b != a - wd ==> b == a + wd,
                        ;
                        vstd::arithmetic::div_mod::lemma_fundamental_div_mod_converse_mod(
                            b,
                            wd,
                            gy,
                            gx,
                        );
                        vstd::arithmetic::div_mod::lemma_fundamental_div_mod_converse_div(
                            b,
                            wd,
                            gy,
                            gx,
                        );
                        assert(0 <= b < wd * map.height);
                        cx = gx;
                        cy = gy;
                    }
                    let wdt = map.width;
                    let nx = (next as i32) % wdt;
                    let ny = (next as i32) / wdt;
                    proof {
                        assert(nx as int == cx && ny as int == cy);
                        assert(map.spec_valid_exit(nx as int, ny as int));
                        assert(next as int == map.idx_of(nx as int, ny as int));
                        assert(next != start);
                        assert(!(nx == p.x && ny == p.y)) by {
                            if nx == p.x && ny == p.y {
                                assert(next as int == start as int);
                            }
                        }
                        assert(crate::pathfind::is_shortest_path(
                            *map,
                            path@,
                            start as int,
                            goal as int,
                        ));
                        assert(path@.len() > 1 && path@[1] == next);
                    }
                    let ghost wpre = *w;
                    let ghost mpre = *map;
                    map.blocked[start] = false;
                    map.blocked[next] = true;
                    w.positions[e] = Some(Position { x: nx, y: ny });
                    match &mut w.viewsheds[e] {
                        Some(vs) => {
                            vs.dirty = true;
                        },
                        None => {},
                    }
                    proof {
                        assert(old(map).idx_of(
                            pos_of(*old(w), e as int).x as int,
                            pos_of(*old(w), e as int).y as int,
                        ) == start as int);
                        assert(old(map).idx_of(player_pos.0 as int, player_pos.1 as int)
                            == goal as int);
                        let wd = map.width as int;
                        assert forall|e1: int|
                            0 <= e1 < w.spec_len() && w.alive@[e1] && w.blocks_tile@[e1] is Some
                                && (#[trigger] w.positions@[e1]) is Some implies map.blocked@[map.idx_of(
                            pos_of(*w, e1).x as int,
                            pos_of(*w, e1).y as int,
                        )] by {
                            if e1 != e {
                                assert(mpre.blocked@[mpre.idx_of(
                                    pos_of(wpre, e1).x as int,
                                    pos_of(wpre, e1).y as int,
                                )]);
                                // A different occupant stands on neither
                                // toggled cell: not on the new one, which
                                // was unblocked, nor on the old one, which
                                // only the mover occupied.
                                if pos_of(wpre, e1) == p {
                                    assert(pos_of(wpre, e as int) == p);
                                    assert(false);
                                }
                                crate::grid::lemma_row_major_injective(
                                    wd,
                                    pos_of(wpre, e1).x as int,
                                    pos_of(wpre, e1).y as int,
                                    p.x as int,
                                    p.y as int,
                                );
                                if pos_of(wpre, e1) == (Position { x: nx, y: ny }) {
                                    assert(mpre.blocked@[next as int]);
                                    assert(false);
                                }
                                crate::grid::lemma_row_major_injective(
                                    wd,
                                    pos_of(wpre, e1).x as int,
                                    pos_of(wpre, e1).y as int,
                                    nx as int,
                                    ny as int,
                                );
                            }
                        }
                        assert forall|e1: int, e2: int|
                            0 <= e1 < w.spec_len() && 0 <= e2 < w.spec_len() && e1 != e2
                                && w.alive@[e1] && w.alive@[e2] && w.blocks_tile@[e1] is Some
                                && w.blocks_tile@[e2] is Some && (#[trigger] w.positions@[e1]) is Some
                                && (#[trigger] w.positions@[e2]) is Some implies pos_of(*w, e1)
                            != pos_of(*w, e2) by {
                            if e1 != e && e2 != e {
                                assert(pos_of(wpre, e1) != pos_of(wpre, e2));
                            } else {
                                let other = if e1 == e {
                                    e2
                                } else {
                                    e1
                                };
                                if pos_of(wpre, other) == (Position { x: nx, y: ny }) {
                                    assert(mpre.blocked@[next as int]);
                                    assert(false);
                                }
                            }
                        }
                    }
                }
                else {
                    proof {
                        // A one-cell path means the actor already
                        // stands on the target's tile.
                        assert(path@[0] == start && path@[path@.len() - 1] == goal);
                        assert(start == goal);
                    }
                }
            },
            None => {},
        }
    }

    /// Runs one pursuit turn for every hostile actor, in entity order.
    pub fn run(w: &mut World, map: &mut GameMap, player_pos: (i32, i32), player_entity: usize)
        requires
            old(w).inv(),
            old(map).inv(),
            player_entity < old(w).spec_len(),
            old(map).in_bounds(player_pos.0 as int, player_pos.1 as int),
            positions_in_bounds(*old(w), *old(map)),
            occupancy_consistent(*old(w), *old(map)),
            enemies_block(*old(w)),
        ensures
            final(w).inv(),
            final(map).inv(),
            final(w).spec_len() == old(w).spec_len(),
            positions_in_bounds(*final(w), *final(map)),
            occupancy_consistent(*final(w), *final(map)),
            final(map).tiles == old(map).tiles,
            final(map).rooms == old(map).rooms,
            final(map).width == old(map).width,
            final(map).height == old(map).height,
            final(map).revealed_tiles == old(map).revealed_tiles,
            final(map).visible_tiles == old(map).visible_tiles,
            final(map).tile_content == old(map).tile_content,
            final(w).alive == old(w).alive,
            final(w).renderables == old(w).renderables,
            final(w).left_movers == old(w).left_movers,
            final(w).players == old(w).players,
            final(w).enemies == old(w).enemies,
            final(w).names == old(w).names,
            final(w).combat_stats == old(w).combat_stats,
            final(w).blocks_tile == old(w).blocks_tile,
            final(w).suffer_damage == old(w).suffer_damage,
            forall|k: int|
                0 <= k < old(w).spec_len() && !enemy_actor(*old(w), k) ==> (#[trigger] final(w).positions@[k]) == old(w).positions@[k] && final(w).viewsheds@[k] == old(w).viewsheds@[k] && final(w).wants_to_melee@[k] == old(w).wants_to_melee@[k],
            forall|k: int|
                #![trigger enemy_actor(*old(w), k)]
                enemy_actor(*old(w), k) ==> {
                    &&& (adjacent(
                        pos_of(*old(w), k).x as int,
                        pos_of(*old(w), k).y as int,
                        player_pos.0 as int,
                        player_pos.1 as int,
                    ) ==> final(w).wants_to_melee@[k] == Some(
                        WantsToMelee { target: player_entity },
                    ) && final(w).positions@[k] == old(w).positions@[k])
                    &&& (!adjacent(
                        pos_of(*old(w), k).x as int,
                        pos_of(*old(w), k).y as int,
                        player_pos.0 as int,
                        player_pos.1 as int,
                    ) ==> final(w).wants_to_melee@[k] == old(w).wants_to_melee@[k])
                    &&& (final(w).positions@[k] == old(w).positions@[k] || (!adjacent(
                        pos_of(*old(w), k).x as int,
                        pos_of(*old(w), k).y as int,
                        player_pos.0 as int,
                        player_pos.1 as int,
                    ) && (match old(w).viewsheds@[k] {
                        Some(vs) => vs.visible_tiles@.contains(player_pos),
                        None => false,
                    }) && final(w).positions@[k] is Some && ortho_step(
                        *old(map),
                        pos_of(*old(w), k),
                        pos_of(*final(w), k),
                    ) && (match final(w).viewsheds@[k] {
                        Some(v) => v.dirty,
                        None => false,
                    })))
                    &&& (final(w).positions@[k] == old(w).positions@[k] ==> final(w).viewsheds@[k]
                        == old(w).viewsheds@[k])
                },
            forall|i: int|
                0 <= i < old(map).blocked@.len() && (#[trigger] final(map).blocked@[i]) != old(
                    map,
                ).blocked@[i] ==> exists|k: int|
                    enemy_actor(*old(w), k) && (i == old(map).idx_of(
                        pos_of(*old(w), k).x as int,
                        pos_of(*old(w), k).y as int,
                    ) || i == old(map).idx_of(
                        pos_of(*final(w), k).x as int,
                        pos_of(*final(w), k).y as int,
                    )),
    {
        let n = w.len();
        let mut i: usize = 0;
        while i < n
            invariant
                w.inv(),
                old(w).inv(),
                map.inv(),
                old(map).inv(),
                n == w.spec_len(),
                n == old(w).spec_len(),
                i <= n,
                player_entity < n,
                enemies_block(*old(w)),
                map.in_bounds(player_pos.0 as int, player_pos.1 as int),
                positions_in_bounds(*w, *map),
                occupancy_consistent(*w, *map),
                map.tiles == old(map).tiles,
                map.rooms == old(map).rooms,
                map.width == old(map).width,
                map.height == old(map).height,
                map.revealed_tiles == old(map).revealed_tiles,
                map.visible_tiles == old(map).visible_tiles,
                map.tile_content == old(map).tile_content,
                w.alive == old(w).alive,
                w.renderables == old(w).renderables,
                w.left_movers == old(w).left_movers,
                w.players == old(w).players,
                w.enemies == old(w).enemies,
                w.names == old(w).names,
                w.combat_stats == old(w).combat_stats,
                w.blocks_tile == old(w).blocks_tile,
                w.suffer_damage == old(w).suffer_damage,
                forall|k: int| i <= k < n ==> w.positions@[k] == (#[trigger] old(w).positions@[k]),
                forall|k: int| i <= k < n ==> w.viewsheds@[k] == (#[trigger] old(w).viewsheds@[k]),
                forall|k: int|
                    i <= k < n ==> w.wants_to_melee@[k] == (#[trigger] old(w).wants_to_melee@[k]),
                forall|k: int|
                    #![trigger old(w).positions@[k]]
                    0 <= k < i && !enemy_actor(*old(w), k) ==> w.positions@[k] == old(w).positions@[k] && w.viewsheds@[k] == old(w).viewsheds@[k]
                        && w.wants_to_melee@[k] == old(w).wants_to_melee@[k],
                forall|k: int|
                    #![trigger enemy_actor(*old(w), k)]
                    0 <= k < i && enemy_actor(*old(w), k) ==> {
                        &&& (adjacent(
                            pos_of(*old(w), k).x as int,
                            pos_of(*old(w), k).y as int,
                            player_pos.0 as int,
                            player_pos.1 as int,
                        ) ==> w.wants_to_melee@[k] == Some(WantsToMelee { target: player_entity })
                            && w.positions@[k] == old(w).positions@[k])
                        &&& (!adjacent(
                            pos_of(*old(w), k).x as int,
                            pos_of(*old(w), k).y as int,
                            player_pos.0 as int,
                            player_pos.1 as int,
                        ) ==> w.wants_to_melee@[k] == old(w).wants_to_melee@[k])
                        &&& (w.positions@[k] == old(w).positions@[k] || (!adjacent(
                            pos_of(*old(w), k).x as int,
                            pos_of(*old(w), k).y as int,
                            player_pos.0 as int,
                            player_pos.1 as int,
                        ) && (match old(w).viewsheds@[k] {
                            Some(vs) => vs.visible_tiles@.contains(player_pos),
                            None => false,
                        }) && w.positions@[k] is Some && ortho_step(
                            *old(map),
                            pos_of(*old(w), k),
                            pos_of(*w, k),
                        ) && (match w.viewsheds@[k] {
                            Some(v) => v.dirty,
                            None => false,
                        })))
                        &&& (w.positions@[k] == old(w).positions@[k] ==> w.viewsheds@[k] == old(
                            w,
                        ).viewsheds@[k])
                    },
                forall|j: int|
                    0 <= j < old(map).blocked@.len() && (#[trigger] map.blocked@[j]) != old(
                        map,
                    ).blocked@[j] ==> exists|k: int|
                        enemy_actor(*old(w), k) && (j == old(map).idx_of(
                            pos_of(*old(w), k).x as int,
                            pos_of(*old(w), k).y as int,
                        ) || j == old(map).idx_of(
                            pos_of(*w, k).x as int,
                            pos_of(*w, k).y as int,
                        )),
            decreases n - i,
        {
            let ghost wpre = *w;
            let ghost mpre = *map;
            let qualifies = w.alive[i] && w.enemies[i].is_some() && w.names[i].is_some()
                && w.positions[i].is_some() && w.viewsheds[i].is_some();
            proof {
                assert(w.positions@[i as int] == old(w).positions@[i as int]);
                assert(w.viewsheds@[i as int] == old(w).viewsheds@[i as int]);
                assert(w.wants_to_melee@[i as int] == old(w).wants_to_melee@[i as int]);
                assert(qualifies == enemy_actor(*w, i as int));
                assert(enemy_actor(*w, i as int) == enemy_actor(*old(w), i as int));
            }
            if qualifies {
                proof {
                    assert(enemies_block(*old(w)));
                    assert(w.blocks_tile@[i as int] is Some);
                }
                Self::enemy_turn(w, map, i, player_pos, player_entity);
            }
            proof {
                assert forall|k: int| i + 1 <= k < n implies (#[trigger] w.positions@[k]) == old(w).positions@[k] by {
                    assert(w.positions@[k] == wpre.positions@[k]);
                    assert(wpre.positions@[k] == old(w).positions@[k]);
                }
                assert forall|k: int| i + 1 <= k < n implies (#[trigger] w.viewsheds@[k]) == old(w).viewsheds@[k] by {
                    assert(w.positions@[k] == wpre.positions@[k]);
                    assert(w.viewsheds@[k] == wpre.viewsheds@[k]);
                    assert(wpre.viewsheds@[k] == old(w).viewsheds@[k]);
                }
                assert forall|k: int| i + 1 <= k < n implies (#[trigger] w.wants_to_melee@[k])
                    == old(w).wants_to_melee@[k] by {
                    assert(w.positions@[k] == wpre.positions@[k]);
                    assert(w.wants_to_melee@[k] == wpre.wants_to_melee@[k]);
                    assert(wpre.wants_to_melee@[k] == old(w).wants_to_melee@[k]);
                }
                assert forall|k: int|
                    #![trigger old(w).positions@[k]]
                    0 <= k < i + 1 && !enemy_actor(*old(w), k) implies w.positions@[k] == old(w).positions@[k] && w.viewsheds@[k] == old(w).viewsheds@[k] && w.wants_to_melee@[k]
                    == old(w).wants_to_melee@[k] by {
                    assert(w.positions@[k] == wpre.positions@[k]);
                    assert(w.viewsheds@[k] == wpre.viewsheds@[k]);
                    assert(w.wants_to_melee@[k] == wpre.wants_to_melee@[k]);
                    if k < i {
                        assert(wpre.positions@[k] == old(w).positions@[k]);
                        assert(wpre.viewsheds@[k] == old(w).viewsheds@[k]);
                        assert(wpre.wants_to_melee@[k] == old(w).wants_to_melee@[k]);
                    }
                }
                assert forall|k: int|
                    #![trigger enemy_actor(*old(w), k)]
                    0 <= k < i + 1 && enemy_actor(*old(w), k) implies {
                        &&& (adjacent(
                            pos_of(*old(w), k).x as int,
                            pos_of(*old(w), k).y as int,
                            player_pos.0 as int,
                            player_pos.1 as int,
                        ) ==> w.wants_to_melee@[k] == Some(WantsToMelee { target: player_entity })
                            && w.positions@[k] == old(w).positions@[k])
                        &&& (!adjacent(
                            pos_of(*old(w), k).x as int,
                            pos_of(*old(w), k).y as int,
                            player_pos.0 as int,
                            player_pos.1 as int,
                        ) ==> w.wants_to_melee@[k] == old(w).wants_to_melee@[k])
                        &&& (w.positions@[k] == old(w).positions@[k] || (!adjacent(
                            pos_of(*old(w), k).x as int,
                            pos_of(*old(w), k).y as int,
                            player_pos.0 as int,
                            player_pos.1 as int,
                        ) && (match old(w).viewsheds@[k] {
                            Some(vs) => vs.visible_tiles@.contains(player_pos),
                            None => false,
                        }) && w.positions@[k] is Some && ortho_step(
                            *old(map),
                            pos_of(*old(w), k),
                            pos_of(*w, k),
                        ) && (match w.viewsheds@[k] {
                            Some(v) => v.dirty,
                            None => false,
                        })))
                        &&& (w.positions@[k] == old(w).positions@[k] ==> w.viewsheds@[k] == old(
                            w,
                        ).viewsheds@[k])
                    } by {
                    if k < i {
                        assert(w.positions@[k] == wpre.positions@[k]);
                        assert(w.viewsheds@[k] == wpre.viewsheds@[k]);
                        assert(w.wants_to_melee@[k] == wpre.wants_to_melee@[k]);
                    } else {
                        assert(wpre.positions@[k] == old(w).positions@[k]);
                        assert(wpre.viewsheds@[k] == old(w).viewsheds@[k]);
                        assert(wpre.wants_to_melee@[k] == old(w).wants_to_melee@[k]);
                        assert(pos_of(wpre, k) == pos_of(*old(w), k));
                    }
                }
                // Any blocked flag that differs from its starting value
                // was toggled by some actor's move, at that actor's old
                // or new tile.
                assert forall|j: int|
                    0 <= j < old(map).blocked@.len() && (#[trigger] map.blocked@[j]) != old(
                        map,
                    ).blocked@[j] implies exists|k: int|
                        enemy_actor(*old(w), k) && (j == old(map).idx_of(
                            pos_of(*old(w), k).x as int,
                            pos_of(*old(w), k).y as int,
                        ) || j == old(map).idx_of(
                            pos_of(*w, k).x as int,
                            pos_of(*w, k).y as int,
                        )) by {
                    if map.blocked@[j] == mpre.blocked@[j] {
                        let k0 = choose|k0: int|
                            enemy_actor(*old(w), k0) && (j == old(map).idx_of(
                                pos_of(*old(w), k0).x as int,
                                pos_of(*old(w), k0).y as int,
                            ) || j == old(map).idx_of(
                                pos_of(wpre, k0).x as int,
                                pos_of(wpre, k0).y as int,
                            ));
                        if k0 == i {
                            assert(wpre.positions@[k0] == old(w).positions@[k0]);
                            assert(enemy_actor(*old(w), k0) && j == old(map).idx_of(
                                pos_of(*old(w), k0).x as int,
                                pos_of(*old(w), k0).y as int,
                            ));
                        } else {
                            assert(w.positions@[k0] == wpre.positions@[k0]);
                            assert(enemy_actor(*old(w), k0) && (j == old(map).idx_of(
                                pos_of(*old(w), k0).x as int,
                                pos_of(*old(w), k0).y as int,
                            ) || j == old(map).idx_of(
                                pos_of(*w, k0).x as int,
                                pos_of(*w, k0).y as int,
                            )));
                        }
                    } else {
                        assert(qualifies);
                        assert(wpre.positions@[i as int] == old(w).positions@[i as int]);
                        if w.positions@[i as int] == wpre.positions@[i as int] {
                            assert(map.blocked == mpre.blocked);
                            assert(false);
                        } else {
                            assert(map.blocked@ == mpre.blocked@.update(
                                mpre.idx_of(
                                    pos_of(wpre, i as int).x as int,
                                    pos_of(wpre, i as int).y as int,
                                ),
                                false,
                            ).update(
                                mpre.idx_of(
                                    pos_of(*w, i as int).x as int,
                                    pos_of(*w, i as int).y as int,
                                ),
                                true,
                            ));
                            assert(mpre.in_bounds(
                                pos_of(wpre, i as int).x as int,
                                pos_of(wpre, i as int).y as int,
                            ));
                            assert(map.in_bounds(
                                pos_of(*w, i as int).x as int,
                                pos_of(*w, i as int).y as int,
                            ));
                            crate::grid::lemma_row_major_in_range(
                                mpre.width as int,
                                mpre.height as int,
                                pos_of(wpre, i as int).x as int,
                                pos_of(wpre, i as int).y as int,
                            );
                            crate::grid::lemma_row_major_in_range(
                                mpre.width as int,
                                mpre.height as int,
                                pos_of(*w, i as int).x as int,
                                pos_of(*w, i as int).y as int,
                            );
                            assert(mpre.inv());
                            assert(mpre.blocked@.len() == old(map).blocked@.len());
                            assert(0 <= mpre.idx_of(
                                pos_of(wpre, i as int).x as int,
                                pos_of(wpre, i as int).y as int,
                            ) < mpre.blocked@.len());
                            assert(0 <= mpre.idx_of(
                                pos_of(*w, i as int).x as int,
                                pos_of(*w, i as int).y as int,
                            ) < mpre.blocked@.len());
                            assert(j == mpre.idx_of(
                                pos_of(wpre, i as int).x as int,
                                pos_of(wpre, i as int).y as int,
                            ) || j == mpre.idx_of(
                                pos_of(*w, i as int).x as int,
                                pos_of(*w, i as int).y as int,
                            ));
                            assert(enemy_actor(*old(w), i as int) && (j == old(map).idx_of(
                                pos_of(*old(w), i as int).x as int,
                                pos_of(*old(w), i as int).y as int,
                            ) || j == old(map).idx_of(
                                pos_of(*w, i as int).x as int,
                                pos_of(*w, i as int).y as int,
                            )));
                        }
                    }
                }
            }
            i = i + 1;
        }
    }
}

} // verus!
