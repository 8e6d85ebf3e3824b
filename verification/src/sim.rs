//! One simulation step: visibility, pursuit decisions, occupancy
//! reindex, then the three combat stages in order. After any step the
//! melee intents and the suffered-damage accumulators are empty.
//! Level regeneration re-anchors the player to the first room.

use vstd::prelude::*;
use crate::ai_system::{EnemyAI, enemies_block, occupancy_consistent, positions_in_bounds, pos_of};
use crate::combat_system::{
    DamageSystem, MeleeCombatSystem, attack_damage, attacker_acts, attacker_hits, attack_target,
    damage_sums_fit, inflicted_upto, melee_damage_fits, melee_targets_resolvable, seq_sum,
    should_die, entity_cleared, entity_unchanged,
};
use crate::components::{Position, amounts_of};
use crate::map::GameMap;
use crate::map_indexing_system::MapIndexingSystem;
use crate::visibility_system::{VisibilitySystem, ranges_nonneg};
use crate::world::World;

verus! {

/// The most entity slots one step is specified to handle.
pub const MAX_STEP_ENTITIES: usize = 4096;

/// The largest combat statistic magnitude one step is specified to
/// handle; together with the entity cap it keeps every accumulated
/// damage sum inside the hit-point word.
pub const MAX_STAT: i32 = 100000;

/// Every combat statistic stays within the given magnitude.
pub open spec fn stats_bounded(w: World, b: int) -> bool {
    forall|e: int|
        0 <= e < w.spec_len() ==> match #[trigger] w.combat_stats@[e] {
            Some(s) => -b <= s.max_hp <= b && -b <= s.hp <= b && -b <= s.defense <= b && -b
                <= s.power <= b,
            None => true,
        }
}

/// No melee intent is pending.
pub open spec fn no_pending_intents(w: World) -> bool {
    forall|e: int| 0 <= e < w.spec_len() ==> (#[trigger] w.wants_to_melee@[e]) is None
}

/// No suffered-damage accumulator is pending.
pub open spec fn no_pending_damage(w: World) -> bool {
    forall|e: int| 0 <= e < w.spec_len() ==> (#[trigger] w.suffer_damage@[e]) is None
}

/// No attacker below `k` appends more than `k` entries, and every
/// entry is positive and at most twice the statistic bound.
proof fn lemma_inflicted_bounds(w: World, t: int, k: int, b: int)
    requires
        stats_bounded(w, b),
        0 <= b,
        2 * b <= i32::MAX,
        0 <= k,
    ensures
        inflicted_upto(w, t, k).len() <= k,
        forall|j: int|
            0 <= j < inflicted_upto(w, t, k).len() ==> 0 < #[trigger] inflicted_upto(w, t, k)[j]
                <= 2 * b,
    decreases k,
{
    if k > 0 {
        lemma_inflicted_bounds(w, t, k - 1, b);
        if attacker_hits(w, k - 1, t) {
            assert(0 < attack_damage(w, k - 1, t) <= 2 * b);
        }
    }
}

/// Prefix sums of a sequence of entries in `(0, m]` stay between zero
/// and the prefix length times `m`.
proof fn lemma_sum_take_bounds(s: Seq<i32>, m: int, k: int)
    requires
        0 <= k <= s.len(),
        0 <= m,
        forall|j: int| 0 <= j < s.len() ==> 0 < #[trigger] s[j] <= m,
    ensures
        0 <= seq_sum(s.take(k)) <= k * m,
    decreases k,
{
    if k == 0 {
        assert(s.take(0) =~= Seq::<i32>::empty());
    } else {
        lemma_sum_take_bounds(s, m, k - 1);
        assert(s.take(k).drop_last() =~= s.take(k - 1));
        assert(s.take(k).last() == s[k - 1]);
        assert((k - 1) * m + m == k * m) by (nonlinear_arith);
    }
}

/// Runs one whole simulation step: visibility, the pursuit loop, the
/// occupancy reindex, then intent resolution, damage application and
/// the death sweep, in that order. Afterwards no melee intent and no
/// damage accumulator remains.
pub fn advance_step(w: &mut World, map: &mut GameMap, player_entity: usize)
    requires
        old(w).inv(),
        old(map).inv(),
        player_entity < old(w).spec_len(),
        old(w).alive@[player_entity as int],
        old(w).positions@[player_entity as int] is Some,
        old(w).combat_stats@[player_entity as int] is Some,
        old(w).names@[player_entity as int] is Some,
        positions_in_bounds(*old(w), *old(map)),
        occupancy_consistent(*old(w), *old(map)),
        enemies_block(*old(w)),
        ranges_nonneg(*old(w)),
        old(w).spec_len() <= MAX_STEP_ENTITIES,
        stats_bounded(*old(w), MAX_STAT as int),
        no_pending_intents(*old(w)),
        no_pending_damage(*old(w)),
    ensures
        final(w).inv(),
        final(map).inv(),
        final(w).spec_len() == old(w).spec_len(),
        no_pending_intents(*final(w)),
        no_pending_damage(*final(w)),
        final(map).tiles == old(map).tiles,
        final(map).rooms == old(map).rooms,
        final(map).width == old(map).width,
        final(map).height == old(map).height,
        forall|i: int|
            0 <= i < old(map).revealed_tiles@.len() && old(map).revealed_tiles@[i] ==> final(map).revealed_tiles@[i],
        crate::visibility_system::recomputes(*old(w), player_entity as int) ==> forall|i: int|
            0 <= i < final(map).visible_tiles@.len() ==> (#[trigger] final(map).visible_tiles@[i])
                == crate::fov::visible_from(
                *old(map),
                pos_of(*old(w), player_entity as int).x as int,
                pos_of(*old(w), player_entity as int).y as int,
                crate::visibility_system::range_of(*old(w), player_entity as int),
                i % (old(map).width as int),
                i / (old(map).width as int),
            ),
        !crate::visibility_system::recomputes(*old(w), player_entity as int) ==> final(map).visible_tiles == old(map).visible_tiles,
        // After the sweep, anything still alive at non-positive hit
        // points can only be the player-controlled entity.
        forall|e: int|
            0 <= e < final(w).spec_len() && final(w).alive@[e] && (match #[trigger] final(w).combat_stats@[e] {
                Some(s) => s.hp < 1,
                None => false,
            }) ==> final(w).players@[e] is Some,
{
    let ppos = match w.positions[player_entity] {
        Some(p) => (p.x, p.y),
        None => (0, 0),
    };
    proof {
        assert(ppos.0 == pos_of(*old(w), player_entity as int).x);
        assert(ppos.1 == pos_of(*old(w), player_entity as int).y);
    }
    VisibilitySystem::run(w, map, player_entity);
    let ghost w1 = *w;
    let ghost m1 = *map;
    proof {
        assert forall|e: int|
            0 <= e < w1.spec_len() && w1.alive@[e] && (#[trigger] w1.positions@[e]) is Some implies
            m1.in_bounds(pos_of(w1, e).x as int, pos_of(w1, e).y as int) by {
            assert(w1.positions@[e] == old(w).positions@[e]);
            assert(m1.in_bounds(pos_of(*old(w), e).x as int, pos_of(*old(w), e).y as int));
        }
        assert forall|e: int|
            0 <= e < w1.spec_len() && w1.alive@[e] && w1.blocks_tile@[e] is Some && (
        #[trigger] w1.positions@[e]) is Some implies m1.blocked@[m1.idx_of(
            pos_of(w1, e).x as int,
            pos_of(w1, e).y as int,
        )] by {
            assert(w1.positions@[e] == old(w).positions@[e]);
            assert(old(map).blocked@[old(map).idx_of(
                pos_of(*old(w), e).x as int,
                pos_of(*old(w), e).y as int,
            )]);
        }
        assert forall|e1: int, e2: int|
            0 <= e1 < w1.spec_len() && 0 <= e2 < w1.spec_len() && e1 != e2 && w1.alive@[e1]
                && w1.alive@[e2] && w1.blocks_tile@[e1] is Some && w1.blocks_tile@[e2] is Some && (
        #[trigger] w1.positions@[e1]) is Some && (#[trigger] w1.positions@[e2]) is Some implies
            pos_of(w1, e1) != pos_of(w1, e2) by {
            assert(w1.positions@[e1] == old(w).positions@[e1]);
            assert(w1.positions@[e2] == old(w).positions@[e2]);
            assert(pos_of(*old(w), e1) != pos_of(*old(w), e2));
        }
        assert(occupancy_consistent(w1, m1));
        assert forall|e: int| #[trigger] crate::ai_system::enemy_actor(w1, e) implies
            w1.blocks_tile@[e] is Some by {
            if crate::visibility_system::recomputes(*old(w), e) {
                assert(crate::ai_system::enemy_actor(*old(w), e));
            } else {
                assert(w1.viewsheds@[e] == old(w).viewsheds@[e]);
                assert(crate::ai_system::enemy_actor(*old(w), e));
            }
        }
        assert(enemies_block(w1));
        assert(m1.in_bounds(ppos.0 as int, ppos.1 as int));
    }
    EnemyAI::run(w, map, ppos, player_entity);
    let ghost w2 = *w;
    MapIndexingSystem::run(w, map);
    proof {
        // Every pending intent was raised this step against the
        // tracked target, which is alive with statistics and a name.
        assert forall|a: int| 0 <= a < w2.spec_len() && #[trigger] attacker_acts(w2, a) implies
            attack_target(w2, a) == player_entity as int && w2.combat_stats@[attack_target(w2, a)] is Some
                && w2.names@[attack_target(w2, a)] is Some by {
            if crate::ai_system::enemy_actor(w1, a) {
                assert(w1.wants_to_melee@[a] == old(w).wants_to_melee@[a]);
                assert(w1.wants_to_melee@[a] is None);
            } else {
                assert(0 <= a < w1.spec_len());
                assert(!crate::ai_system::enemy_actor(w1, a));
                assert(w2.positions@[a] == w1.positions@[a]);
                assert(w2.wants_to_melee@[a] == w1.wants_to_melee@[a]);
                assert(w1.wants_to_melee@[a] == old(w).wants_to_melee@[a]);
                assert(w1.wants_to_melee@[a] is None);
            }
            assert(w2.combat_stats@[player_entity as int] == old(w).combat_stats@[player_entity as int]);
            assert(w2.names@[player_entity as int] == old(w).names@[player_entity as int]);
        }
        assert(melee_targets_resolvable(w2));
        assert forall|e: int| 0 <= e < w2.spec_len() implies #[trigger] w2.combat_stats@[e] == old(w).combat_stats@[e] by {}
        assert(stats_bounded(w2, MAX_STAT as int));
        assert(melee_damage_fits(w2));
    }
    MeleeCombatSystem::run(w);
    let ghost w4 = *w;
    proof {
        assert forall|e: int|
            0 <= e < w4.spec_len() && (#[trigger] w4.suffer_damage@[e]) is Some implies {
            &&& forall|k: int|
                0 <= k <= amounts_of(w4.suffer_damage@[e]).len() ==> i32::MIN <= #[trigger] seq_sum(
                    amounts_of(w4.suffer_damage@[e]).take(k),
                ) <= i32::MAX
            &&& match w4.combat_stats@[e] {
                Some(s) => i32::MIN <= s.hp - seq_sum(amounts_of(w4.suffer_damage@[e]))
                    <= i32::MAX,
                None => true,
            }
        } by {
            assert(w2.suffer_damage@[e] == old(w).suffer_damage@[e]);
            assert(amounts_of(w2.suffer_damage@[e]) =~= Seq::<i32>::empty());
            let amts = amounts_of(w4.suffer_damage@[e]);
            assert(amts =~= Seq::<i32>::empty() + inflicted_upto(w2, e, w2.spec_len()));
            assert(amts =~= inflicted_upto(w2, e, w2.spec_len()));
            lemma_inflicted_bounds(w2, e, w2.spec_len(), MAX_STAT as int);
            assert forall|k: int| 0 <= k <= amts.len() implies i32::MIN <= #[trigger] seq_sum(
                amts.take(k),
            ) <= i32::MAX by {
                lemma_sum_take_bounds(amts, 2 * MAX_STAT as int, k);
                assert(k * (2 * MAX_STAT as int) <= 4096 * (2 * MAX_STAT as int))
                    by (nonlinear_arith)
                    requires
                        k <= 4096,
                ;
            }
            lemma_sum_take_bounds(amts, 2 * MAX_STAT as int, amts.len() as int);
            assert(amts.take(amts.len() as int) =~= amts);
            assert(amts.len() * (2 * MAX_STAT as int) <= 4096 * (2 * MAX_STAT as int))
                by (nonlinear_arith)
                requires
                    amts.len() <= 4096,
            ;
            assert(w4.combat_stats@[e] == old(w).combat_stats@[e]);
        }
        assert(damage_sums_fit(w4));
    }
    DamageSystem::run(w);
    let ghost w5 = *w;
    DamageSystem::delete_the_dead(w);
    proof {
        assert(w.spec_len() == w5.spec_len() && w5.spec_len() == w4.spec_len());
        assert forall|e: int| 0 <= e < w.spec_len() implies (#[trigger] w.wants_to_melee@[e]) is None by {
            assert(w5.wants_to_melee@[e] == w4.wants_to_melee@[e]);
            assert(w4.wants_to_melee@[e] is None);
            if should_die(w5, e) {
                assert(entity_cleared(*w, e));
            } else {
                assert(entity_unchanged(w5, *w, e));
            }
        }
        assert forall|e: int| 0 <= e < w.spec_len() implies (#[trigger] w.suffer_damage@[e]) is None by {
            assert(w5.suffer_damage@[e] is None);
            if should_die(w5, e) {
                assert(entity_cleared(*w, e));
            } else {
                assert(entity_unchanged(w5, *w, e));
            }
        }
        assert forall|e: int|
            0 <= e < w.spec_len() && w.alive@[e] && (match #[trigger] w.combat_stats@[e] {
                Some(s) => s.hp < 1,
                None => false,
            }) implies w.players@[e] is Some by {
            if should_die(w5, e) {
                assert(entity_cleared(*w, e));
                assert(false);
            } else {
                assert(entity_unchanged(w5, *w, e));
                assert(!should_die(w5, e));
            }
        }
        assert forall|i: int|
            0 <= i < old(map).revealed_tiles@.len() && old(map).revealed_tiles@[i] implies
            map.revealed_tiles@[i] by {
            assert(m1.revealed_tiles@[i]);
            assert(map.revealed_tiles@[i] == m1.revealed_tiles@[i]);
        }
        if crate::visibility_system::recomputes(*old(w), player_entity as int) {
            assert forall|i: int| 0 <= i < map.visible_tiles@.len() implies (
            #[trigger] map.visible_tiles@[i]) == crate::fov::visible_from(
                *old(map),
                pos_of(*old(w), player_entity as int).x as int,
                pos_of(*old(w), player_entity as int).y as int,
                crate::visibility_system::range_of(*old(w), player_entity as int),
                i % (old(map).width as int),
                i / (old(map).width as int),
            ) by {
                assert(map.visible_tiles@[i] == m1.visible_tiles@[i]);
            }
        }
    }
}

/// Discards the current map for a newly generated level — the fixed
/// test pattern or a seeded random dungeon — and re-anchors every
/// player-controlled entity to the first room's center.
pub fn regenerate(w: &mut World, test: bool, seed: u64) -> (m: GameMap)
    requires
        old(w).inv(),
    ensures
        final(w).inv(),
        final(w).spec_len() == old(w).spec_len(),
        m.inv(),
        m.width == crate::map::MAP_WIDTH,
        m.height == crate::map::MAP_HEIGHT,
        m.rooms@.len() >= 1,
        m.fresh_dynamic_state(),
        test ==> m.rooms@.len() == 1 && m.rooms@[0] == (crate::rect::Rect {
            x1: 10,
            y1: 10,
            x2: 20,
            y2: 20,
        }) && (forall|x: int|
            0 <= x < m.width ==> m.tiles@[#[trigger] m.idx_of(x, 0)] == crate::map::TileType::Wall
                && m.tiles@[m.idx_of(x, m.height - 1)] == crate::map::TileType::Wall) && (
        forall|y: int|
            0 <= y < m.height ==> m.tiles@[#[trigger] m.idx_of(0, y)] == crate::map::TileType::Wall
                && m.tiles@[m.idx_of(m.width - 1, y)] == crate::map::TileType::Wall) && m.tiles@[
            m.idx_of(40, 25)] == crate::map::TileType::Floor,
        !test ==> m.rooms@.len() <= crate::map::MAX_ROOMS && m.rooms_disjoint() && m.rooms_carved()
            && m.rooms_in_border(),
        final(w).alive == old(w).alive,
        final(w).renderables == old(w).renderables,
        final(w).viewsheds == old(w).viewsheds,
        final(w).left_movers == old(w).left_movers,
        final(w).players == old(w).players,
        final(w).enemies == old(w).enemies,
        final(w).names == old(w).names,
        final(w).combat_stats == old(w).combat_stats,
        final(w).blocks_tile == old(w).blocks_tile,
        final(w).suffer_damage == old(w).suffer_damage,
        final(w).wants_to_melee == old(w).wants_to_melee,
        forall|k: int|
            0 <= k < old(w).spec_len() && !(old(w).alive@[k] && old(w).players@[k] is Some && old(w).positions@[k] is Some) ==> final(w).positions@[k] == (#[trigger] old(w).positions@[k]),
        forall|k: int|
            0 <= k < old(w).spec_len() && old(w).alive@[k] && old(w).players@[k] is Some && (
            #[trigger] old(w).positions@[k]) is Some ==> (match final(w).positions@[k] {
                Some(p) => p.x as int == m.rooms@[0].spec_center().0 && p.y as int
                    == m.rooms@[0].spec_center().1,
                None => false,
            }),
{
    let map = if test {
        GameMap::test_map()
    } else {
        GameMap::new_map(seed)
    };
    let room0 = map.rooms[0];
    let center = room0.center();
    let n = w.len();
    let mut e: usize = 0;
    while e < n
        invariant
            w.inv(),
            old(w).inv(),
            n == w.spec_len(),
            n == old(w).spec_len(),
            e <= n,
            w.alive == old(w).alive,
            w.renderables == old(w).renderables,
            w.viewsheds == old(w).viewsheds,
            w.left_movers == old(w).left_movers,
            w.players == old(w).players,
            w.enemies == old(w).enemies,
            w.names == old(w).names,
            w.combat_stats == old(w).combat_stats,
            w.blocks_tile == old(w).blocks_tile,
            w.suffer_damage == old(w).suffer_damage,
            w.wants_to_melee == old(w).wants_to_melee,
            forall|k: int|
                e <= k < n ==> w.positions@[k] == (#[trigger] old(w).positions@[k]),
            forall|k: int|
                0 <= k < e && !(old(w).alive@[k] && old(w).players@[k] is Some && old(w).positions@[k] is Some) ==> w.positions@[k] == (#[trigger] old(w).positions@[k]),
            forall|k: int|
                0 <= k < e && old(w).alive@[k] && old(w).players@[k] is Some && (#[trigger] old(w).positions@[k]) is Some ==> (match w.positions@[k] {
                    Some(p) => p.x == center.0 && p.y == center.1,
                    None => false,
                }),
        decreases n - e,
    {
        let ghost wpre = *w;
        if w.alive[e] && w.players[e].is_some() && w.positions[e].is_some() {
            w.positions[e] = Some(Position { x: center.0, y: center.1 });
        }
        proof {
            assert forall|k: int| e + 1 <= k < n implies w.positions@[k] == (#[trigger] old(w).positions@[k]) by {
                assert(w.positions@[k] == wpre.positions@[k]);
                assert(wpre.positions@[k] == old(w).positions@[k]);
            }
        }
        e = e + 1;
    }
    map
}

} // verus!
