//! The combat resolution pipeline, three strictly ordered stages:
//! intent resolution (melee intents become damage accumulator
//! entries), damage application (accumulated damage is deducted from
//! hit points), and the death sweep (entities at non-positive hit
//! points are removed, the player excepted).

use vstd::prelude::*;
use crate::components::{CombatStats, SufferDamage, amounts_of};
use crate::world::World;

verus! {

/// The attacker qualifies for intent resolution: alive, named, with an
/// intent and combat statistics, and itself still above zero hit
/// points.
pub open spec fn attacker_acts(w: World, a: int) -> bool {
    &&& 0 <= a < w.spec_len()
    &&& w.alive@[a]
    &&& w.wants_to_melee@[a] is Some
    &&& w.names@[a] is Some
    &&& match w.combat_stats@[a] {
        Some(s) => s.hp > 0,
        None => false,
    }
}

/// The entity the attacker's intent names.
pub open spec fn attack_target(w: World, a: int) -> int {
    match w.wants_to_melee@[a] {
        Some(i) => i.target as int,
        None => 0,
    }
}

/// Melee damage: attacker power minus target defense, floored at zero.
pub open spec fn attack_damage(w: World, a: int, t: int) -> int {
    match (w.combat_stats@[a], w.combat_stats@[t]) {
        (Some(sa), Some(st)) => if sa.power - st.defense > 0 {
            sa.power - st.defense
        } else {
            0
        },
        _ => 0,
    }
}

/// The attacker lands a damage entry on `t` this step: it qualifies,
/// its intent names `t`, the target still has positive hit points, and
/// the damage is positive. A zero-damage swing leaves no entry.
pub open spec fn attacker_hits(w: World, a: int, t: int) -> bool {
    &&& attacker_acts(w, a)
    &&& attack_target(w, a) == t
    &&& 0 <= t < w.spec_len()
    &&& match w.combat_stats@[t] {
        Some(st) => st.hp > 0,
        None => false,
    }
    &&& attack_damage(w, a, t) > 0
}

/// The damage entries appended to `t`'s accumulator by the attackers
/// with index below `k`, in attacker order.
pub open spec fn inflicted_upto(w: World, t: int, k: int) -> Seq<i32>
    decreases k,
{
    if k <= 0 {
        Seq::<i32>::empty()
    } else if attacker_hits(w, k - 1, t) {
        inflicted_upto(w, t, k - 1).push(attack_damage(w, k - 1, t) as i32)
    } else {
        inflicted_upto(w, t, k - 1)
    }
}

/// Machine limit: every qualifying attacker's power minus its target's
/// defense fits the damage word.
pub open spec fn melee_damage_fits(w: World) -> bool {
    forall|a: int|
        0 <= a < w.spec_len() && #[trigger] attacker_acts(w, a) ==> match (
        w.combat_stats@[a],
        w.combat_stats@[attack_target(w, a)],
    ) {
        (Some(sa), Some(st)) => sa.power - st.defense <= i32::MAX,
        _ => true,
    }
}

/// Targets of qualifying attackers are structurally present: alive,
/// with combat statistics and a name. Entities are only removed by the
/// death sweep, after intent resolution ran, so intents held at this
/// stage always resolve.
pub open spec fn melee_targets_resolvable(w: World) -> bool {
    forall|a: int|
        0 <= a < w.spec_len() && #[trigger] attacker_acts(w, a) ==> w.combat_stats@[attack_target(
            w,
            a,
        )] is Some && w.names@[attack_target(w, a)] is Some
}

/// The sum of a damage accumulator's entries.
pub open spec fn seq_sum(s: Seq<i32>) -> int
    decreases s.len(),
{
    if s.len() == 0 {
        0
    } else {
        seq_sum(s.drop_last()) + s.last()
    }
}

/// Machine limit: summing each accumulator left to right stays within
/// the hit-point word, and so does the final deduction.
pub open spec fn damage_sums_fit(w: World) -> bool {
    forall|e: int|
        0 <= e < w.spec_len() && (#[trigger] w.suffer_damage@[e]) is Some ==> {
            &&& forall|k: int|
                0 <= k <= amounts_of(w.suffer_damage@[e]).len() ==> i32::MIN <= #[trigger] seq_sum(
                    amounts_of(w.suffer_damage@[e]).take(k),
                ) <= i32::MAX
            &&& match w.combat_stats@[e] {
                Some(s) => i32::MIN <= s.hp - seq_sum(amounts_of(w.suffer_damage@[e])) <= i32::MAX,
                None => true,
            }
        }
}

/// The entity dies in the sweep: alive, at non-positive hit points,
/// and not the player-controlled entity.
pub open spec fn should_die(w: World, e: int) -> bool {
    &&& 0 <= e < w.spec_len()
    &&& w.alive@[e]
    &&& match w.combat_stats@[e] {
        Some(s) => s.hp < 1,
        None => false,
    }
    &&& w.players@[e] is None
}

/// Entity `e` carries the same state in both worlds.
pub open spec fn entity_unchanged(a: World, b: World, e: int) -> bool {
    &&& a.alive@[e] == b.alive@[e]
    &&& a.positions@[e] == b.positions@[e]
    &&& a.renderables@[e] == b.renderables@[e]
    &&& a.viewsheds@[e] == b.viewsheds@[e]
    &&& a.left_movers@[e] == b.left_movers@[e]
    &&& a.players@[e] == b.players@[e]
    &&& a.enemies@[e] == b.enemies@[e]
    &&& a.names@[e] == b.names@[e]
    &&& a.combat_stats@[e] == b.combat_stats@[e]
    &&& a.blocks_tile@[e] == b.blocks_tile@[e]
    &&& a.suffer_damage@[e] == b.suffer_damage@[e]
    &&& a.wants_to_melee@[e] == b.wants_to_melee@[e]
}

/// The slot's content after a conditional removal: cleared when the
/// condition holds, the original otherwise.
pub open spec fn cleared_or<T>(cond: bool, orig: Option<T>) -> Option<T> {
    if cond {
        None
    } else {
        orig
    }
}

/// Entity `e` has been removed: dead slot, no components.
pub open spec fn entity_cleared(w: World, e: int) -> bool {
    &&& !w.alive@[e]
    &&& w.positions@[e] is None
    &&& w.renderables@[e] is None
    &&& w.viewsheds@[e] is None
    &&& w.left_movers@[e] is None
    &&& w.players@[e] is None
    &&& w.enemies@[e] is None
    &&& w.names@[e] is None
    &&& w.combat_stats@[e] is None
    &&& w.blocks_tile@[e] is None
    &&& w.suffer_damage@[e] is None
    &&& w.wants_to_melee@[e] is None
}

/// Stage one of the pipeline.
pub struct MeleeCombatSystem {}

/// Stage two and the death sweep.
pub struct DamageSystem {}

impl MeleeCombatSystem {
    /// Intent resolution: every qualifying attacker whose target still
    /// has positive hit points appends `max(0, power - defense)` to
    /// the target's accumulator when that is positive; all melee
    /// intents are then cleared unconditionally.
    pub fn run(w: &mut World)
        requires
            old(w).inv(),
            melee_damage_fits(*old(w)),
            melee_targets_resolvable(*old(w)),
        ensures
            final(w).inv(),
            final(w).spec_len() == old(w).spec_len(),
            forall|e: int| 0 <= e < final(w).spec_len() ==> final(w).wants_to_melee@[e] is None,
            forall|t: int|
                0 <= t < final(w).spec_len() ==> amounts_of(#[trigger] final(w).suffer_damage@[t])
                    == amounts_of(old(w).suffer_damage@[t]) + inflicted_upto(
                    *old(w),
                    t,
                    old(w).spec_len(),
                ),
            forall|t: int|
                0 <= t < final(w).spec_len() ==> ((#[trigger] final(w).suffer_damage@[t]) is Some
                    <==> (old(w).suffer_damage@[t] is Some || inflicted_upto(
                    *old(w),
                    t,
                    old(w).spec_len(),
                ).len() > 0)),
            final(w).alive == old(w).alive,
            final(w).positions == old(w).positions,
            final(w).renderables == old(w).renderables,
            final(w).viewsheds == old(w).viewsheds,
            final(w).left_movers == old(w).left_movers,
            final(w).players == old(w).players,
            final(w).enemies == old(w).enemies,
            final(w).names == old(w).names,
            final(w).combat_stats == old(w).combat_stats,
            final(w).blocks_tile == old(w).blocks_tile,
    {
        let n = w.len();
        let mut a: usize = 0;
        while a < n
            invariant
                w.inv(),
                n == w.spec_len(),
                a <= n,
                melee_damage_fits(*old(w)),
                melee_targets_resolvable(*old(w)),
                w.alive == old(w).alive,
                w.positions == old(w).positions,
                w.renderables == old(w).renderables,
                w.viewsheds == old(w).viewsheds,
                w.left_movers == old(w).left_movers,
                w.players == old(w).players,
                w.enemies == old(w).enemies,
                w.names == old(w).names,
                w.combat_stats == old(w).combat_stats,
                w.blocks_tile == old(w).blocks_tile,
                w.wants_to_melee == old(w).wants_to_melee,
                forall|t: int|
                    0 <= t < n ==> amounts_of(#[trigger] w.suffer_damage@[t]) == amounts_of(
                        old(w).suffer_damage@[t],
                    ) + inflicted_upto(*old(w), t, a as int),
                forall|t: int|
                    0 <= t < n ==> ((#[trigger] w.suffer_damage@[t]) is Some <==> (
                    old(w).suffer_damage@[t] is Some || inflicted_upto(
                        *old(w),
                        t,
                        a as int,
                    ).len() > 0)),
            decreases n - a,
        {
            let acts = w.alive[a] && w.wants_to_melee[a].is_some() && w.names[a].is_some()
                && (match w.combat_stats[a] {
                Some(s) => s.hp > 0,
                None => false,
            });
            proof {
                assert(acts == attacker_acts(*old(w), a as int));
            }
            if acts {
                let target = match w.wants_to_melee[a] {
                    Some(i) => i.target,
                    None => 0,
                };
                let sa = match w.combat_stats[a] {
                    Some(s) => s,
                    None => CombatStats { max_hp: 0, hp: 0, defense: 0, power: 0 },
                };
                let st = match w.combat_stats[target] {
                    Some(s) => s,
                    None => CombatStats { max_hp: 0, hp: 0, defense: 0, power: 0 },
                };
                if st.hp > 0 {
                    let d64: i64 = sa.power as i64 - st.defense as i64;
                    if d64 > 0 {
                        let damage: i32 = d64 as i32;
                        proof {
                            assert(damage == attack_damage(*old(w), a as int, target as int));
                            assert(attacker_hits(*old(w), a as int, target as int));
                        }
                        SufferDamage::new_damage(&mut w.suffer_damage, target, damage);
                    }
                }
            }
            a = a + 1;
        }
        let mut e: usize = 0;
        while e < n
            invariant
                w.inv(),
                n == w.spec_len(),
                e <= n,
                w.alive == old(w).alive,
                w.positions == old(w).positions,
                w.renderables == old(w).renderables,
                w.viewsheds == old(w).viewsheds,
                w.left_movers == old(w).left_movers,
                w.players == old(w).players,
                w.enemies == old(w).enemies,
                w.names == old(w).names,
                w.combat_stats == old(w).combat_stats,
                w.blocks_tile == old(w).blocks_tile,
                forall|k: int| 0 <= k < e ==> (#[trigger] w.wants_to_melee@[k]) is None,
                forall|t: int|
                    0 <= t < n ==> amounts_of(#[trigger] w.suffer_damage@[t]) == amounts_of(
                        old(w).suffer_damage@[t],
                    ) + inflicted_upto(*old(w), t, n as int),
                forall|t: int|
                    0 <= t < n ==> ((#[trigger] w.suffer_damage@[t]) is Some <==> (
                    old(w).suffer_damage@[t] is Some || inflicted_upto(
                        *old(w),
                        t,
                        n as int,
                    ).len() > 0)),
            decreases n - e,
        {
            w.wants_to_melee[e] = None;
            e = e + 1;
        }
    }
}

impl DamageSystem {
    /// Damage application: every entity holding both combat statistics
    /// and an accumulator loses the accumulator's sum from its hit
    /// points (which may go negative); all accumulators are then
    /// cleared unconditionally.
    pub fn run(w: &mut World)
        requires
            old(w).inv(),
            damage_sums_fit(*old(w)),
        ensures
            final(w).inv(),
            final(w).spec_len() == old(w).spec_len(),
            forall|e: int| 0 <= e < final(w).spec_len() ==> (#[trigger] final(w).suffer_damage@[e]) is None,
            forall|e: int|
                0 <= e < final(w).spec_len() && old(w).combat_stats@[e] is Some && old(
                    w,
                ).suffer_damage@[e] is Some ==> (#[trigger] final(w).combat_stats@[e]) == (match old(
                    w,
                ).combat_stats@[e] {
                    Some(s) => Some(
                        CombatStats {
                            hp: (s.hp - seq_sum(amounts_of(old(w).suffer_damage@[e]))) as i32,
                            ..s
                        },
                    ),
                    None => None,
                }),
            forall|e: int|
                0 <= e < final(w).spec_len() && !(old(w).combat_stats@[e] is Some && old(
                    w,
                ).suffer_damage@[e] is Some) ==> (#[trigger] final(w).combat_stats@[e]) == old(
                    w,
                ).combat_stats@[e],
            final(w).alive == old(w).alive,
            final(w).positions == old(w).positions,
            final(w).renderables == old(w).renderables,
            final(w).viewsheds == old(w).viewsheds,
            final(w).left_movers == old(w).left_movers,
            final(w).players == old(w).players,
            final(w).enemies == old(w).enemies,
            final(w).names == old(w).names,
            final(w).blocks_tile == old(w).blocks_tile,
            final(w).wants_to_melee == old(w).wants_to_melee,
    {
        let n = w.len();
        let mut e: usize = 0;
        while e < n
            invariant
                w.inv(),
                old(w).inv(),
                n == w.spec_len(),
                n == old(w).spec_len(),
                e <= n,
                damage_sums_fit(*old(w)),
                w.alive == old(w).alive,
                w.positions == old(w).positions,
                w.renderables == old(w).renderables,
                w.viewsheds == old(w).viewsheds,
                w.left_movers == old(w).left_movers,
                w.players == old(w).players,
                w.enemies == old(w).enemies,
                w.names == old(w).names,
                w.blocks_tile == old(w).blocks_tile,
                w.wants_to_melee == old(w).wants_to_melee,
                w.suffer_damage == old(w).suffer_damage,
                forall|v: int|
                    0 <= v < e && old(w).combat_stats@[v] is Some && old(w).suffer_damage@[v] is Some
                        ==> (#[trigger] w.combat_stats@[v]) == (match old(w).combat_stats@[v] {
                        Some(s) => Some(
                            CombatStats {
                                hp: (s.hp - seq_sum(amounts_of(old(w).suffer_damage@[v]))) as i32,
                                ..s
                            },
                        ),
                        None => None,
                    }),
                forall|v: int|
                    0 <= v < n && !(v < e && old(w).combat_stats@[v] is Some && old(
                        w,
                    ).suffer_damage@[v] is Some) ==> (#[trigger] w.combat_stats@[v]) == old(
                        w,
                    ).combat_stats@[v],
            decreases n - e,
        {
            let has_both = w.combat_stats[e].is_some() && w.suffer_damage[e].is_some();
            if has_both {
                let ghost amts = amounts_of(old(w).suffer_damage@[e as int]);
                let m = match &w.suffer_damage[e] {
                    Some(d) => d.amount.len(),
                    None => 0,
                };
                let mut total: i32 = 0;
                let mut k: usize = 0;
                proof {
                    assert(amts.take(0) =~= Seq::<i32>::empty());
                }
                while k < m
                    invariant
                        w.inv(),
                        old(w).inv(),
                        n == w.spec_len(),
                        n == old(w).spec_len(),
                        e < n,
                        damage_sums_fit(*old(w)),
                        w.suffer_damage == old(w).suffer_damage,
                        old(w).suffer_damage@[e as int] is Some,
                        amts == amounts_of(old(w).suffer_damage@[e as int]),
                        m == amts.len(),
                        k <= m,
                        total == seq_sum(amts.take(k as int)),
                    decreases m - k,
                {
                    let v = match &w.suffer_damage[e] {
                        Some(d) => d.amount[k],
                        None => 0,
                    };
                    proof {
                        assert(amts.take(k as int + 1).drop_last() =~= amts.take(k as int));
                        assert(amts.take(k as int + 1).last() == amts[k as int]);
                        assert(seq_sum(amts.take(k as int + 1)) == seq_sum(amts.take(k as int))
                            + amts[k as int]);
                        assert(i32::MIN <= seq_sum(
                            amounts_of(old(w).suffer_damage@[e as int]).take(k as int + 1),
                        ) <= i32::MAX);
                    }
                    total = total + v;
                    k = k + 1;
                }
                proof {
                    assert(amts.take(m as int) =~= amts);
                }
                let s = match w.combat_stats[e] {
                    Some(s) => s,
                    None => CombatStats { max_hp: 0, hp: 0, defense: 0, power: 0 },
                };
                w.combat_stats[e] = Some(
                    CombatStats { max_hp: s.max_hp, hp: s.hp - total, defense: s.defense, power: s.power },
                );
            }
            e = e + 1;
        }
        let mut e2: usize = 0;
        while e2 < n
            invariant
                w.inv(),
                old(w).inv(),
                n == w.spec_len(),
                n == old(w).spec_len(),
                e2 <= n,
                w.alive == old(w).alive,
                w.positions == old(w).positions,
                w.renderables == old(w).renderables,
                w.viewsheds == old(w).viewsheds,
                w.left_movers == old(w).left_movers,
                w.players == old(w).players,
                w.enemies == old(w).enemies,
                w.names == old(w).names,
                w.blocks_tile == old(w).blocks_tile,
                w.wants_to_melee == old(w).wants_to_melee,
                forall|v: int| 0 <= v < e2 ==> (#[trigger] w.suffer_damage@[v]) is None,
                forall|v: int|
                    0 <= v < n && old(w).combat_stats@[v] is Some && old(w).suffer_damage@[v] is Some
                        ==> (#[trigger] w.combat_stats@[v]) == (match old(w).combat_stats@[v] {
                        Some(s) => Some(
                            CombatStats {
                                hp: (s.hp - seq_sum(amounts_of(old(w).suffer_damage@[v]))) as i32,
                                ..s
                            },
                        ),
                        None => None,
                    }),
                forall|v: int|
                    0 <= v < n && !(old(w).combat_stats@[v] is Some && old(w).suffer_damage@[v] is Some)
                        ==> (#[trigger] w.combat_stats@[v]) == old(w).combat_stats@[v],
            decreases n - e2,
        {
            w.suffer_damage[e2] = None;
            e2 = e2 + 1;
        }
    }

    /// Death sweep: every entity at fewer than one hit point is marked
    /// for removal — unless it is the player-controlled entity, whose
    /// death is the host's to report — and the marked entities are
    /// then removed at a single commit point.
    #[verifier::rlimit(100)]
    pub fn delete_the_dead(w: &mut World)
        requires
            old(w).inv(),
        ensures
            final(w).inv(),
            final(w).spec_len() == old(w).spec_len(),
            forall|e: int| #[trigger] should_die(*old(w), e) ==> entity_cleared(*final(w), e),
            forall|e: int|
                0 <= e < old(w).spec_len() && !(#[trigger] should_die(*old(w), e)) ==> entity_unchanged(
                    *old(w),
                    *final(w),
                    e,
                ),
    {
        let n = w.len();
        let mut dead: Vec<bool> = Vec::new();
        let mut e: usize = 0;
        while e < n
            invariant
                w.inv(),
                old(w).inv(),
                n == w.spec_len(),
                n == old(w).spec_len(),
                e <= n,
                *w == *old(w),
                dead@.len() == e,
                forall|k: int| 0 <= k < e ==> #[trigger] dead@[k] == should_die(*old(w), k),
            decreases n - e,
        {
            let flag = w.alive[e] && (match w.combat_stats[e] {
                Some(s) => s.hp < 1,
                None => false,
            }) && w.players[e].is_none();
            dead.push(flag);
            e = e + 1;
        }
        let ghost base = *w;
        let mut e2: usize = 0;
        while e2 < n
            invariant
                w.inv(),
                base.inv(),
                base == *old(w),
                n == w.spec_len(),
                n == base.spec_len(),
                e2 <= n,
                dead@.len() == n,
                forall|k: int| 0 <= k < n ==> #[trigger] dead@[k] == should_die(base, k),
                forall|v: int|
                    0 <= v < n ==> #[trigger] w.alive@[v] == (base.alive@[v] && !(v < e2
                        && dead@[v])),
                forall|v: int|
                    0 <= v < n ==> #[trigger] w.positions@[v] == cleared_or(
                        v < e2 && dead@[v],
                        base.positions@[v],
                    ),
                forall|v: int|
                    0 <= v < n ==> #[trigger] w.renderables@[v] == cleared_or(
                        v < e2 && dead@[v],
                        base.renderables@[v],
                    ),
                forall|v: int|
                    0 <= v < n ==> #[trigger] w.viewsheds@[v] == cleared_or(
                        v < e2 && dead@[v],
                        base.viewsheds@[v],
                    ),
                forall|v: int|
                    0 <= v < n ==> #[trigger] w.left_movers@[v] == cleared_or(
                        v < e2 && dead@[v],
                        base.left_movers@[v],
                    ),
                forall|v: int|
                    0 <= v < n ==> #[trigger] w.players@[v] == cleared_or(
                        v < e2 && dead@[v],
                        base.players@[v],
                    ),
                forall|v: int|
                    0 <= v < n ==> #[trigger] w.enemies@[v] == cleared_or(
                        v < e2 && dead@[v],
                        base.enemies@[v],
                    ),
                forall|v: int|
                    0 <= v < n ==> #[trigger] w.names@[v] == cleared_or(
                        v < e2 && dead@[v],
                        base.names@[v],
                    ),
                forall|v: int|
                    0 <= v < n ==> #[trigger] w.combat_stats@[v] == cleared_or(
                        v < e2 && dead@[v],
                        base.combat_stats@[v],
                    ),
                forall|v: int|
                    0 <= v < n ==> #[trigger] w.blocks_tile@[v] == cleared_or(
                        v < e2 && dead@[v],
                        base.blocks_tile@[v],
                    ),
                forall|v: int|
                    0 <= v < n ==> #[trigger] w.suffer_damage@[v] == cleared_or(
                        v < e2 && dead@[v],
                        base.suffer_damage@[v],
                    ),
                forall|v: int|
                    0 <= v < n ==> #[trigger] w.wants_to_melee@[v] == cleared_or(
                        v < e2 && dead@[v],
                        base.wants_to_melee@[v],
                    ),
            decreases n - e2,
        {
            if dead[e2] {
                w.delete_entity(e2);
            }
            e2 = e2 + 1;
        }
        proof {
            assert forall|e: int| #[trigger] should_die(*old(w), e) implies entity_cleared(*w, e) by {
                assert(dead@[e] == should_die(base, e));
                assert(w.alive@[e] == (base.alive@[e] && !(e < n && dead@[e])));
                assert(w.positions@[e] == cleared_or(e < n && dead@[e], base.positions@[e]));
            }
            assert forall|e: int|
                0 <= e < old(w).spec_len() && !(#[trigger] should_die(*old(w), e)) implies
                entity_unchanged(*old(w), *w, e) by {
                assert(dead@[e] == should_die(base, e));
                assert(w.alive@[e] == (base.alive@[e] && !(e < n && dead@[e])));
                assert(w.positions@[e] == cleared_or(e < n && dead@[e], base.positions@[e]));
            }
        }
    }
}

} // verus!
