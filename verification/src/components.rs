//! Per-entity components: position, rendering data, sight, combat
//! statistics, one-step intents and accumulators, and marker tags.

use vstd::prelude::*;

verus! {

/// An entity's tile coordinate. Movement systems keep it within the
/// map's bounds.
#[derive(Clone, Copy, PartialEq, Eq, Structural, Debug)]
pub struct Position {
    pub x: i32,
    pub y: i32,
}

impl Position {
    pub fn from_tuple(t: (i32, i32)) -> (p: Position)
        ensures
            p == (Position { x: t.0, y: t.1 }),
    {
        Position { x: t.0, y: t.1 }
    }
}

/// A color channel triple; the rendering host converts it to its own
/// color type.
#[derive(Clone, Copy, PartialEq, Eq, Structural, Debug)]
pub struct ColorTriple {
    pub r: u8,
    pub g: u8,
    pub b: u8,
}

/// What the rendering host draws for an entity.
#[derive(Clone, Copy, PartialEq, Eq, Structural, Debug)]
pub struct Renderable {
    pub glyph: u16,
    pub fg: ColorTriple,
    pub bg: ColorTriple,
}

/// Marker for the demo system that drifts an entity leftward.
#[derive(Clone, Copy, Debug)]
pub struct LeftMover {}

/// The leftward-drift demo system.
pub struct LeftWalker {}

/// An entity's sight: the tiles currently visible from its position,
/// its sight range, and a recompute-needed flag.
#[derive(Clone, Debug)]
pub struct Viewshed {
    pub visible_tiles: Vec<(i32, i32)>,
    pub range: i32,
    pub dirty: bool,
}

impl Viewshed {
    pub fn new(range: i32) -> (v: Viewshed)
        ensures
            v.visible_tiles@ == Seq::<(i32, i32)>::empty(),
            v.range == range,
            v.dirty,
    {
        Viewshed { visible_tiles: Vec::new(), range, dirty: true }
    }
}

/// Marker: the entity occupies its tile exclusively.
#[derive(Clone, Copy, Debug)]
pub struct BlocksTile {}

/// A display name.
#[derive(Clone, Debug)]
pub struct Name {
    pub name: String,
}

/// Marker: a hostile actor driven by the pursuit decision loop.
#[derive(Clone, Copy, Debug)]
pub struct Enemy {}

/// Marker: the player-controlled entity.
#[derive(Clone, Copy, Debug)]
pub struct Player {}

/// Combat statistics; `hp` may go negative transiently before the
/// death sweep removes the entity.
#[derive(Clone, Copy, PartialEq, Eq, Structural, Debug)]
pub struct CombatStats {
    pub max_hp: i32,
    pub hp: i32,
    pub defense: i32,
    pub power: i32,
}

/// A one-step melee intent, cleared unconditionally after the intent
/// resolution stage runs.
#[derive(Clone, Copy, PartialEq, Eq, Structural, Debug)]
pub struct WantsToMelee {
    pub target: usize,
}

/// A one-step accumulator of damage suffered this step; simultaneous
/// attackers each append an entry.
#[derive(Clone, Debug)]
pub struct SufferDamage {
    pub amount: Vec<i32>,
}

/// The damage entries an accumulator slot holds; an absent slot holds
/// none.
pub open spec fn amounts_of(s: Option<SufferDamage>) -> Seq<i32> {
    match s {
        Some(d) => d.amount@,
        None => Seq::<i32>::empty(),
    }
}

impl SufferDamage {
    /// Appends a damage entry to the victim's accumulator, creating
    /// the accumulator if the victim has none yet.
    pub fn new_damage(store: &mut Vec<Option<SufferDamage>>, victim: usize, amount: i32)
        requires
            victim < old(store)@.len(),
        ensures
            final(store)@.len() == old(store)@.len(),
            amounts_of(final(store)@[victim as int]) == amounts_of(
                old(store)@[victim as int],
            ).push(amount),
            final(store)@[victim as int] is Some,
            forall|k: int|
                0 <= k < old(store)@.len() && k != victim ==> final(store)@[k] == old(store)@[k],
    {
        let slot = &mut store[victim];
        match slot {
            Some(suffering) => {
                suffering.amount.push(amount);
            },
            None => {
                *slot = Some(SufferDamage { amount: vec![amount] });
            },
        }
    }
}

} // verus!
