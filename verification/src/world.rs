//! A typed entity registry: entity identifiers index sparse
//! per-component storages, and systems query storages by intersecting
//! them. Deleting an entity clears every storage slot it owned.

use vstd::prelude::*;
use crate::components::{
    Position, Renderable, Viewshed, LeftMover, Player, Enemy, Name, CombatStats, BlocksTile,
    SufferDamage, WantsToMelee,
};

verus! {

pub struct World {
    pub alive: Vec<bool>,
    pub positions: Vec<Option<Position>>,
    pub renderables: Vec<Option<Renderable>>,
    pub viewsheds: Vec<Option<Viewshed>>,
    pub left_movers: Vec<Option<LeftMover>>,
    pub players: Vec<Option<Player>>,
    pub enemies: Vec<Option<Enemy>>,
    pub names: Vec<Option<Name>>,
    pub combat_stats: Vec<Option<CombatStats>>,
    pub blocks_tile: Vec<Option<BlocksTile>>,
    pub suffer_damage: Vec<Option<SufferDamage>>,
    pub wants_to_melee: Vec<Option<WantsToMelee>>,
}

impl World {
    /// Number of entity slots ever allocated.
    pub open spec fn spec_len(self) -> int {
        self.alive@.len() as int
    }

    /// Every melee intent names an entity slot that exists; intents
    /// only ever target structurally present entities.
    pub open spec fn melee_targets_valid(self) -> bool {
        forall|e: int|
            0 <= e < self.spec_len() ==> match #[trigger] self.wants_to_melee@[e] {
                Some(w) => w.target < self.spec_len(),
                None => true,
            }
    }

    /// Structural well-formedness: one slot per entity in every
    /// storage, and intent targets in range.
    pub open spec fn inv(self) -> bool {
        &&& self.positions@.len() == self.spec_len()
        &&& self.renderables@.len() == self.spec_len()
        &&& self.viewsheds@.len() == self.spec_len()
        &&& self.left_movers@.len() == self.spec_len()
        &&& self.players@.len() == self.spec_len()
        &&& self.enemies@.len() == self.spec_len()
        &&& self.names@.len() == self.spec_len()
        &&& self.combat_stats@.len() == self.spec_len()
        &&& self.blocks_tile@.len() == self.spec_len()
        &&& self.suffer_damage@.len() == self.spec_len()
        &&& self.wants_to_melee@.len() == self.spec_len()
        &&& self.melee_targets_valid()
    }

    pub fn new() -> (w: World)
        ensures
            w.inv(),
            w.spec_len() == 0,
    {
        World {
            alive: Vec::new(),
            positions: Vec::new(),
            renderables: Vec::new(),
            viewsheds: Vec::new(),
            left_movers: Vec::new(),
            players: Vec::new(),
            enemies: Vec::new(),
            names: Vec::new(),
            combat_stats: Vec::new(),
            blocks_tile: Vec::new(),
            suffer_damage: Vec::new(),
            wants_to_melee: Vec::new(),
        }
    }

    pub fn len(&self) -> (n: usize)
        ensures
            n == self.spec_len(),
    {
        self.alive.len()
    }

    /// Allocates a fresh, live entity slot with no components.
    pub fn spawn(&mut self) -> (id: usize)
        requires
            old(self).inv(),
            old(self).spec_len() < usize::MAX,
        ensures
            final(self).inv(),
            id == old(self).spec_len(),
            final(self).spec_len() == old(self).spec_len() + 1,
            final(self).alive@ == old(self).alive@.push(true),
            final(self).positions@ == old(self).positions@.push(None),
            final(self).renderables@ == old(self).renderables@.push(None),
            final(self).viewsheds@ == old(self).viewsheds@.push(None),
            final(self).left_movers@ == old(self).left_movers@.push(None),
            final(self).players@ == old(self).players@.push(None),
            final(self).enemies@ == old(self).enemies@.push(None),
            final(self).names@ == old(self).names@.push(None),
            final(self).combat_stats@ == old(self).combat_stats@.push(None),
            final(self).blocks_tile@ == old(self).blocks_tile@.push(None),
            final(self).suffer_damage@ == old(self).suffer_damage@.push(None),
            final(self).wants_to_melee@ == old(self).wants_to_melee@.push(None),
    {
        let id = self.alive.len();
        self.alive.push(true);
        self.positions.push(None);
        self.renderables.push(None);
        self.viewsheds.push(None);
        self.left_movers.push(None);
        self.players.push(None);
        self.enemies.push(None);
        self.names.push(None);
        self.combat_stats.push(None);
        self.blocks_tile.push(None);
        self.suffer_damage.push(None);
        self.wants_to_melee.push(None);
        id
    }

    pub fn insert_position(&mut self, id: usize, c: Position)
        requires
            old(self).inv(),
            id < old(self).spec_len(),
        ensures
            final(self).inv(),
            final(self).positions@ == old(self).positions@.update(id as int, Some(c)),
            *final(self) == (World { positions: final(self).positions, ..*old(self) }),
    {
        self.positions[id] = Some(c);
    }

    pub fn insert_renderable(&mut self, id: usize, c: Renderable)
        requires
            old(self).inv(),
            id < old(self).spec_len(),
        ensures
            final(self).inv(),
            final(self).renderables@ == old(self).renderables@.update(id as int, Some(c)),
            *final(self) == (World { renderables: final(self).renderables, ..*old(self) }),
    {
        self.renderables[id] = Some(c);
    }

    pub fn insert_viewshed(&mut self, id: usize, c: Viewshed)
        requires
            old(self).inv(),
            id < old(self).spec_len(),
        ensures
            final(self).inv(),
            final(self).viewsheds@ == old(self).viewsheds@.update(id as int, Some(c)),
            *final(self) == (World { viewsheds: final(self).viewsheds, ..*old(self) }),
    {
        self.viewsheds[id] = Some(c);
    }

    pub fn insert_left_mover(&mut self, id: usize, c: LeftMover)
        requires
            old(self).inv(),
            id < old(self).spec_len(),
        ensures
            final(self).inv(),
            final(self).left_movers@ == old(self).left_movers@.update(id as int, Some(c)),
            *final(self) == (World { left_movers: final(self).left_movers, ..*old(self) }),
    {
        self.left_movers[id] = Some(c);
    }

    pub fn insert_player(&mut self, id: usize, c: Player)
        requires
            old(self).inv(),
            id < old(self).spec_len(),
        ensures
            final(self).inv(),
            final(self).players@ == old(self).players@.update(id as int, Some(c)),
            *final(self) == (World { players: final(self).players, ..*old(self) }),
    {
        self.players[id] = Some(c);
    }

    pub fn insert_enemy(&mut self, id: usize, c: Enemy)
        requires
            old(self).inv(),
            id < old(self).spec_len(),
        ensures
            final(self).inv(),
            final(self).enemies@ == old(self).enemies@.update(id as int, Some(c)),
            *final(self) == (World { enemies: final(self).enemies, ..*old(self) }),
    {
        self.enemies[id] = Some(c);
    }

    pub fn insert_name(&mut self, id: usize, c: Name)
        requires
            old(self).inv(),
            id < old(self).spec_len(),
        ensures
            final(self).inv(),
            final(self).names@ == old(self).names@.update(id as int, Some(c)),
            *final(self) == (World { names: final(self).names, ..*old(self) }),
    {
        self.names[id] = Some(c);
    }

    pub fn insert_combat_stats(&mut self, id: usize, c: CombatStats)
        requires
            old(self).inv(),
            id < old(self).spec_len(),
        ensures
            final(self).inv(),
            final(self).combat_stats@ == old(self).combat_stats@.update(id as int, Some(c)),
            *final(self) == (World { combat_stats: final(self).combat_stats, ..*old(self) }),
    {
        self.combat_stats[id] = Some(c);
    }

    pub fn insert_blocks_tile(&mut self, id: usize, c: BlocksTile)
        requires
            old(self).inv(),
            id < old(self).spec_len(),
        ensures
            final(self).inv(),
            final(self).blocks_tile@ == old(self).blocks_tile@.update(id as int, Some(c)),
            *final(self) == (World { blocks_tile: final(self).blocks_tile, ..*old(self) }),
    {
        self.blocks_tile[id] = Some(c);
    }

    pub fn insert_wants_to_melee(&mut self, id: usize, c: WantsToMelee)
        requires
            old(self).inv(),
            id < old(self).spec_len(),
            c.target < old(self).spec_len(),
        ensures
            final(self).inv(),
            final(self).wants_to_melee@ == old(self).wants_to_melee@.update(id as int, Some(c)),
            *final(self) == (World { wants_to_melee: final(self).wants_to_melee, ..*old(self) }),
    {
        self.wants_to_melee[id] = Some(c);
    }

    /// Removes an entity: its slot goes dead and every component it
    /// owned is dropped.
    pub fn delete_entity(&mut self, id: usize)
        requires
            old(self).inv(),
            id < old(self).spec_len(),
        ensures
            final(self).inv(),
            final(self).spec_len() == old(self).spec_len(),
            final(self).alive@ == old(self).alive@.update(id as int, false),
            final(self).positions@ == old(self).positions@.update(id as int, None),
            final(self).renderables@ == old(self).renderables@.update(id as int, None),
            final(self).viewsheds@ == old(self).viewsheds@.update(id as int, None),
            final(self).left_movers@ == old(self).left_movers@.update(id as int, None),
            final(self).players@ == old(self).players@.update(id as int, None),
            final(self).enemies@ == old(self).enemies@.update(id as int, None),
            final(self).names@ == old(self).names@.update(id as int, None),
            final(self).combat_stats@ == old(self).combat_stats@.update(id as int, None),
            final(self).blocks_tile@ == old(self).blocks_tile@.update(id as int, None),
            final(self).suffer_damage@ == old(self).suffer_damage@.update(id as int, None),
            final(self).wants_to_melee@ == old(self).wants_to_melee@.update(id as int, None),
    {
        self.alive[id] = false;
        self.positions[id] = None;
        self.renderables[id] = None;
        self.viewsheds[id] = None;
        self.left_movers[id] = None;
        self.players[id] = None;
        self.enemies[id] = None;
        self.names[id] = None;
        self.combat_stats[id] = None;
        self.blocks_tile[id] = None;
        self.suffer_damage[id] = None;
        self.wants_to_melee[id] = None;
    }
}

} // verus!
