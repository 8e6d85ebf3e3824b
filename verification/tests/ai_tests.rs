use dungeon_core::ai_system::EnemyAI;
use dungeon_core::components::{
    BlocksTile, CombatStats, Enemy, Name, Player, Position, Viewshed, WantsToMelee,
};
use dungeon_core::map::{GameMap, TileType};
use dungeon_core::pathfind::path_search;
use dungeon_core::player::try_move_player;
use dungeon_core::sim::{advance_step, regenerate};
use dungeon_core::world::World;

fn open_map() -> GameMap {
    let mut m = GameMap {
        tiles: vec![TileType::Floor; 80 * 50],
        rooms: Vec::new(),
        width: 80,
        height: 50,
        revealed_tiles: vec![false; 80 * 50],
        visible_tiles: vec![false; 80 * 50],
        blocked: vec![false; 80 * 50],
        tile_content: vec![Vec::new(); 80 * 50],
    };
    m.populate_blocked();
    m
}

fn spawn_enemy(w: &mut World, x: i32, y: i32, sees: Vec<(i32, i32)>) -> usize {
    let id = w.spawn();
    w.insert_position(id, Position { x, y });
    w.insert_enemy(id, Enemy {});
    w.insert_blocks_tile(id, BlocksTile {});
    w.insert_name(id, Name { name: "raider".to_string() });
    w.insert_viewshed(id, Viewshed { visible_tiles: sees, range: 8, dirty: false });
    w.insert_combat_stats(id, CombatStats { max_hp: 5, hp: 5, defense: 1, power: 1 });
    id
}

fn spawn_player(w: &mut World, x: i32, y: i32) -> usize {
    let id = w.spawn();
    w.insert_position(id, Position { x, y });
    w.insert_player(id, Player {});
    w.insert_blocks_tile(id, BlocksTile {});
    w.insert_name(id, Name { name: "hero".to_string() });
    w.insert_viewshed(id, Viewshed::new(8));
    w.insert_combat_stats(id, CombatStats { max_hp: 20, hp: 20, defense: 1, power: 3 });
    id
}

fn pos_of(w: &World, e: usize) -> (i32, i32) {
    let p = w.positions[e].unwrap();
    (p.x, p.y)
}

#[test]
fn diagonal_neighbor_triggers_melee_not_pathing() {
    let mut m = open_map();
    let mut w = World::new();
    let player = spawn_player(&mut w, 6, 6);
    let e = spawn_enemy(&mut w, 5, 5, vec![(6, 6)]);
    let ei = m.xy_idx(5, 5);
    m.blocked[ei] = true;
    EnemyAI::run(&mut w, &mut m, (6, 6), player);
    assert_eq!(w.wants_to_melee[e], Some(WantsToMelee { target: player }));
    assert_eq!(pos_of(&w, e), (5, 5));
}

#[test]
fn distance_two_paths_when_visible_and_idles_when_not() {
    let mut m = open_map();
    let mut w = World::new();
    let player = spawn_player(&mut w, 7, 5);
    let seeing = spawn_enemy(&mut w, 5, 5, vec![(7, 5)]);
    // At Euclidean distance exactly two but without sight of the
    // target, an actor neither attacks nor paths.
    let blind = spawn_enemy(&mut w, 7, 7, Vec::new());
    let i1 = m.xy_idx(5, 5);
    let i2 = m.xy_idx(7, 7);
    m.blocked[i1] = true;
    m.blocked[i2] = true;
    EnemyAI::run(&mut w, &mut m, (7, 5), player);
    assert!(w.wants_to_melee[seeing].is_none());
    assert_eq!(pos_of(&w, seeing), (6, 5));
    assert!(w.wants_to_melee[blind].is_none());
    assert_eq!(pos_of(&w, blind), (7, 7));
}

#[test]
fn corridor_pursuit_steps_one_tile_per_turn_toward_the_target() {
    let mut m = open_map();
    let mut w = World::new();
    let player = spawn_player(&mut w, 15, 25);
    let e = spawn_enemy(&mut w, 10, 25, vec![(15, 25)]);
    let ei = m.xy_idx(10, 25);
    m.blocked[ei] = true;
    for expected_x in [11, 12, 13] {
        EnemyAI::run(&mut w, &mut m, (15, 25), player);
        assert_eq!(pos_of(&w, e), (expected_x, 25));
        assert!(w.wants_to_melee[e].is_none());
    }
    // One more step reaches (14, 25); the turn after that is adjacent.
    EnemyAI::run(&mut w, &mut m, (15, 25), player);
    assert_eq!(pos_of(&w, e), (14, 25));
    EnemyAI::run(&mut w, &mut m, (15, 25), player);
    assert_eq!(pos_of(&w, e), (14, 25));
    assert_eq!(w.wants_to_melee[e], Some(WantsToMelee { target: player }));
}

#[test]
fn pursuit_never_enters_an_occupied_tile() {
    let mut m = open_map();
    let mut w = World::new();
    let player = spawn_player(&mut w, 15, 25);
    let e = spawn_enemy(&mut w, 10, 25, vec![(15, 25)]);
    let rival = spawn_enemy(&mut w, 11, 25, Vec::new());
    let i1 = m.xy_idx(10, 25);
    let i2 = m.xy_idx(11, 25);
    m.blocked[i1] = true;
    m.blocked[i2] = true;
    EnemyAI::run(&mut w, &mut m, (15, 25), player);
    let p = pos_of(&w, e);
    assert_ne!(p, (11, 25));
    assert_ne!(p, pos_of(&w, rival));
    let moved = (p.0 - 10).abs() + (p.1 - 25).abs();
    assert!(moved <= 1);
}

#[test]
fn shortest_path_hugs_the_straight_corridor() {
    let mut m = open_map();
    m.populate_blocked();
    let start = m.xy_idx(10, 25);
    let goal = m.xy_idx(15, 25);
    let path = path_search(&m, start, goal).unwrap();
    assert_eq!(path.len(), 6);
    assert_eq!(path[0], start);
    assert_eq!(path[5], goal);
    assert_eq!(path[1], m.xy_idx(11, 25));
}

#[test]
fn walls_turn_the_path_and_blocked_goals_fail() {
    let mut m = open_map();
    let wall = m.xy_idx(11, 25);
    m.tiles[wall] = TileType::Wall;
    m.populate_blocked();
    let start = m.xy_idx(10, 25);
    let goal = m.xy_idx(12, 25);
    let path = path_search(&m, start, goal).unwrap();
    // The detour around one wall cell costs exactly two extra moves.
    assert_eq!(path.len(), 5);
    assert!(!path.contains(&wall));
    // A goal sealed on all four sides is unreachable.
    for (x, y) in [(20, 24), (20, 26), (19, 25), (21, 25)] {
        let i = m.xy_idx(x, y);
        m.blocked[i] = true;
    }
    assert!(path_search(&m, start, m.xy_idx(20, 25)).is_none());
}

#[test]
fn player_movement_respects_blocking() {
    let m = {
        let mut m = open_map();
        let i = m.xy_idx(6, 5);
        m.blocked[i] = true;
        m
    };
    let mut w = World::new();
    let player = spawn_player(&mut w, 5, 5);
    try_move_player(1, 0, &mut w, &m);
    assert_eq!(pos_of(&w, player), (5, 5));
    try_move_player(0, 1, &mut w, &m);
    assert_eq!(pos_of(&w, player), (5, 6));
    assert!(w.viewsheds[player].as_ref().unwrap().dirty);
}

#[test]
fn left_walker_wraps_at_the_west_edge() {
    let mut w = World::new();
    let id = w.spawn();
    w.insert_position(id, Position { x: 0, y: 7 });
    w.insert_left_mover(id, dungeon_core::components::LeftMover {});
    dungeon_core::components::LeftWalker::run(&mut w);
    assert_eq!(pos_of(&w, id), (79, 7));
    let other = w.spawn();
    w.insert_position(other, Position { x: 10, y: 7 });
    w.insert_left_mover(other, dungeon_core::components::LeftMover {});
    dungeon_core::components::LeftWalker::run(&mut w);
    assert_eq!(pos_of(&w, other), (9, 7));
}

#[test]
fn a_full_step_resolves_adjacent_melee_and_clears_records() {
    let mut m = open_map();
    let mut w = World::new();
    let player = spawn_player(&mut w, 6, 6);
    let e = spawn_enemy(&mut w, 5, 5, vec![(6, 6)]);
    w.insert_combat_stats(e, CombatStats { max_hp: 5, hp: 5, defense: 1, power: 3 });
    let i1 = m.xy_idx(5, 5);
    let i2 = m.xy_idx(6, 6);
    m.blocked[i1] = true;
    m.blocked[i2] = true;
    advance_step(&mut w, &mut m, player);
    // The adjacent enemy lands power minus defense on the player.
    assert_eq!(w.combat_stats[player].unwrap().hp, 18);
    assert!(w.wants_to_melee.iter().all(|i| i.is_none()));
    assert!(w.suffer_damage.iter().all(|s| s.is_none()));
}

#[test]
fn regenerate_anchors_the_player_to_the_first_room() {
    let mut w = World::new();
    let player = spawn_player(&mut w, 1, 1);
    let m = regenerate(&mut w, true, 0);
    assert_eq!(m.rooms_n(), 1);
    let c = m.rooms[0].center();
    assert_eq!(pos_of(&w, player), c);
    let m2 = regenerate(&mut w, false, 99);
    assert!(m2.rooms_n() >= 1);
    let c2 = m2.rooms[0].center();
    assert_eq!(pos_of(&w, player), c2);
}
