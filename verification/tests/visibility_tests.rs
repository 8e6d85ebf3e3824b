use dungeon_core::components::{Name, Player, Position, Viewshed};
use dungeon_core::map::{GameMap, TileType};
use dungeon_core::visibility_system::VisibilitySystem;
use dungeon_core::world::World;

fn open_map() -> GameMap {
    GameMap {
        tiles: vec![TileType::Floor; 80 * 50],
        rooms: Vec::new(),
        width: 80,
        height: 50,
        revealed_tiles: vec![false; 80 * 50],
        visible_tiles: vec![false; 80 * 50],
        blocked: vec![false; 80 * 50],
        tile_content: vec![Vec::new(); 80 * 50],
    }
}

fn spawn_viewer(w: &mut World, x: i32, y: i32, range: i32, player: bool) -> usize {
    let id = w.spawn();
    w.insert_position(id, Position { x, y });
    w.insert_viewshed(id, Viewshed::new(range));
    w.insert_name(id, Name { name: "viewer".to_string() });
    if player {
        w.insert_player(id, Player {});
    }
    id
}

#[test]
fn dirty_viewsheds_recompute_and_clean_ones_are_skipped() {
    let mut m = open_map();
    let mut w = World::new();
    let a = spawn_viewer(&mut w, 10, 10, 4, false);
    let b = spawn_viewer(&mut w, 30, 30, 4, false);
    match &mut w.viewsheds[b] {
        Some(v) => {
            v.dirty = false;
            v.visible_tiles.push((1, 1));
        },
        None => {},
    }
    VisibilitySystem::run(&mut w, &mut m, usize::MAX);
    let va = w.viewsheds[a].as_ref().unwrap();
    assert!(!va.dirty);
    assert!(va.visible_tiles.contains(&(10, 10)));
    assert!(va.visible_tiles.contains(&(14, 10)));
    assert!(!va.visible_tiles.contains(&(15, 10)));
    let vb = w.viewsheds[b].as_ref().unwrap();
    assert_eq!(vb.visible_tiles, vec![(1, 1)]);
}

#[test]
fn player_projection_sets_visible_and_reveals() {
    let mut m = open_map();
    let mut w = World::new();
    let p = spawn_viewer(&mut w, 10, 10, 3, true);
    VisibilitySystem::run(&mut w, &mut m, p);
    let at = |x: i32, y: i32| m.xy_idx(x, y);
    assert!(m.visible_tiles[at(10, 10)]);
    assert!(m.revealed_tiles[at(10, 10)]);
    assert!(m.visible_tiles[at(13, 10)]);
    assert!(!m.visible_tiles[at(14, 10)]);
    assert!(!m.revealed_tiles[at(14, 10)]);
}

#[test]
fn revealed_tiles_stay_revealed_as_the_viewer_moves() {
    let mut m = open_map();
    let mut w = World::new();
    let p = spawn_viewer(&mut w, 10, 10, 3, true);
    VisibilitySystem::run(&mut w, &mut m, p);
    let origin = m.xy_idx(10, 10);
    assert!(m.revealed_tiles[origin]);
    // Move far away and recompute: the old tile leaves the visible
    // set but stays revealed.
    w.insert_position(p, Position { x: 40, y: 40 });
    match &mut w.viewsheds[p] {
        Some(v) => v.dirty = true,
        None => {},
    }
    VisibilitySystem::run(&mut w, &mut m, p);
    assert!(!m.visible_tiles[origin]);
    assert!(m.revealed_tiles[origin]);
    assert!(m.revealed_tiles[m.xy_idx(40, 40)]);
}
