use dungeon_core::fov::field_of_view;
use dungeon_core::map::{GameMap, TileType};

fn open_map() -> GameMap {
    GameMap {
        tiles: vec![TileType::Floor; 80 * 50],
        rooms: Vec::new(),
        width: 80,
        height: 50,
        revealed_tiles: vec![false; 80 * 50],
        visible_tiles: vec![false; 80 * 50],
        blocked: vec![false; 80 * 50],
        tile_content: vec![Vec::new(); 80 * 50],
    }
}

#[test]
fn recomputing_a_viewshed_yields_the_same_set() {
    let m = GameMap::test_map();
    let v1 = field_of_view(&m, 10, 10, 8);
    let v2 = field_of_view(&m, 10, 10, 8);
    assert_eq!(v1, v2);
    let mut s1 = v1.clone();
    let mut s2 = v2.clone();
    s1.sort();
    s2.sort();
    assert_eq!(s1, s2);
}

#[test]
fn open_ground_visibility_is_the_range_disc() {
    let m = open_map();
    let v = field_of_view(&m, 40, 25, 2);
    assert!(v.contains(&(40, 25)));
    assert!(v.contains(&(42, 25)));
    assert!(v.contains(&(40, 23)));
    assert!(v.contains(&(41, 26)));
    // Squared distance 5 exceeds the squared range 4.
    assert!(!v.contains(&(42, 26)));
    assert!(!v.contains(&(43, 25)));
    for (x, y) in v.iter() {
        let dx = (x - 40) as i64;
        let dy = (y - 25) as i64;
        assert!(dx * dx + dy * dy <= 4);
    }
}

#[test]
fn walls_block_sight_but_are_themselves_visible() {
    let mut m = open_map();
    let wall = m.xy_idx(41, 25);
    m.tiles[wall] = TileType::Wall;
    let v = field_of_view(&m, 40, 25, 5);
    assert!(v.contains(&(41, 25)));
    assert!(!v.contains(&(42, 25)));
    assert!(!v.contains(&(45, 25)));
    assert!(v.contains(&(40, 20)));
}

#[test]
fn tiles_outside_the_map_are_never_visible() {
    let m = open_map();
    let v = field_of_view(&m, 0, 0, 8);
    for (x, y) in v.iter() {
        assert!(*x >= 0 && *x < 80 && *y >= 0 && *y < 50);
    }
}
