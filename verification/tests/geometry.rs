use roguelike_core::game::{explore, GameMap};
use roguelike_core::game_object::{is_blocked, GameObject};
use roguelike_core::colors::white;
use roguelike_core::rect::Rect;
use roguelike_core::tile::Tile;
use roguelike_core::{MAP_HEIGHT, MAP_WIDTH};

fn wall_map() -> GameMap {
    vec![vec![Tile::wall(); MAP_HEIGHT as usize]; MAP_WIDTH as usize]
}

#[test]
fn rect_new_records_corners() {
    let r = Rect::new(3, 4, 10, 5);
    assert_eq!(r.x1, 3);
    assert_eq!(r.y1, 4);
    assert_eq!(r.x2, 13);
    assert_eq!(r.y2, 9);
}

#[test]
fn rect_center_is_midpoint() {
    let r = Rect::new(2, 2, 8, 8);
    assert_eq!(r.center(), (6, 6));
    let odd = Rect::new(0, 0, 7, 3);
    assert_eq!(odd.center(), (3, 1));
}

#[test]
fn rect_intersection_is_inclusive_overlap() {
    let a = Rect::new(0, 0, 10, 10);
    let b = Rect::new(10, 10, 5, 5);
    // touching at a corner counts as intersecting (inclusive bounds)
    assert!(a.intersects_with(&b));
    assert!(b.intersects_with(&a));
    let c = Rect::new(11, 0, 5, 5);
    assert!(!a.intersects_with(&c));
    assert!(!c.intersects_with(&a));
}

#[test]
fn tile_constructors_set_flags() {
    let e = Tile::empty();
    assert!(!e.is_blocked && !e.is_sight_blocked && !e.is_explored);
    let w = Tile::wall();
    assert!(w.is_blocked && w.is_sight_blocked && !w.is_explored);
}

#[test]
fn occupancy_combines_terrain_and_entities() {
    let mut map = wall_map();
    map[5][5] = Tile::empty();
    map[6][5] = Tile::empty();
    let mut objects: Vec<GameObject> = Vec::new();

    // wall tile blocks, carved tile does not
    assert!(is_blocked(4, 5, &map, &objects));
    assert!(!is_blocked(5, 5, &map, &objects));

    // a blocking entity blocks its carved tile
    let orc = GameObject::new(5, 5, 'o', "Orc", white(), true);
    objects.push(orc);
    assert!(is_blocked(5, 5, &map, &objects));
    assert!(!is_blocked(6, 5, &map, &objects));

    // a non-blocking entity (a corpse) does not
    let corpse = GameObject::new(6, 5, '%', "remains", white(), false);
    objects.push(corpse);
    assert!(!is_blocked(6, 5, &map, &objects));
}

#[test]
fn exploration_is_monotonic() {
    let mut map = wall_map();
    assert!(!map[7][7].is_explored);
    explore(&mut map, 7, 7, true);
    assert!(map[7][7].is_explored);
    // later reports of invisibility never clear the flag
    explore(&mut map, 7, 7, false);
    assert!(map[7][7].is_explored);
    explore(&mut map, 7, 7, true);
    assert!(map[7][7].is_explored);
    // a tile never seen stays unexplored
    explore(&mut map, 8, 8, false);
    assert!(!map[8][8].is_explored);
}
