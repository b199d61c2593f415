use rand::rngs::StdRng;
use rand::SeedableRng;
use roguelike_core::colors::white;
use roguelike_core::fighter::{Ai, DeathCallback, Fighter};
use roguelike_core::game::{
    ai_take_turn, create_room, make_map, place_objects, run_turn, try_place_room, GameMap,
    PlayerAction, PlayerIntent,
};
use roguelike_core::game_object::{move_toward, GameObject};
use roguelike_core::messages::Messages;
use roguelike_core::rect::Rect;
use roguelike_core::tile::Tile;
use roguelike_core::{MAP_HEIGHT, MAP_WIDTH, MAX_ROOMS, MAX_ROOM_MONSTERS, ROOM_MAX_SIZE, ROOM_MIN_SIZE};

fn wall_map() -> GameMap {
    vec![vec![Tile::wall(); MAP_HEIGHT as usize]; MAP_WIDTH as usize]
}

fn player_at(x: i32, y: i32) -> GameObject {
    let mut p = GameObject::new(x, y, '@', "Player", white(), false);
    p.alive = true;
    p.fighter = Some(Fighter { max_hp: 30, hp: 30, defense: 2, power: 5, on_death: DeathCallback::Player });
    p
}

fn orc_at(x: i32, y: i32) -> GameObject {
    let mut o = GameObject::new(x, y, 'o', "Orc", white(), true);
    o.alive = true;
    o.fighter = Some(Fighter { max_hp: 10, hp: 10, defense: 0, power: 3, on_death: DeathCallback::Monster });
    o.ai = Some(Ai::Basic);
    o
}

fn flood_reaches(map: &GameMap, from: (i32, i32), to: (i32, i32)) -> bool {
    let w = MAP_WIDTH as usize;
    let h = MAP_HEIGHT as usize;
    let mut seen = vec![vec![false; h]; w];
    let mut stack = vec![from];
    seen[from.0 as usize][from.1 as usize] = true;
    while let Some((x, y)) = stack.pop() {
        if (x, y) == to {
            return true;
        }
        for (dx, dy) in [(1, 0), (-1, 0), (0, 1), (0, -1)] {
            let (nx, ny) = (x + dx, y + dy);
            if nx >= 0 && nx < MAP_WIDTH && ny >= 0 && ny < MAP_HEIGHT {
                let (ux, uy) = (nx as usize, ny as usize);
                if !seen[ux][uy] && !map[ux][uy].is_blocked {
                    seen[ux][uy] = true;
                    stack.push((nx, ny));
                }
            }
        }
    }
    false
}

#[test]
fn generated_rooms_never_overlap_and_fit_the_grid() {
    let mut rng = StdRng::seed_from_u64(7);
    let mut objects = vec![player_at(0, 0)];
    let (_map, rooms) = make_map(&mut rng, &mut objects);
    assert!(rooms.len() >= 1 && rooms.len() <= MAX_ROOMS as usize);
    for r in &rooms {
        let w = r.x2 - r.x1;
        let h = r.y2 - r.y1;
        assert!(w >= ROOM_MIN_SIZE && w <= ROOM_MAX_SIZE);
        assert!(h >= ROOM_MIN_SIZE && h <= ROOM_MAX_SIZE);
        assert!(r.x1 >= 0 && r.x2 < MAP_WIDTH && r.y1 >= 0 && r.y2 < MAP_HEIGHT);
    }
    for i in 0..rooms.len() {
        for j in 0..rooms.len() {
            if i != j {
                assert!(!rooms[i].intersects_with(&rooms[j]));
            }
        }
    }
}

#[test]
fn every_room_center_is_reachable_from_the_first() {
    let mut rng = StdRng::seed_from_u64(99);
    let mut objects = vec![player_at(0, 0)];
    let (map, rooms) = make_map(&mut rng, &mut objects);
    let start = rooms[0].center();
    for r in &rooms {
        assert!(flood_reaches(&map, start, r.center()));
    }
}

#[test]
fn generation_seats_the_player_and_sound_monsters() {
    let mut rng = StdRng::seed_from_u64(2024);
    let mut objects = vec![player_at(0, 0)];
    let (map, rooms) = make_map(&mut rng, &mut objects);
    assert_eq!(objects[0].get_position(), rooms[0].center());
    assert!(!map[objects[0].x as usize][objects[0].y as usize].is_blocked);
    for m in &objects[1..] {
        assert_eq!(m.ai, Some(Ai::Basic));
        assert!(m.alive);
        assert!(m.blocks_tile);
        let f = m.fighter.unwrap();
        assert_eq!(f.hp, f.max_hp);
        assert_eq!(f.on_death, DeathCallback::Monster);
        assert!(!map[m.x as usize][m.y as usize].is_blocked);
        // every spawn is exactly an orc or exactly a troll
        let stats = (f.max_hp, f.defense, f.power);
        if m.char == 'o' {
            assert_eq!(m.name, "Orc");
            assert_eq!(stats, (10, 0, 3));
        } else {
            assert_eq!(m.char, 'T');
            assert_eq!(m.name, "Troll");
            assert_eq!(stats, (16, 1, 4));
        }
    }
    // no two blocking entities share a cell
    for i in 0..objects.len() {
        for j in 0..i {
            if objects[i].blocks_tile && objects[j].blocks_tile {
                assert_ne!(objects[i].get_position(), objects[j].get_position());
            }
        }
    }
}

#[test]
fn generation_carves_nothing_outside_rooms_and_corridors() {
    let mut rng = StdRng::seed_from_u64(321);
    let mut objects = vec![player_at(0, 0)];
    let (map, rooms) = make_map(&mut rng, &mut objects);
    let on_some_elbow = |a: (i32, i32), b: (i32, i32), x: i32, y: i32| -> bool {
        let hx = y == a.1 && x >= a.0.min(b.0) && x <= a.0.max(b.0);
        let hy = x == b.0 && y >= a.1.min(b.1) && y <= a.1.max(b.1);
        let vx = x == a.0 && y >= a.1.min(b.1) && y <= a.1.max(b.1);
        let vy = y == b.1 && x >= a.0.min(b.0) && x <= a.0.max(b.0);
        (hx || hy) || (vx || vy)
    };
    for x in 0..MAP_WIDTH {
        for y in 0..MAP_HEIGHT {
            let t = map[x as usize][y as usize];
            // every tile is still a wall or has been carved empty
            assert!(!t.is_explored);
            assert_eq!(t.is_blocked, t.is_sight_blocked);
            if !t.is_blocked {
                // a carved cell lies in a room's interior or on an
                // elbow between consecutively accepted centers
                let in_room = rooms
                    .iter()
                    .any(|r| r.x1 < x && x < r.x2 && r.y1 < y && y < r.y2);
                let on_corridor = (1..rooms.len()).any(|i| {
                    on_some_elbow(rooms[i - 1].center(), rooms[i].center(), x, y)
                });
                assert!(in_room || on_corridor);
            }
        }
    }
}

#[test]
fn a_room_gains_at_most_three_monsters() {
    let mut map = wall_map();
    let mut rooms: Vec<Rect> = Vec::new();
    let mut objects = vec![player_at(0, 0)];
    let room = Rect::new(2, 2, 8, 8);
    assert!(try_place_room(room, true, &mut map, &mut rooms, &mut objects));
    for seed in 0..20u64 {
        let mut rng = StdRng::seed_from_u64(seed);
        let before = objects.len();
        place_objects(room, &map, &mut objects, &mut rng);
        assert!(objects.len() <= before + MAX_ROOM_MONSTERS as usize);
    }
}

#[test]
fn generation_is_a_pure_function_of_the_draws() {
    let mut rng_a = StdRng::seed_from_u64(5);
    let mut objects_a = vec![player_at(0, 0)];
    let (_map_a, rooms_a) = make_map(&mut rng_a, &mut objects_a);

    let mut rng_b = StdRng::seed_from_u64(5);
    let mut objects_b = vec![player_at(0, 0)];
    let (_map_b, rooms_b) = make_map(&mut rng_b, &mut objects_b);

    assert_eq!(rooms_a, rooms_b);
    assert_eq!(objects_a.len(), objects_b.len());
    for (a, b) in objects_a.iter().zip(objects_b.iter()) {
        assert_eq!(a.get_position(), b.get_position());
        assert_eq!(a.name, b.name);
    }
}

#[test]
fn two_rooms_with_a_known_elbow_and_a_walk() {
    let mut map = wall_map();
    let mut rooms: Vec<Rect> = Vec::new();
    let mut objects = vec![player_at(0, 0)];
    let mut log = Messages::new();

    // two fixed non-intersecting rooms with centers on the same row
    let r1 = Rect::new(2, 2, 8, 8); // center (6, 6)
    let r2 = Rect::new(20, 2, 8, 8); // center (24, 6)
    assert!(try_place_room(r1, true, &mut map, &mut rooms, &mut objects));
    assert_eq!(objects[0].get_position(), (6, 6));
    assert!(try_place_room(r2, true, &mut map, &mut rooms, &mut objects));
    // an overlapping candidate is rejected and changes nothing
    assert!(!try_place_room(Rect::new(5, 5, 8, 8), true, &mut map, &mut rooms, &mut objects));
    assert_eq!(rooms.len(), 2);
    assert!(!rooms[0].intersects_with(&rooms[1]));

    // the corridor of empty tiles runs along the expected elbow path
    for x in 6..=24 {
        assert!(!map[x as usize][6].is_blocked);
    }
    // away from rooms and corridor the walls stand
    assert!(map[15][5].is_blocked);
    assert!(map[15][7].is_blocked);

    // a move into an open tile updates the position and takes the turn
    let visible = vec![false; objects.len()];
    let action = run_turn(
        PlayerIntent::Move { dx: 1, dy: 0 },
        &map,
        &mut objects,
        &mut log,
        &visible,
    );
    assert_eq!(action, PlayerAction::TookTurn);
    assert_eq!(objects[0].get_position(), (7, 6));

    // walking into the room wall is a silent no-op that still resolves
    for _ in 0..6 {
        run_turn(PlayerIntent::Move { dx: 0, dy: -1 }, &map, &mut objects, &mut log, &visible);
    }
    assert_eq!(objects[0].get_position(), (7, 3));
    let bump = run_turn(
        PlayerIntent::Move { dx: 0, dy: -1 },
        &map,
        &mut objects,
        &mut log,
        &visible,
    );
    assert_eq!(bump, PlayerAction::TookTurn);
    assert_eq!(objects[0].get_position(), (7, 3));
    assert_eq!(objects[0].fighter.unwrap().hp, 30);
}

#[test]
fn quit_and_unrecognized_intents_advance_nothing() {
    let mut map = wall_map();
    create_room(Rect::new(0, 0, 79, 42), &mut map);
    let mut objects = vec![player_at(10, 10), orc_at(20, 10)];
    let mut log = Messages::new();
    let visible = vec![true; objects.len()];

    let quit = run_turn(PlayerIntent::Quit, &map, &mut objects, &mut log, &visible);
    assert_eq!(quit, PlayerAction::Exit);
    assert_eq!(objects[0].get_position(), (10, 10));
    assert_eq!(objects[1].get_position(), (20, 10));
    assert_eq!(log.len(), 0);

    let idle = run_turn(PlayerIntent::Unrecognized, &map, &mut objects, &mut log, &visible);
    assert_eq!(idle, PlayerAction::DidntTakeTurn);
    assert_eq!(objects[1].get_position(), (20, 10));
    assert_eq!(log.len(), 0);
}

#[test]
fn a_dead_player_cannot_move() {
    let mut map = wall_map();
    create_room(Rect::new(0, 0, 79, 42), &mut map);
    let mut objects = vec![player_at(10, 10)];
    objects[0].alive = false;
    let mut log = Messages::new();
    let visible = vec![false; objects.len()];
    let action = run_turn(
        PlayerIntent::Move { dx: 1, dy: 0 },
        &map,
        &mut objects,
        &mut log,
        &visible,
    );
    assert_eq!(action, PlayerAction::DidntTakeTurn);
    assert_eq!(objects[0].get_position(), (10, 10));
}

#[test]
fn moving_into_a_monster_attacks_instead() {
    let mut map = wall_map();
    create_room(Rect::new(0, 0, 79, 42), &mut map);
    let mut objects = vec![player_at(10, 10), orc_at(11, 10)];
    let mut log = Messages::new();
    let visible = vec![false; objects.len()];
    let action = run_turn(
        PlayerIntent::Move { dx: 1, dy: 0 },
        &map,
        &mut objects,
        &mut log,
        &visible,
    );
    assert_eq!(action, PlayerAction::TookTurn);
    // exactly one of move or attack: the player stays, the orc is hit
    assert_eq!(objects[0].get_position(), (10, 10));
    assert_eq!(objects[1].fighter.unwrap().hp, 5);
    assert_eq!(log.get(0).text, "Player attacks Orc for 5 hit points.");
}

#[test]
fn visible_far_monster_steps_toward_the_player() {
    let mut map = wall_map();
    create_room(Rect::new(0, 0, 79, 42), &mut map);
    let mut objects = vec![player_at(10, 10), orc_at(20, 10)];
    let mut log = Messages::new();
    ai_take_turn(1, true, &map, &mut objects, &mut log);
    assert_eq!(objects[1].get_position(), (19, 10));
    assert_eq!(log.len(), 0);
}

#[test]
fn unseen_monster_does_nothing() {
    let mut map = wall_map();
    create_room(Rect::new(0, 0, 79, 42), &mut map);
    let mut objects = vec![player_at(10, 10), orc_at(20, 10)];
    let mut log = Messages::new();
    ai_take_turn(1, false, &map, &mut objects, &mut log);
    assert_eq!(objects[1].get_position(), (20, 10));
    assert_eq!(log.len(), 0);
}

#[test]
fn adjacent_monster_attacks_a_living_player() {
    let mut map = wall_map();
    create_room(Rect::new(0, 0, 79, 42), &mut map);
    let mut objects = vec![player_at(10, 10), orc_at(11, 10)];
    let mut log = Messages::new();
    ai_take_turn(1, true, &map, &mut objects, &mut log);
    // damage 3 - 2 = 1
    assert_eq!(objects[0].fighter.unwrap().hp, 29);
    assert_eq!(objects[1].get_position(), (11, 10));
    assert_eq!(log.get(0).text, "Orc attacks Player for 1 hit points.");
}

#[test]
fn a_monster_never_strikes_a_corpse() {
    let mut map = wall_map();
    create_room(Rect::new(0, 0, 79, 42), &mut map);
    let mut objects = vec![player_at(10, 10), orc_at(11, 10)];
    objects[0].alive = false;
    objects[0].fighter = Some(Fighter { max_hp: 30, hp: 0, defense: 2, power: 5, on_death: DeathCallback::Player });
    let mut log = Messages::new();
    ai_take_turn(1, true, &map, &mut objects, &mut log);
    assert_eq!(objects[0].fighter.unwrap().hp, 0);
    assert_eq!(objects[1].get_position(), (11, 10));
    assert_eq!(log.len(), 0);
}

#[test]
fn move_toward_rounds_to_the_nearest_grid_direction() {
    let mut map = wall_map();
    create_room(Rect::new(0, 0, 79, 42), &mut map);
    let mut objects = vec![GameObject::new(10, 10, 'o', "walker", white(), false)];

    // mostly horizontal pull: a single horizontal step
    move_toward(0, 14, 11, &map, &mut objects);
    assert_eq!(objects[0].get_position(), (11, 10));

    // mostly vertical pull: a single vertical step
    move_toward(0, 12, 13, &map, &mut objects);
    assert_eq!(objects[0].get_position(), (11, 11));

    // diagonal pull: one step on each axis
    move_toward(0, 14, 14, &map, &mut objects);
    assert_eq!(objects[0].get_position(), (12, 12));

    // degenerate case: walking toward oneself stays put
    move_toward(0, 12, 12, &map, &mut objects);
    assert_eq!(objects[0].get_position(), (12, 12));
}

#[test]
fn a_dead_entity_is_never_a_target() {
    let mut map = wall_map();
    create_room(Rect::new(0, 0, 79, 42), &mut map);
    // a corpse that still carries a combat component occupies the
    // destination without blocking it
    let mut corpse = orc_at(11, 10);
    corpse.alive = false;
    corpse.blocks_tile = false;
    let mut objects = vec![player_at(10, 10), corpse];
    let mut log = Messages::new();
    let visible = vec![false; objects.len()];
    let action = run_turn(
        PlayerIntent::Move { dx: 1, dy: 0 },
        &map,
        &mut objects,
        &mut log,
        &visible,
    );
    // the player walks onto the cell instead of striking the corpse
    assert_eq!(action, PlayerAction::TookTurn);
    assert_eq!(objects[0].get_position(), (11, 10));
    assert_eq!(objects[1].fighter.unwrap().hp, 10);
    assert_eq!(log.len(), 0);
}
