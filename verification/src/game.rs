use vstd::prelude::*;

verus! {

use crate::colors::{darker_green, desaturated_green, Rgb};
use crate::fighter::{fighter_wf, Ai, DeathCallback, Fighter};
use crate::game_object::{attack_indices, lemma_find_target_props, lemma_objs_view_len,
    lemma_objs_view_update,
    is_blocked, move_toward, objs_view,
    player_move_or_attack, power_of, spec_find_target, spec_is_blocked, spec_move_by,
    spec_player_move_or_attack, spec_step_toward, view_after_attack, view_attack_messages,
    GameObject, ObjView};
use crate::messages::{MessageView, Messages};
use crate::rect::{between, spec_intersects, Rect};
use crate::tile::Tile;
use crate::rng::{rng_coin, rng_range};
use crate::{MAP_HEIGHT, MAP_WIDTH, MAX_ROOMS, MAX_ROOM_MONSTERS, PLAYER, ROOM_MAX_SIZE, ROOM_MIN_SIZE};

/// The dungeon grid, indexed `map[x][y]` with `0 <= x < MAP_WIDTH` and
/// `0 <= y < MAP_HEIGHT`.
pub type GameMap = Vec<Vec<Tile>>;

/// The tile of a map view at `(x, y)`.
pub open spec fn tile_at(m: Seq<Vec<Tile>>, x: int, y: int) -> Tile {
    m[x]@[y]
}

/// `(x, y)` lies on the grid.
pub open spec fn on_map(x: int, y: int) -> bool {
    0 <= x < MAP_WIDTH && 0 <= y < MAP_HEIGHT
}

/// The grid has exactly the fixed dimensions.
pub open spec fn map_wf(m: Seq<Vec<Tile>>) -> bool {
    m.len() == MAP_WIDTH && forall|x: int| 0 <= x < m.len() ==> (#[trigger] m[x])@.len()
        == MAP_HEIGHT
}

/// Every tile on the outermost ring of the grid is blocked, so a single
/// step from an unblocked tile always stays on the grid.
pub open spec fn border_blocked(m: Seq<Vec<Tile>>) -> bool {
    forall|x: int, y: int|
        on_map(x, y) && (x == 0 || x == MAP_WIDTH - 1 || y == 0 || y == MAP_HEIGHT - 1)
            ==> (#[trigger] tile_at(m, x, y)).is_blocked
}

/// One entity is well-placed and well-stated: it stands on an unblocked
/// grid tile and its combat stats, if any, are bounded.
pub open spec fn obj_wf(m: Seq<Vec<Tile>>, o: ObjView) -> bool {
    &&& on_map(o.x, o.y)
    &&& !tile_at(m, o.x, o.y).is_blocked
    &&& (o.fighter matches Some(f) ==> fighter_wf(f))
}

/// The world invariant that generation establishes and every turn
/// preserves: a well-formed walled grid, a registry whose slot 0 is the
/// player (never AI-driven), every entity well-placed, and every
/// non-player combat component still alive (a dead entity loses its
/// fighter in the same step that kills it).
pub open spec fn world_wf(m: Seq<Vec<Tile>>, objs: Seq<ObjView>) -> bool {
    &&& map_wf(m)
    &&& border_blocked(m)
    &&& objs.len() >= 1
    &&& objs[PLAYER as int].ai is None
    &&& forall|i: int| 0 <= i < objs.len() ==> obj_wf(m, #[trigger] objs[i])
    &&& forall|i: int|
        PLAYER + 1 <= i < objs.len() ==> ((#[trigger] objs[i]).fighter matches Some(f) ==> f.hp
            > 0)
}

/// The game state threaded through a run: the grid plus the message
/// log.
pub struct Game {
    pub map: GameMap,
    pub messages: Messages,
}

/// How one player intent was resolved, which decides whether the world
/// advances.
#[derive(Clone, Copy, Debug, PartialEq, Eq, Structural)]
pub enum PlayerAction {
    TookTurn,
    DidntTakeTurn,
    Exit,
}

/// The abstract intent handed in by the input collaborator; only
/// movement and quitting affect the core.
#[derive(Clone, Copy, Debug, PartialEq, Eq, Structural)]
pub enum PlayerIntent {
    Move { dx: i32, dy: i32 },
    Quit,
    Unrecognized,
}

/// Record one visibility report for a tile: a tile once seen is
/// explored, and stays explored no matter what later reports say.
pub fn explore(map: &mut GameMap, x: i32, y: i32, visible: bool)
    requires
        map_wf(old(map)@),
        on_map(x as int, y as int),
    ensures
        map_wf(final(map)@),
        tile_at(final(map)@, x as int, y as int) == (Tile {
            is_explored: tile_at(old(map)@, x as int, y as int).is_explored || visible,
            ..tile_at(old(map)@, x as int, y as int)
        }),
        forall|i: int, j: int|
            on_map(i, j) && !(i == x && j == y) ==> #[trigger] tile_at(final(map)@, i, j)
                == tile_at(old(map)@, i, j),
{
    let xi = x as usize;
    let yi = y as usize;
    let t = map[xi][yi];
    if visible {
        map[xi][yi] = Tile { is_explored: true, ..t };
    }
}

/// Exploration is monotone: whatever visibility is reported, an
/// explored tile stays explored.
pub proof fn lemma_exploration_monotonic(t: Tile, visible: bool)
    ensures
        t.is_explored ==> (Tile { is_explored: t.is_explored || visible, ..t }).is_explored,
{
}

/// The registry and log after the basic AI decision for the entity in
/// slot `i`: do nothing while unseen; step toward the player while the
/// straight-line distance is at least 2; attack a living player in
/// reach; never touch a dead player.
pub open spec fn spec_ai_turn(i: int, visible: bool, m: Seq<Vec<Tile>>, objs: Seq<ObjView>) -> (
    Seq<ObjView>,
    Seq<MessageView>,
) {
    if !visible {
        (objs, Seq::<MessageView>::empty())
    } else {
        let o = objs[i];
        let p = objs[PLAYER as int];
        let dx = p.x - o.x;
        let dy = p.y - o.y;
        if dx * dx + dy * dy >= 4 {
            (
                spec_move_by(
                    i,
                    spec_step_toward(dx, dy).0,
                    spec_step_toward(dx, dy).1,
                    m,
                    objs,
                ),
                Seq::<MessageView>::empty(),
            )
        } else if p.fighter matches Some(f) && f.hp > 0 {
            (
                objs.update(PLAYER as int, view_after_attack(power_of(o), p)),
                view_attack_messages(o.name, power_of(o), p),
            )
        } else {
            (objs, Seq::<MessageView>::empty())
        }
    }
}

/// An unblocked tile of a walled grid is never on the border, so every
/// single step from it stays on the grid.
pub proof fn lemma_unblocked_is_interior(m: Seq<Vec<Tile>>, x: int, y: int)
    requires
        map_wf(m),
        border_blocked(m),
        on_map(x, y),
        !tile_at(m, x, y).is_blocked,
    ensures
        0 < x < MAP_WIDTH - 1,
        0 < y < MAP_HEIGHT - 1,
{
}

/// A resolved step keeps the world invariant: the mover lands on an
/// unblocked grid tile and nothing else changes.
pub proof fn lemma_move_preserves_world(
    m: Seq<Vec<Tile>>,
    objs: Seq<ObjView>,
    i: int,
    dx: int,
    dy: int,
)
    requires
        world_wf(m, objs),
        0 <= i < objs.len(),
        on_map(objs[i].x + dx, objs[i].y + dy),
    ensures
        world_wf(m, spec_move_by(i, dx, dy, m, objs)),
{
    let objs2 = spec_move_by(i, dx, dy, m, objs);
    assert forall|j: int| 0 <= j < objs2.len() implies obj_wf(m, #[trigger] objs2[j]) by {
        assert(obj_wf(m, objs[j]));
    }
}

/// One attack keeps the world invariant, provided the target's combat
/// component (if any) is still alive; the death transition strips the
/// victim's fighter in the same step that kills it.
pub proof fn lemma_attack_preserves_world(m: Seq<Vec<Tile>>, objs: Seq<ObjView>, a: int, t: int)
    requires
        world_wf(m, objs),
        0 <= a < objs.len(),
        0 <= t < objs.len(),
        objs[t].fighter matches Some(f) ==> f.hp > 0,
    ensures
        world_wf(m, objs.update(t, view_after_attack(power_of(objs[a]), objs[t]))),
{
    let objs2 = objs.update(t, view_after_attack(power_of(objs[a]), objs[t]));
    assert(obj_wf(m, objs[a]));
    assert(obj_wf(m, objs[t]));
    assert forall|j: int| 0 <= j < objs2.len() implies obj_wf(m, #[trigger] objs2[j]) by {
        assert(obj_wf(m, objs[j]));
    }
}

/// One decision for the AI-tagged entity in slot `monster_index`,
/// taking the visibility oracle's report for that entity as an input.
pub fn ai_take_turn(
    monster_index: usize,
    monster_visible: bool,
    map: &GameMap,
    game_objects: &mut Vec<GameObject>,
    messages: &mut Messages,
)
    requires
        world_wf(map@, objs_view(old(game_objects)@)),
        1 <= monster_index < old(game_objects)@.len(),
    ensures
        objs_view(final(game_objects)@) == spec_ai_turn(
            monster_index as int,
            monster_visible,
            map@,
            objs_view(old(game_objects)@),
        ).0,
        final(messages)@ == old(messages)@ + spec_ai_turn(
            monster_index as int,
            monster_visible,
            map@,
            objs_view(old(game_objects)@),
        ).1,
        world_wf(map@, objs_view(final(game_objects)@)),
        final(game_objects)@.len() == old(game_objects)@.len(),
{
    let ghost objs = objs_view(game_objects@);
    proof {
        assert(objs[monster_index as int] == game_objects@[monster_index as int]@);
        assert(objs[PLAYER as int] == game_objects@[PLAYER as int]@);
        lemma_unblocked_is_interior(map@, objs[monster_index as int].x, objs[monster_index as int].y);
        lemma_unblocked_is_interior(map@, objs[PLAYER as int].x, objs[PLAYER as int].y);
    }
    if !monster_visible {
        proof {
            assert(final(messages)@ =~= old(messages)@ + Seq::<MessageView>::empty());
        }
        return ;
    }
    let (monster_x, monster_y) = game_objects[monster_index].get_position();
    let (player_x, player_y) = game_objects[PLAYER].get_position();
    let dx: i64 = player_x as i64 - monster_x as i64;
    let dy: i64 = player_y as i64 - monster_y as i64;
    proof {
        assert(0 <= dx * dx <= 6400 && 0 <= dy * dy <= 6400) by (nonlinear_arith)
            requires
                -80 <= dx <= 80,
                -80 <= dy <= 80,
        ;
    }
    if dx * dx + dy * dy >= 4 {
        // move toward the player if far away
        move_toward(monster_index, player_x, player_y, map, game_objects);
        proof {
            lemma_move_preserves_world(
                map@,
                objs,
                monster_index as int,
                spec_step_toward(
                    player_x - objs[monster_index as int].x,
                    player_y - objs[monster_index as int].y,
                ).0,
                spec_step_toward(
                    player_x - objs[monster_index as int].x,
                    player_y - objs[monster_index as int].y,
                ).1,
            );
            assert(final(messages)@ =~= old(messages)@ + Seq::<MessageView>::empty());
        }
    } else {
        let player_alive_fighter = match game_objects[PLAYER].fighter {
            Some(f) => f.hp > 0,
            None => false,
        };
        if player_alive_fighter {
            // close enough and the player is alive: attack
            proof {
                lemma_attack_preserves_world(map@, objs, monster_index as int, PLAYER as int);
            }
            attack_indices(monster_index, PLAYER, game_objects, messages);
        } else {
            proof {
                assert(final(messages)@ =~= old(messages)@ + Seq::<MessageView>::empty());
            }
        }
    }
}

/// The registry and log after every slot from `k` up is given its AI
/// decision opportunity, in registry order; entities without an AI tag
/// are skipped.
pub open spec fn spec_ai_loop(m: Seq<Vec<Tile>>, objs: Seq<ObjView>, vis: Seq<bool>, k: int) -> (
    Seq<ObjView>,
    Seq<MessageView>,
)
    decreases vis.len() - k,
{
    if k < 0 || k >= vis.len() {
        (objs, Seq::<MessageView>::empty())
    } else {
        let step = if objs[k].ai is Some {
            spec_ai_turn(k, vis[k], m, objs)
        } else {
            (objs, Seq::<MessageView>::empty())
        };
        let rest = spec_ai_loop(m, step.0, vis, k + 1);
        (rest.0, step.1 + rest.1)
    }
}

/// A corpse gets no decision: the scheduler passes over any slot whose
/// AI tag is gone without touching the world or the log.
pub proof fn lemma_ai_loop_skips_corpse(
    m: Seq<Vec<Tile>>,
    objs: Seq<ObjView>,
    vis: Seq<bool>,
    k: int,
)
    requires
        0 <= k < vis.len(),
        objs[k].ai is None,
    ensures
        spec_ai_loop(m, objs, vis, k) == spec_ai_loop(m, objs, vis, k + 1),
{
    let rest = spec_ai_loop(m, objs, vis, k + 1);
    assert(spec_ai_loop(m, objs, vis, k).1 =~= rest.1);
}

/// One full tick from one player intent: quitting exits untouched, an
/// unrecognized intent (or a move while dead) advances nothing, and a
/// resolved move or attack gives every AI-tagged entity one decision,
/// provided the player is still alive.
pub open spec fn spec_run_turn(
    intent: PlayerIntent,
    m: Seq<Vec<Tile>>,
    objs: Seq<ObjView>,
    vis: Seq<bool>,
) -> (Seq<ObjView>, Seq<MessageView>, PlayerAction) {
    match intent {
        PlayerIntent::Quit => (objs, Seq::<MessageView>::empty(), PlayerAction::Exit),
        PlayerIntent::Unrecognized => (
            objs,
            Seq::<MessageView>::empty(),
            PlayerAction::DidntTakeTurn,
        ),
        PlayerIntent::Move { dx, dy } => {
            if !objs[PLAYER as int].alive {
                (objs, Seq::<MessageView>::empty(), PlayerAction::DidntTakeTurn)
            } else {
                let p = spec_player_move_or_attack(dx as int, dy as int, m, objs);
                if p.0[PLAYER as int].alive {
                    let a = spec_ai_loop(m, p.0, vis, 0);
                    (a.0, p.1 + a.1, PlayerAction::TookTurn)
                } else {
                    (p.0, p.1, PlayerAction::TookTurn)
                }
            }
        },
    }
}

/// Resolve one full tick: the player's intent, then one decision for
/// every AI-tagged entity when the intent consumed a turn and the
/// player still lives. `visible` carries the visibility oracle's
/// report for each registry slot.
pub fn run_turn(
    intent: PlayerIntent,
    map: &GameMap,
    game_objects: &mut Vec<GameObject>,
    messages: &mut Messages,
    visible: &Vec<bool>,
) -> (action: PlayerAction)
    requires
        world_wf(map@, objs_view(old(game_objects)@)),
        visible@.len() == old(game_objects)@.len(),
        intent matches PlayerIntent::Move { dx, dy } ==> -1 <= dx <= 1 && -1 <= dy <= 1 && !(dx
            == 0 && dy == 0),
    ensures
        objs_view(final(game_objects)@) == spec_run_turn(
            intent,
            map@,
            objs_view(old(game_objects)@),
            visible@,
        ).0,
        final(messages)@ == old(messages)@ + spec_run_turn(
            intent,
            map@,
            objs_view(old(game_objects)@),
            visible@,
        ).1,
        action == spec_run_turn(intent, map@, objs_view(old(game_objects)@), visible@).2,
        world_wf(map@, objs_view(final(game_objects)@)),
        final(game_objects)@.len() == old(game_objects)@.len(),
{
    let ghost objs0 = objs_view(game_objects@);
    match intent {
        PlayerIntent::Quit => {
            proof {
                assert(final(messages)@ =~= old(messages)@ + Seq::<MessageView>::empty());
            }
            PlayerAction::Exit
        },
        PlayerIntent::Unrecognized => {
            proof {
                assert(final(messages)@ =~= old(messages)@ + Seq::<MessageView>::empty());
            }
            PlayerAction::DidntTakeTurn
        },
        PlayerIntent::Move { dx, dy } => {
            proof {
                assert(objs0[PLAYER as int] == game_objects@[PLAYER as int]@);
            }
            if !game_objects[PLAYER].alive {
                proof {
                    assert(final(messages)@ =~= old(messages)@ + Seq::<MessageView>::empty());
                }
                return PlayerAction::DidntTakeTurn;
            }
            proof {
                lemma_unblocked_is_interior(map@, objs0[PLAYER as int].x, objs0[PLAYER as int].y);
            }
            let ghost p = spec_player_move_or_attack(dx as int, dy as int, map@, objs0);
            player_move_or_attack(dx, dy, map, game_objects, messages);
            proof {
                broadcast use lemma_objs_view_len;

                lemma_player_action_preserves_world(map@, objs0, dx as int, dy as int);
                lemma_find_target_props(
                    objs0,
                    objs0[PLAYER as int].x + dx,
                    objs0[PLAYER as int].y + dy,
                );
                assert(objs_view(game_objects@) == p.0);
                assert(p.0.len() == objs0.len());
                assert(game_objects@.len() == old(game_objects)@.len());
            }
            let ghost mid_messages = messages@;

            let alive_now = game_objects[PLAYER].alive;
            proof {
                assert(objs_view(game_objects@)[PLAYER as int] == game_objects@[PLAYER as int]@);
            }
            if alive_now {
                // monsters take their turn
                let ghost start = objs_view(game_objects@);
                let ghost full = spec_ai_loop(map@, start, visible@, 0);
                let ghost mut emitted = Seq::<MessageView>::empty();
                proof {
                    assert(mid_messages + emitted =~= mid_messages);
                    assert(emitted + full.1 =~= full.1);
                }
                let n = game_objects.len();
                let mut index: usize = 0;
                while index < n
                    invariant
                        world_wf(map@, objs_view(game_objects@)),
                        game_objects@.len() == n,
                        visible@.len() == n,
                        index <= n,
                        messages@ == mid_messages + emitted,
                        spec_ai_loop(map@, objs_view(game_objects@), visible@, index as int).0
                            == full.0,
                        emitted + spec_ai_loop(
                            map@,
                            objs_view(game_objects@),
                            visible@,
                            index as int,
                        ).1 == full.1,
                    decreases n - index,
                {
                    let ghost cur = objs_view(game_objects@);
                    let ghost step = spec_ai_loop(map@, cur, visible@, index as int);
                    if game_objects[index].ai.is_some() {
                        proof {
                            assert(cur[index as int] == game_objects@[index as int]@);
                            if index == 0 {
                                assert(cur[PLAYER as int].ai is None);
                                assert(false);
                            }
                        }
                        ai_take_turn(index, visible[index], map, game_objects, messages);
                        proof {
                            let t = spec_ai_turn(index as int, visible@[index as int], map@, cur);
                            assert(emitted + (t.1 + spec_ai_loop(
                                map@,
                                objs_view(game_objects@),
                                visible@,
                                index as int + 1,
                            ).1) =~= (emitted + t.1) + spec_ai_loop(
                                map@,
                                objs_view(game_objects@),
                                visible@,
                                index as int + 1,
                            ).1);
                            emitted = emitted + t.1;
                        }
                    } else {
                        proof {
                            assert(cur[index as int] == game_objects@[index as int]@);
                            assert(step.0 == spec_ai_loop(
                                map@,
                                cur,
                                visible@,
                                index as int + 1,
                            ).0);
                        }
                    }
                    index += 1;
                }
                proof {
                    assert(spec_ai_loop(map@, objs_view(game_objects@), visible@, n as int).0
                        == objs_view(game_objects@));
                    assert(emitted + Seq::<MessageView>::empty() =~= emitted);
                    assert(messages@ =~= old(messages)@ + (p.1 + emitted));
                }
            } else {
                proof {
                    assert(messages@ =~= old(messages)@ + p.1);
                }
            }
            PlayerAction::TookTurn
        },
    }
}

/// The carved-empty tile written by every generation step.
pub open spec fn empty_tile() -> Tile {
    Tile { is_blocked: false, is_sight_blocked: false, is_explored: false }
}

/// Write one tile of the grid.
fn set_tile(map: &mut GameMap, x: i32, y: i32, t: Tile)
    requires
        map_wf(old(map)@),
        on_map(x as int, y as int),
    ensures
        map_wf(final(map)@),
        forall|i: int, j: int|
            on_map(i, j) ==> #[trigger] tile_at(final(map)@, i, j) == (if i == x && j == y {
                t
            } else {
                tile_at(old(map)@, i, j)
            }),
{
    let xi = x as usize;
    let yi = y as usize;
    map[xi][yi] = t;
}

/// A fresh grid of solid wall.
#[verifier::loop_isolation(false)]
fn make_walls() -> (m: GameMap)
    ensures
        map_wf(m@),
        forall|x: int, y: int|
            on_map(x, y) ==> #[trigger] tile_at(m@, x, y) == (Tile {
                is_blocked: true,
                is_sight_blocked: true,
                is_explored: false,
            }),
{
    let mut m: GameMap = Vec::new();
    let mut x: usize = 0;
    while x < MAP_WIDTH as usize
        invariant
            x <= MAP_WIDTH,
            m@.len() == x,
            forall|i: int| 0 <= i < x ==> (#[trigger] m@[i])@.len() == MAP_HEIGHT,
            forall|i: int, j: int|
                0 <= i < x && 0 <= j < MAP_HEIGHT ==> #[trigger] tile_at(m@, i, j) == (Tile {
                    is_blocked: true,
                    is_sight_blocked: true,
                    is_explored: false,
                }),
        decreases MAP_WIDTH - x,
    {
        let mut col: Vec<Tile> = Vec::new();
        let mut y: usize = 0;
        while y < MAP_HEIGHT as usize
            invariant
                y <= MAP_HEIGHT,
                col@.len() == y,
                forall|j: int|
                    0 <= j < y ==> #[trigger] col@[j] == (Tile {
                        is_blocked: true,
                        is_sight_blocked: true,
                        is_explored: false,
                    }),
            decreases MAP_HEIGHT - y,
        {
            col.push(Tile::wall());
            y += 1;
        }
        let ghost prev = m@;
        let ghost colv = col@;
        m.push(col);
        proof {
            assert forall|i: int, j: int|
                0 <= i < x + 1 && 0 <= j < MAP_HEIGHT implies #[trigger] tile_at(m@, i, j)
                == (Tile { is_blocked: true, is_sight_blocked: true, is_explored: false }) by {
                if i == x {
                    assert(m@[i]@ == colv);
                } else {
                    assert(m@[i] == prev[i]);
                    assert(tile_at(prev, i, j) == (Tile {
                        is_blocked: true,
                        is_sight_blocked: true,
                        is_explored: false,
                    }));
                }
            }
        }
        x += 1;
    }
    m
}

/// Carve the interior of `room` to empty tiles, leaving its one-tile
/// wall border standing.
#[verifier::loop_isolation(false)]
pub fn create_room(room: Rect, map: &mut GameMap)
    requires
        map_wf(old(map)@),
        0 <= room.x1 <= room.x2,
        room.x2 < MAP_WIDTH,
        0 <= room.y1 <= room.y2,
        room.y2 < MAP_HEIGHT,
    ensures
        map_wf(final(map)@),
        forall|x: int, y: int|
            on_map(x, y) ==> #[trigger] tile_at(final(map)@, x, y) == (if room.x1 < x < room.x2
                && room.y1 < y < room.y2 {
                empty_tile()
            } else {
                tile_at(old(map)@, x, y)
            }),
{
    let mut i = room.x1 + 1;
    while i < room.x2
        invariant
            map_wf(map@),
            room.x1 + 1 <= i <= room.x2 + 1,
            room.x1 < room.x2 ==> i <= room.x2,
            forall|x: int, y: int|
                on_map(x, y) ==> #[trigger] tile_at(map@, x, y) == (if room.x1 < x < i && room.y1
                    < y < room.y2 {
                    empty_tile()
                } else {
                    tile_at(old(map)@, x, y)
                }),
        decreases room.x2 - i,
    {
        let mut j = room.y1 + 1;
        while j < room.y2
            invariant
                map_wf(map@),
                room.x1 + 1 <= i < room.x2,
                room.y1 + 1 <= j <= room.y2 + 1,
                room.y1 < room.y2 ==> j <= room.y2,
                forall|x: int, y: int|
                    on_map(x, y) ==> #[trigger] tile_at(map@, x, y) == (if (room.x1 < x < i
                        && room.y1 < y < room.y2) || (x == i && room.y1 < y < j) {
                        empty_tile()
                    } else {
                        tile_at(old(map)@, x, y)
                    }),
            decreases room.y2 - j,
        {
            set_tile(map, i, j, Tile::empty());
            j += 1;
        }
        i += 1;
    }
}

/// Carve a 1-wide horizontal corridor covering the inclusive range
/// between `x1` and `x2` at height `y`.
#[verifier::loop_isolation(false)]
pub fn create_h_tunnel(x1: i32, x2: i32, y: i32, map: &mut GameMap)
    requires
        map_wf(old(map)@),
        on_map(x1 as int, y as int),
        on_map(x2 as int, y as int),
    ensures
        map_wf(final(map)@),
        forall|x: int, j: int|
            on_map(x, j) ==> #[trigger] tile_at(final(map)@, x, j) == (if j == y && between(
                x1 as int,
                x2 as int,
                x,
            ) {
                empty_tile()
            } else {
                tile_at(old(map)@, x, j)
            }),
{
    let start = if x1 < x2 {
        x1
    } else {
        x2
    };
    let end = if x1 < x2 {
        x2
    } else {
        x1
    };
    let mut x = start;
    while x <= end
        invariant
            map_wf(map@),
            start <= x <= end + 1,
            end < MAP_WIDTH,
            0 <= start,
            on_map(start as int, y as int),
            forall|i: int, j: int|
                on_map(i, j) ==> #[trigger] tile_at(map@, i, j) == (if j == y && start <= i < x {
                    empty_tile()
                } else {
                    tile_at(old(map)@, i, j)
                }),
        decreases end + 1 - x,
    {
        set_tile(map, x, y, Tile::empty());
        x += 1;
    }
}

/// Carve a 1-wide vertical corridor covering the inclusive range
/// between `y1` and `y2` at width `x`.
#[verifier::loop_isolation(false)]
pub fn create_v_tunnel(y1: i32, y2: i32, x: i32, map: &mut GameMap)
    requires
        map_wf(old(map)@),
        on_map(x as int, y1 as int),
        on_map(x as int, y2 as int),
    ensures
        map_wf(final(map)@),
        forall|i: int, j: int|
            on_map(i, j) ==> #[trigger] tile_at(final(map)@, i, j) == (if i == x && between(
                y1 as int,
                y2 as int,
                j,
            ) {
                empty_tile()
            } else {
                tile_at(old(map)@, i, j)
            }),
{
    let start = if y1 < y2 {
        y1
    } else {
        y2
    };
    let end = if y1 < y2 {
        y2
    } else {
        y1
    };
    let mut y = start;
    while y <= end
        invariant
            map_wf(map@),
            start <= y <= end + 1,
            end < MAP_HEIGHT,
            0 <= start,
            on_map(x as int, start as int),
            forall|i: int, j: int|
                on_map(i, j) ==> #[trigger] tile_at(map@, i, j) == (if i == x && start <= j < y {
                    empty_tile()
                } else {
                    tile_at(old(map)@, i, j)
                }),
        decreases end + 1 - y,
    {
        set_tile(map, x, y, Tile::empty());
        y += 1;
    }
}

/// A room candidate that fits the grid: at least an interior of one
/// tile, and a wall border that never leaves the map.
pub open spec fn room_in_bounds(r: Rect) -> bool {
    &&& 0 <= r.x1
    &&& r.x1 + 2 <= r.x2
    &&& r.x2 < MAP_WIDTH
    &&& 0 <= r.y1
    &&& r.y1 + 2 <= r.y2
    &&& r.y2 < MAP_HEIGHT
}

/// The center cell of a room, as `Rect::center` computes it.
pub open spec fn room_center(r: Rect) -> (int, int) {
    ((r.x1 + r.x2) / 2, (r.y1 + r.y2) / 2)
}

/// `(x, y)` lies in the carved interior of `r`.
pub open spec fn in_interior(r: Rect, x: int, y: int) -> bool {
    r.x1 < x < r.x2 && r.y1 < y < r.y2
}

/// Every accepted room fits the grid.
pub open spec fn rooms_wf(rooms: Seq<Rect>) -> bool {
    forall|i: int| 0 <= i < rooms.len() ==> room_in_bounds(#[trigger] rooms[i])
}

/// No two accepted rooms intersect.
pub open spec fn rooms_disjoint(rooms: Seq<Rect>) -> bool {
    forall|i: int, j: int|
        0 <= i < j < rooms.len() ==> !spec_intersects(#[trigger] rooms[i], #[trigger] rooms[j])
}

/// The whole interior of `r` is carved open in `m`.
pub open spec fn interior_carved(m: Seq<Vec<Tile>>, r: Rect) -> bool {
    forall|x: int, y: int| in_interior(r, x, y) ==> #[trigger] crate::reach::carved(m, (x, y))
}

/// Every accepted room's interior is carved open.
pub open spec fn rooms_carved(m: Seq<Vec<Tile>>, rooms: Seq<Rect>) -> bool {
    forall|i: int| 0 <= i < rooms.len() ==> interior_carved(m, #[trigger] rooms[i])
}

/// Every accepted room's center can be reached from the first room's
/// center through carved cells.
pub open spec fn rooms_connected(m: Seq<Vec<Tile>>, rooms: Seq<Rect>) -> bool {
    forall|i: int|
        0 <= i < rooms.len() ==> crate::reach::reachable(
            m,
            room_center(rooms[0]),
            room_center(#[trigger] rooms[i]),
        )
}

/// Everything generation guarantees about a grid and its accepted
/// rooms.
pub open spec fn dungeon_wf(m: Seq<Vec<Tile>>, rooms: Seq<Rect>) -> bool {
    &&& map_wf(m)
    &&& border_blocked(m)
    &&& rooms_wf(rooms)
    &&& rooms_disjoint(rooms)
    &&& rooms_carved(m, rooms)
    &&& rooms_connected(m, rooms)
}

/// The cells of the L-shaped corridor between two cells, with the
/// elbow order chosen by `horiz_first`.
pub open spec fn on_elbow(
    from: (int, int),
    to: (int, int),
    horiz_first: bool,
    x: int,
    y: int,
) -> bool {
    if horiz_first {
        (y == from.1 && between(from.0, to.0, x)) || (x == to.0 && between(from.1, to.1, y))
    } else {
        (x == from.0 && between(from.1, to.1, y)) || (y == to.1 && between(from.0, to.0, x))
    }
}

/// The cells one acceptance step carves: the candidate's interior,
/// plus (beyond the first room) the corridor from the previous room's
/// center to the candidate's.
pub open spec fn carved_by_placement(
    c: Rect,
    horiz_first: bool,
    prev: Seq<Rect>,
    x: int,
    y: int,
) -> bool {
    in_interior(c, x, y) || (prev.len() >= 1 && on_elbow(
        room_center(prev[prev.len() - 1]),
        room_center(c),
        horiz_first,
        x,
        y,
    ))
}

/// A solid wall tile, as generation lays the grid down.
pub open spec fn wall_tile() -> Tile {
    Tile { is_blocked: true, is_sight_blocked: true, is_explored: false }
}

/// The cells of either of the two L-shaped corridors between two
/// cells, whichever elbow order the coin chose.
pub open spec fn on_some_elbow(from: (int, int), to: (int, int), x: int, y: int) -> bool {
    on_elbow(from, to, true, x, y) || on_elbow(from, to, false, x, y)
}

/// The region a finished generation is allowed to have carved: the
/// interiors of the accepted rooms, and for each consecutively
/// accepted pair one of the two L-elbows between their centers.
pub open spec fn carved_region(rooms: Seq<Rect>, x: int, y: int) -> bool {
    (exists|i: int| 0 <= i < rooms.len() && in_interior(#[trigger] rooms[i], x, y)) || (exists|
        i: int,
    |
        1 <= i < rooms.len() && on_some_elbow(
            room_center(rooms[i - 1]),
            room_center(#[trigger] rooms[i]),
            x,
            y,
        ))
}

/// An accepted room's side lengths lie within the configured draw
/// bounds.
pub open spec fn room_sized(r: Rect) -> bool {
    ROOM_MIN_SIZE <= r.x2 - r.x1 <= ROOM_MAX_SIZE && ROOM_MIN_SIZE <= r.y2 - r.y1 <= ROOM_MAX_SIZE
}

/// A room's center cell lies in its interior.
pub proof fn lemma_center_in_interior(r: Rect)
    requires
        room_in_bounds(r),
    ensures
        in_interior(r, room_center(r).0, room_center(r).1),
{
    assert(r.x1 < (r.x1 + r.x2) / 2 < r.x2);
    assert(r.y1 < (r.y1 + r.y2) / 2 < r.y2);
}

/// A horizontal run of carved cells connects its ends, whichever way
/// round they are given.
pub proof fn lemma_h_between_reachable(m: Seq<Vec<Tile>>, a: int, b: int, y: int)
    requires
        forall|x: int| between(a, b, x) ==> #[trigger] crate::reach::carved(m, (x, y)),
    ensures
        crate::reach::reachable(m, (a, y), (b, y)),
{
    if a <= b {
        crate::reach::lemma_h_segment_reachable(m, a, b, y);
    } else {
        crate::reach::lemma_h_segment_reachable(m, b, a, y);
        crate::reach::lemma_reachable_sym(m, (b, y), (a, y));
    }
}

/// A vertical run of carved cells connects its ends, whichever way
/// round they are given.
pub proof fn lemma_v_between_reachable(m: Seq<Vec<Tile>>, a: int, b: int, x: int)
    requires
        forall|y: int| between(a, b, y) ==> #[trigger] crate::reach::carved(m, (x, y)),
    ensures
        crate::reach::reachable(m, (x, a), (x, b)),
{
    if a <= b {
        crate::reach::lemma_v_segment_reachable(m, a, b, x);
    } else {
        crate::reach::lemma_v_segment_reachable(m, b, a, x);
        crate::reach::lemma_reachable_sym(m, (x, b), (x, a));
    }
}

/// Within a room whose interior is carved, the center reaches every
/// interior cell: walk the center's row, then the cell's column.
pub proof fn lemma_interior_reachable_from_center(m: Seq<Vec<Tile>>, r: Rect, x: int, y: int)
    requires
        room_in_bounds(r),
        interior_carved(m, r),
        in_interior(r, x, y),
    ensures
        crate::reach::reachable(m, room_center(r), (x, y)),
{
    let c = room_center(r);
    lemma_center_in_interior(r);
    assert forall|i: int| between(c.0, x, i) implies #[trigger] crate::reach::carved(
        m,
        (i, c.1),
    ) by {
        assert(in_interior(r, i, c.1));
    }
    lemma_h_between_reachable(m, c.0, x, c.1);
    assert forall|j: int| between(c.1, y, j) implies #[trigger] crate::reach::carved(
        m,
        (x, j),
    ) by {
        assert(in_interior(r, x, j));
    }
    lemma_v_between_reachable(m, c.1, y, x);
    crate::reach::lemma_reachable_trans(m, c, (x, c.1), (x, y));
}

/// Connectivity law: in a generated dungeon every cell of every
/// accepted room's carved interior can be reached from the first
/// room's center through carved cells alone.
pub proof fn lemma_dungeon_interiors_connected(
    m: Seq<Vec<Tile>>,
    rooms: Seq<Rect>,
    i: int,
    x: int,
    y: int,
)
    requires
        dungeon_wf(m, rooms),
        0 <= i < rooms.len(),
        in_interior(rooms[i], x, y),
    ensures
        crate::reach::reachable(m, room_center(rooms[0]), (x, y)),
{
    lemma_interior_reachable_from_center(m, rooms[i], x, y);
    crate::reach::lemma_reachable_trans(
        m,
        room_center(rooms[0]),
        room_center(rooms[i]),
        (x, y),
    );
}

/// One placement attempt. The candidate is rejected (and nothing
/// changes) exactly when it intersects an already accepted room; on
/// acceptance its interior is carved, the first accepted room seats
/// the player at its center, and every later one is joined to the
/// previous room's center by an L-shaped corridor.
#[verifier::loop_isolation(false)]
pub fn try_place_room(
    candidate: Rect,
    horiz_first: bool,
    map: &mut GameMap,
    rooms: &mut Vec<Rect>,
    game_objects: &mut Vec<GameObject>,
) -> (accepted: bool)
    requires
        dungeon_wf(old(map)@, old(rooms)@),
        room_in_bounds(candidate),
        old(game_objects)@.len() >= 1,
    ensures
        accepted == !(exists|i: int|
            0 <= i < old(rooms)@.len() && spec_intersects(candidate, #[trigger] old(rooms)@[i])),
        !accepted ==> final(map)@ == old(map)@ && final(rooms)@ == old(rooms)@
            && final(game_objects)@ == old(game_objects)@,
        accepted ==> final(rooms)@ == old(rooms)@.push(candidate),
        accepted ==> forall|x: int, y: int|
            on_map(x, y) ==> #[trigger] tile_at(final(map)@, x, y) == (if carved_by_placement(
                candidate,
                horiz_first,
                old(rooms)@,
                x,
                y,
            ) {
                empty_tile()
            } else {
                tile_at(old(map)@, x, y)
            }),
        accepted ==> dungeon_wf(final(map)@, final(rooms)@),
        crate::reach::carve_monotone(old(map)@, final(map)@),
        accepted && old(rooms)@.len() == 0 ==> objs_view(final(game_objects)@) == objs_view(
            old(game_objects)@,
        ).update(
            0,
            (ObjView {
                x: room_center(candidate).0,
                y: room_center(candidate).1,
                ..objs_view(old(game_objects)@)[0]
            }),
        ),
        accepted && old(rooms)@.len() >= 1 ==> final(game_objects)@ == old(game_objects)@,
        map_wf(final(map)@),
        border_blocked(final(map)@),
{
    let ghost old_rooms = rooms@;
    let ghost m0 = map@;
    // check whether the candidate intersects any accepted room
    let mut idx: usize = 0;
    let mut intersects = false;
    while idx < rooms.len()
        invariant
            idx <= rooms.len(),
            rooms@ == old_rooms,
            intersects == exists|i: int|
                0 <= i < idx && spec_intersects(candidate, #[trigger] old_rooms[i]),
        decreases rooms.len() - idx,
    {
        if candidate.intersects_with(&rooms[idx]) {
            intersects = true;
        }
        idx += 1;
    }
    if intersects {
        return false;
    }

    create_room(candidate, map);
    let ghost m1 = map@;
    let (new_x, new_y) = candidate.center();
    proof {
        lemma_center_in_interior(candidate);
    }

    if rooms.len() == 0 {
        // the first accepted room seats the player at its center
        let p = &mut game_objects[0];
        p.set_position(new_x, new_y);
        proof {
            lemma_objs_view_update(old(game_objects)@, 0, final(game_objects)@[0]);
            assert forall|x: int, y: int| on_map(x, y) implies #[trigger] tile_at(map@, x, y) == (
            if carved_by_placement(candidate, horiz_first, old_rooms, x, y) {
                empty_tile()
            } else {
                tile_at(m0, x, y)
            }) by {}
        }
    } else {
        let prev = rooms[rooms.len() - 1];
        let (prev_x, prev_y) = prev.center();
        proof {
            assert(room_in_bounds(prev));
            lemma_center_in_interior(prev);
        }
        if horiz_first {
            create_h_tunnel(prev_x, new_x, prev_y, map);
            let ghost m2 = map@;
            create_v_tunnel(prev_y, new_y, new_x, map);
            proof {
                assert forall|x: int, y: int| on_map(x, y) implies #[trigger] tile_at(map@, x, y)
                    == (if carved_by_placement(candidate, horiz_first, old_rooms, x, y) {
                    empty_tile()
                } else {
                    tile_at(m0, x, y)
                }) by {
                    assert(tile_at(m2, x, y) == (if y == prev_y && between(
                        prev_x as int,
                        new_x as int,
                        x,
                    ) {
                        empty_tile()
                    } else {
                        tile_at(m1, x, y)
                    }));
                }
            }
        } else {
            create_v_tunnel(prev_y, new_y, prev_x, map);
            let ghost m2 = map@;
            create_h_tunnel(prev_x, new_x, new_y, map);
            proof {
                assert forall|x: int, y: int| on_map(x, y) implies #[trigger] tile_at(map@, x, y)
                    == (if carved_by_placement(candidate, horiz_first, old_rooms, x, y) {
                    empty_tile()
                } else {
                    tile_at(m0, x, y)
                }) by {
                    assert(tile_at(m2, x, y) == (if x == prev_x && between(
                        prev_y as int,
                        new_y as int,
                        y,
                    ) {
                        empty_tile()
                    } else {
                        tile_at(m1, x, y)
                    }));
                }
            }
        }
    }
    rooms.push(candidate);

    proof {
        lemma_placement_wf(candidate, horiz_first, m0, map@, old_rooms);
    }
    true
}

/// After one acceptance step whose carving follows
/// `carved_by_placement`, the dungeon invariant holds again.
pub proof fn lemma_placement_wf(
    candidate: Rect,
    horiz_first: bool,
    m0: Seq<Vec<Tile>>,
    m1: Seq<Vec<Tile>>,
    old_rooms: Seq<Rect>,
)
    requires
        dungeon_wf(m0, old_rooms),
        room_in_bounds(candidate),
        !(exists|i: int|
            0 <= i < old_rooms.len() && spec_intersects(candidate, #[trigger] old_rooms[i])),
        map_wf(m1),
        forall|x: int, y: int|
            on_map(x, y) ==> #[trigger] tile_at(m1, x, y) == (if carved_by_placement(
                candidate,
                horiz_first,
                old_rooms,
                x,
                y,
            ) {
                empty_tile()
            } else {
                tile_at(m0, x, y)
            }),
    ensures
        dungeon_wf(m1, old_rooms.push(candidate)),
        crate::reach::carve_monotone(m0, m1),
        border_blocked(m1),
{
    let rooms = old_rooms.push(candidate);
    let c = room_center(candidate);
    lemma_center_in_interior(candidate);

    assert(crate::reach::carve_monotone(m0, m1));

    // carving stays away from the border ring
    assert forall|x: int, y: int|
        on_map(x, y) && (x == 0 || x == MAP_WIDTH - 1 || y == 0 || y == MAP_HEIGHT - 1) implies (
    #[trigger] tile_at(m1, x, y)).is_blocked by {
        if old_rooms.len() >= 1 {
            let prev = old_rooms[old_rooms.len() - 1];
            assert(room_in_bounds(prev));
            lemma_center_in_interior(prev);
        }
        assert(!carved_by_placement(candidate, horiz_first, old_rooms, x, y));
    }

    // every accepted interior is carved
    assert forall|i: int| 0 <= i < rooms.len() implies interior_carved(m1, #[trigger] rooms[i]) by {
        if i < old_rooms.len() {
            assert(interior_carved(m0, old_rooms[i]));
            assert forall|x: int, y: int|
                in_interior(rooms[i], x, y) implies #[trigger] crate::reach::carved(
                m1,
                (x, y),
            ) by {
                assert(crate::reach::carved(m0, (x, y)));
            }
        } else {
            assert(rooms[i] == candidate);
            assert forall|x: int, y: int|
                in_interior(rooms[i], x, y) implies #[trigger] crate::reach::carved(
                m1,
                (x, y),
            ) by {
                assert(carved_by_placement(candidate, horiz_first, old_rooms, x, y));
            }
        }
    }

    // pairwise disjointness extends to the accepted candidate
    assert forall|i: int, j: int|
        0 <= i < j < rooms.len() implies !spec_intersects(
        #[trigger] rooms[i],
        #[trigger] rooms[j],
    ) by {
        if j < old_rooms.len() {
            assert(!spec_intersects(old_rooms[i], old_rooms[j]));
        } else {
            assert(rooms[j] == candidate);
            assert(!spec_intersects(candidate, old_rooms[i]));
        }
    }

    // connectivity: old walks survive carving, and the new corridor
    // joins the candidate's center to the previous room's center
    if old_rooms.len() == 0 {
        assert(rooms[0] == candidate);
        assert(crate::reach::carved(m1, c));
        crate::reach::lemma_reachable_refl(m1, c);
        assert forall|i: int| 0 <= i < rooms.len() implies crate::reach::reachable(
            m1,
            room_center(rooms[0]),
            room_center(#[trigger] rooms[i]),
        ) by {
            assert(rooms[i] == candidate);
        }
    } else {
        let c0 = room_center(old_rooms[0]);
        let prev = old_rooms[old_rooms.len() - 1];
        let pc = room_center(prev);
        assert(room_in_bounds(prev));
        lemma_center_in_interior(prev);
        assert forall|i: int| 0 <= i < old_rooms.len() implies crate::reach::reachable(
            m1,
            c0,
            room_center(#[trigger] old_rooms[i]),
        ) by {
            assert(crate::reach::reachable(m0, c0, room_center(old_rooms[i])));
            crate::reach::lemma_reachable_monotone(
                m0,
                m1,
                c0,
                room_center(old_rooms[i]),
            );
        }
        // the corridor cells are all carved in m1
        if horiz_first {
            assert forall|x: int| between(pc.0, c.0, x) implies #[trigger] crate::reach::carved(
                m1,
                (x, pc.1),
            ) by {
                assert(carved_by_placement(candidate, horiz_first, old_rooms, x, pc.1));
            }
            lemma_h_between_reachable(m1, pc.0, c.0, pc.1);
            assert forall|y: int| between(pc.1, c.1, y) implies #[trigger] crate::reach::carved(
                m1,
                (c.0, y),
            ) by {
                assert(carved_by_placement(candidate, horiz_first, old_rooms, c.0, y));
            }
            lemma_v_between_reachable(m1, pc.1, c.1, c.0);
            crate::reach::lemma_reachable_trans(m1, pc, (c.0, pc.1), (c.0, c.1));
        } else {
            assert forall|y: int| between(pc.1, c.1, y) implies #[trigger] crate::reach::carved(
                m1,
                (pc.0, y),
            ) by {
                assert(carved_by_placement(candidate, horiz_first, old_rooms, pc.0, y));
            }
            lemma_v_between_reachable(m1, pc.1, c.1, pc.0);
            assert forall|x: int| between(pc.0, c.0, x) implies #[trigger] crate::reach::carved(
                m1,
                (x, c.1),
            ) by {
                assert(carved_by_placement(candidate, horiz_first, old_rooms, x, c.1));
            }
            lemma_h_between_reachable(m1, pc.0, c.0, c.1);
            crate::reach::lemma_reachable_trans(m1, pc, (pc.0, c.1), (c.0, c.1));
        }
        crate::reach::lemma_reachable_trans(m1, c0, pc, c);
        assert forall|i: int| 0 <= i < rooms.len() implies crate::reach::reachable(
            m1,
            room_center(rooms[0]),
            room_center(#[trigger] rooms[i]),
        ) by {
            assert(rooms[0] == old_rooms[0]);
            if i < old_rooms.len() {
                assert(crate::reach::reachable(m1, c0, room_center(old_rooms[i])));
            } else {
                assert(rooms[i] == candidate);
            }
        }
    }
}

/// Every monster that generation spawns is exactly a fresh orc or a
/// fresh troll standing at its drawn cell.
pub open spec fn spawned_monster(o: ObjView) -> bool {
    o == orc_view(o.x, o.y) || o == troll_view(o.x, o.y)
}

/// A freshly spawned orc at `(x, y)`: alive at full hit points, with
/// its exact stat block and the monster death behavior.
pub open spec fn orc_view(x: int, y: int) -> ObjView {
    ObjView {
        x,
        y,
        char: 'o',
        name: "Orc"@,
        color: Rgb { r: 63, g: 127, b: 63 },
        blocks_tile: true,
        alive: true,
        fighter: Some(
            Fighter { max_hp: 10, hp: 10, defense: 0, power: 3, on_death: DeathCallback::Monster },
        ),
        ai: Some(Ai::Basic),
    }
}

/// A freshly spawned troll at `(x, y)`: alive at full hit points, with
/// its exact stat block and the monster death behavior.
pub open spec fn troll_view(x: int, y: int) -> ObjView {
    ObjView {
        x,
        y,
        char: 'T',
        name: "Troll"@,
        color: Rgb { r: 0, g: 127, b: 0 },
        blocks_tile: true,
        alive: true,
        fighter: Some(
            Fighter { max_hp: 16, hp: 16, defense: 1, power: 4, on_death: DeathCallback::Monster },
        ),
        ai: Some(Ai::Basic),
    }
}

/// Seed a freshly carved room with monsters: one position draw per
/// monster slot, dropped (not retried) when the cell is occupied.
#[verifier::loop_isolation(false)]
pub fn place_objects(
    room: Rect,
    map: &GameMap,
    game_objects: &mut Vec<GameObject>,
    rng: &mut rand::rngs::StdRng,
)
    requires
        map_wf(map@),
        room_in_bounds(room),
    ensures
        old(game_objects)@.len() <= final(game_objects)@.len() <= old(game_objects)@.len()
            + MAX_ROOM_MONSTERS,
        forall|i: int|
            0 <= i < old(game_objects)@.len() ==> #[trigger] final(game_objects)@[i] == old(
                game_objects,
            )@[i],
        forall|i: int|
            old(game_objects)@.len() <= i < final(game_objects)@.len() ==> spawned_monster(
                #[trigger] objs_view(final(game_objects)@)[i],
            ) && in_interior(
                room,
                objs_view(final(game_objects)@)[i].x,
                objs_view(final(game_objects)@)[i].y,
            ) && !tile_at(
                map@,
                objs_view(final(game_objects)@)[i].x,
                objs_view(final(game_objects)@)[i].y,
            ).is_blocked,
        forall|i: int, j: int|
            old(game_objects)@.len() <= i < final(game_objects)@.len() && 0 <= j < i && (
            #[trigger] objs_view(final(game_objects)@)[j]).blocks_tile ==> !(objs_view(
                final(game_objects)@,
            )[j].x == (#[trigger] objs_view(final(game_objects)@)[i]).x && objs_view(
                final(game_objects)@,
            )[j].y == objs_view(final(game_objects)@)[i].y),
{
    let ghost n0 = game_objects@.len();
    // choose a random number of monsters
    let num_monsters = rng_range(rng, 0, MAX_ROOM_MONSTERS + 1);
    let mut k: i32 = 0;
    while k < num_monsters
        invariant
            0 <= k <= num_monsters,
            n0 <= game_objects@.len() <= n0 + k,
            forall|i: int|
                0 <= i < n0 ==> #[trigger] game_objects@[i] == old(game_objects)@[i],
            forall|i: int|
                n0 <= i < game_objects@.len() ==> spawned_monster(
                    #[trigger] objs_view(game_objects@)[i],
                ) && in_interior(
                    room,
                    objs_view(game_objects@)[i].x,
                    objs_view(game_objects@)[i].y,
                ) && !tile_at(
                    map@,
                    objs_view(game_objects@)[i].x,
                    objs_view(game_objects@)[i].y,
                ).is_blocked,
            forall|i: int, j: int|
                n0 <= i < game_objects@.len() && 0 <= j < i && (#[trigger] objs_view(
                    game_objects@,
                )[j]).blocks_tile ==> !(objs_view(game_objects@)[j].x == (#[trigger] objs_view(
                    game_objects@,
                )[i]).x && objs_view(game_objects@)[j].y == objs_view(game_objects@)[i].y),
        decreases num_monsters - k,
    {
        // one position draw for this monster slot
        let x = rng_range(rng, room.x1 + 1, room.x2);
        let y = rng_range(rng, room.y1 + 1, room.y2);

        // drop the draw if the cell is occupied
        let occupied = is_blocked(x, y, map, game_objects);
        if !occupied {
            let mut monster = if rng_range(rng, 0, 100) < 80 {
                // 80% chance of an orc
                let mut orc = GameObject::new(x, y, 'o', "Orc", desaturated_green(), true);
                orc.fighter = Some(
                    Fighter {
                        max_hp: 10,
                        hp: 10,
                        defense: 0,
                        power: 3,
                        on_death: DeathCallback::Monster,
                    },
                );
                orc.ai = Some(Ai::Basic);
                orc
            } else {
                // 20% chance of a troll
                let mut troll = GameObject::new(x, y, 'T', "Troll", darker_green(), true);
                troll.fighter = Some(
                    Fighter {
                        max_hp: 16,
                        hp: 16,
                        defense: 1,
                        power: 4,
                        on_death: DeathCallback::Monster,
                    },
                );
                troll.ai = Some(Ai::Basic);
                troll
            };
            monster.alive = true;
            let ghost mv = monster@;
            let ghost prev = game_objects@;
            game_objects.push(monster);
            proof {
                assert(mv == orc_view(x as int, y as int) || mv == troll_view(x as int, y as int));
                assert forall|i: int|
                    n0 <= i < game_objects@.len() implies spawned_monster(
                    #[trigger] objs_view(game_objects@)[i],
                ) && in_interior(
                    room,
                    objs_view(game_objects@)[i].x,
                    objs_view(game_objects@)[i].y,
                ) && !tile_at(
                    map@,
                    objs_view(game_objects@)[i].x,
                    objs_view(game_objects@)[i].y,
                ).is_blocked by {
                    assert(objs_view(game_objects@)[i] == game_objects@[i]@);
                    if i < prev.len() {
                        assert(game_objects@[i] == prev[i]);
                        assert(objs_view(prev)[i] == prev[i]@);
                    } else {
                        assert(game_objects@[i]@ == mv);
                    }
                }
                // the drawn cell held no blocking entity, so the new
                // monster shares no cell with any earlier blocker
                assert forall|i: int, j: int|
                    n0 <= i < game_objects@.len() && 0 <= j < i && (#[trigger] objs_view(
                        game_objects@,
                    )[j]).blocks_tile implies !(objs_view(game_objects@)[j].x == (
                #[trigger] objs_view(game_objects@)[i]).x && objs_view(game_objects@)[j].y
                    == objs_view(game_objects@)[i].y) by {
                    assert(objs_view(game_objects@)[i] == game_objects@[i]@);
                    assert(objs_view(game_objects@)[j] == game_objects@[j]@);
                    if i < prev.len() {
                        assert(game_objects@[i] == prev[i]);
                        assert(game_objects@[j] == prev[j]);
                        assert(objs_view(prev)[i] == prev[i]@);
                        assert(objs_view(prev)[j] == prev[j]@);
                    } else {
                        assert(game_objects@[i]@ == mv);
                        assert(game_objects@[j] == prev[j]);
                        assert(objs_view(prev)[j] == prev[j]@);
                        if objs_view(game_objects@)[j].blocks_tile && objs_view(game_objects@)[j].x
                            == x && objs_view(game_objects@)[j].y == y {
                            assert(spec_is_blocked(x as int, y as int, map@, objs_view(prev)));
                        }
                    }
                }
            }
        }
        k += 1;
    }
}

/// Generate a dungeon. Up to `MAX_ROOMS` placements are attempted with
/// random sizes and positions; each candidate that intersects an
/// accepted room is skipped. Accepted rooms are carved, joined by
/// corridors, and seeded with monsters; the first one seats the player
/// (registry slot 0) at its center. The returned rooms are pairwise
/// non-intersecting and all of their centers are reachable from the
/// first room's center over carved tiles, every tile is still solid
/// wall unless an accepted room or corridor carved it, and all of this
/// holds for every outcome of the draws.
#[verifier::loop_isolation(false)]
pub fn make_map(rng: &mut rand::rngs::StdRng, game_objects: &mut Vec<GameObject>) -> (r: (
    GameMap,
    Vec<Rect>,
))
    requires
        old(game_objects)@.len() == 1,
        objs_view(old(game_objects)@)[0].ai is None,
        objs_view(old(game_objects)@)[0].fighter matches Some(f) ==> fighter_wf(f),
    ensures
        dungeon_wf(r.0@, r.1@),
        1 <= r.1@.len() <= MAX_ROOMS,
        world_wf(r.0@, objs_view(final(game_objects)@)),
        final(game_objects)@.len() >= 1,
        objs_view(final(game_objects)@)[0] == (ObjView {
            x: room_center(r.1@[0]).0,
            y: room_center(r.1@[0]).1,
            ..objs_view(old(game_objects)@)[0]
        }),
        forall|i: int|
            1 <= i < final(game_objects)@.len() ==> spawned_monster(
                #[trigger] objs_view(final(game_objects)@)[i],
            ),
        forall|x: int, y: int|
            on_map(x, y) ==> (#[trigger] tile_at(r.0@, x, y) == empty_tile() || tile_at(
                r.0@,
                x,
                y,
            ) == wall_tile()),
        forall|x: int, y: int|
            on_map(x, y) && !(#[trigger] tile_at(r.0@, x, y)).is_blocked ==> carved_region(
                r.1@,
                x,
                y,
            ),
        forall|i: int| 0 <= i < r.1@.len() ==> room_sized(#[trigger] r.1@[i]),
{
    broadcast use lemma_objs_view_len;

    // fill the grid with solid wall
    let mut map = make_walls();
    let mut rooms: Vec<Rect> = Vec::new();

    let mut attempt: i32 = 0;
    while attempt < MAX_ROOMS
        invariant
            0 <= attempt <= MAX_ROOMS,
            dungeon_wf(map@, rooms@),
            rooms@.len() <= attempt,
            attempt >= 1 ==> rooms@.len() >= 1,
            game_objects@.len() >= 1,
            rooms@.len() == 0 ==> game_objects@ == old(game_objects)@,
            rooms@.len() >= 1 ==> objs_view(game_objects@)[0] == (ObjView {
                x: room_center(rooms@[0]).0,
                y: room_center(rooms@[0]).1,
                ..objs_view(old(game_objects)@)[0]
            }),
            rooms@.len() >= 1 ==> forall|i: int|
                0 <= i < game_objects@.len() ==> obj_wf(map@, #[trigger] objs_view(
                    game_objects@,
                )[i]),
            forall|i: int|
                1 <= i < game_objects@.len() ==> spawned_monster(
                    #[trigger] objs_view(game_objects@)[i],
                ),
            forall|x: int, y: int|
                on_map(x, y) ==> (#[trigger] tile_at(map@, x, y) == empty_tile() || tile_at(
                    map@,
                    x,
                    y,
                ) == wall_tile()),
            forall|x: int, y: int|
                on_map(x, y) && !(#[trigger] tile_at(map@, x, y)).is_blocked ==> carved_region(
                    rooms@,
                    x,
                    y,
                ),
            forall|i: int| 0 <= i < rooms@.len() ==> room_sized(#[trigger] rooms@[i]),
        decreases MAX_ROOMS - attempt,
    {
        // random width and height
        let w = rng_range(rng, ROOM_MIN_SIZE, ROOM_MAX_SIZE + 1);
        let h = rng_range(rng, ROOM_MIN_SIZE, ROOM_MAX_SIZE + 1);
        // random position fitting inside the map
        let x = rng_range(rng, 0, MAP_WIDTH - w);
        let y = rng_range(rng, 0, MAP_HEIGHT - h);
        let new_room = Rect::new(x, y, w, h);
        let horiz_first = rng_coin(rng);

        let ghost pre_rooms = rooms@;
        let ghost pre_objs = objs_view(game_objects@);
        let ghost pre_map = map@;
        let accepted = try_place_room(new_room, horiz_first, &mut map, &mut rooms, game_objects);
        if accepted {
            proof {
                // every previously placed entity still stands on an
                // unblocked tile after carving, and the player of a
                // first accepted room sits on its freshly carved center
                lemma_center_in_interior(new_room);
                assert(rooms@[0] == (if pre_rooms.len() == 0 {
                    new_room
                } else {
                    pre_rooms[0]
                }));
                assert(interior_carved(map@, new_room));
                assert forall|i: int|
                    0 <= i < game_objects@.len() implies obj_wf(map@, #[trigger] objs_view(
                    game_objects@,
                )[i]) by {
                    assert(objs_view(game_objects@)[i] == game_objects@[i]@);
                    if pre_rooms.len() >= 1 {
                        assert(objs_view(game_objects@)[i] == pre_objs[i]);
                        assert(obj_wf(pre_map, pre_objs[i]));
                    } else {
                        assert(i == 0);
                        assert(objs_view(game_objects@)[0] == (ObjView {
                            x: room_center(new_room).0,
                            y: room_center(new_room).1,
                            ..pre_objs[0]
                        }));
                        assert(crate::reach::carved(
                            map@,
                            (room_center(new_room).0, room_center(new_room).1),
                        ));
                    }
                }
            }
            proof {
                // each accepted side length is exactly a draw
                assert(room_sized(new_room));
                assert forall|i: int| 0 <= i < rooms@.len() implies room_sized(
                    #[trigger] rooms@[i],
                ) by {
                    if i < pre_rooms.len() {
                        assert(rooms@[i] == pre_rooms[i]);
                    } else {
                        assert(rooms@[i] == new_room);
                    }
                }
                // carving writes empty tiles and touches nothing else,
                // so the wall-or-empty dichotomy survives
                assert forall|x: int, y: int| on_map(x, y) implies (#[trigger] tile_at(
                    map@,
                    x,
                    y,
                ) == empty_tile() || tile_at(map@, x, y) == wall_tile()) by {
                    assert(tile_at(pre_map, x, y) == empty_tile() || tile_at(pre_map, x, y)
                        == wall_tile());
                }
                // every carved cell lies in an accepted interior or on
                // an elbow between consecutively accepted centers
                assert forall|x: int, y: int|
                    on_map(x, y) && !(#[trigger] tile_at(map@, x, y)).is_blocked implies
                    carved_region(rooms@, x, y) by {
                    if carved_by_placement(new_room, horiz_first, pre_rooms, x, y) {
                        if in_interior(new_room, x, y) {
                            let w = rooms@.len() - 1;
                            assert(rooms@[w] == new_room);
                            assert(0 <= w < rooms@.len() && in_interior(rooms@[w], x, y));
                        } else {
                            let w = rooms@.len() - 1;
                            assert(rooms@[w] == new_room);
                            assert(rooms@[w - 1] == pre_rooms[pre_rooms.len() - 1]);
                            assert(1 <= w < rooms@.len() && on_some_elbow(
                                room_center(rooms@[w - 1]),
                                room_center(rooms@[w]),
                                x,
                                y,
                            ));
                        }
                    } else {
                        assert(!tile_at(pre_map, x, y).is_blocked);
                        assert(carved_region(pre_rooms, x, y));
                        if exists|i: int|
                            0 <= i < pre_rooms.len() && in_interior(#[trigger] pre_rooms[i], x, y) {
                            let w = choose|i: int|
                                0 <= i < pre_rooms.len() && in_interior(
                                    #[trigger] pre_rooms[i],
                                    x,
                                    y,
                                );
                            assert(rooms@[w] == pre_rooms[w]);
                            assert(0 <= w < rooms@.len() && in_interior(rooms@[w], x, y));
                        } else {
                            let w = choose|i: int|
                                1 <= i < pre_rooms.len() && on_some_elbow(
                                    room_center(pre_rooms[i - 1]),
                                    room_center(#[trigger] pre_rooms[i]),
                                    x,
                                    y,
                                );
                            assert(rooms@[w] == pre_rooms[w]);
                            assert(rooms@[w - 1] == pre_rooms[w - 1]);
                            assert(1 <= w < rooms@.len() && on_some_elbow(
                                room_center(rooms@[w - 1]),
                                room_center(rooms@[w]),
                                x,
                                y,
                            ));
                        }
                    }
                }
            }
            let ghost mid = game_objects@;
            let room_last = rooms[rooms.len() - 1];
            proof {
                assert(room_last == new_room);
            }
            place_objects(room_last, &map, game_objects, rng);
            proof {
                assert forall|i: int|
                    0 <= i < game_objects@.len() implies obj_wf(map@, #[trigger] objs_view(
                    game_objects@,
                )[i]) by {
                    assert(objs_view(game_objects@)[i] == game_objects@[i]@);
                    if i < mid.len() {
                        assert(game_objects@[i] == mid[i]);
                        assert(objs_view(mid)[i] == mid[i]@);
                        assert(obj_wf(map@, objs_view(mid)[i]));
                    } else {
                        assert(spawned_monster(objs_view(game_objects@)[i]));
                        assert(in_interior(
                            new_room,
                            objs_view(game_objects@)[i].x,
                            objs_view(game_objects@)[i].y,
                        ));
                    }
                }
                assert forall|i: int|
                    1 <= i < game_objects@.len() implies spawned_monster(
                    #[trigger] objs_view(game_objects@)[i],
                ) by {
                    assert(objs_view(game_objects@)[i] == game_objects@[i]@);
                    if i < mid.len() {
                        assert(game_objects@[i] == mid[i]);
                        assert(objs_view(mid)[i] == mid[i]@);
                    }
                }
                assert(objs_view(game_objects@)[0] == game_objects@[0]@);
                assert(game_objects@[0] == mid[0]);
                assert(objs_view(mid)[0] == mid[0]@);
            }
        }
        attempt += 1;
    }
    (map, rooms)
}

/// The player's resolved intent keeps the world invariant, whether it
/// ends as a step or as an attack on a still-living monster.
pub proof fn lemma_player_action_preserves_world(
    m: Seq<Vec<Tile>>,
    objs: Seq<ObjView>,
    dx: int,
    dy: int,
)
    requires
        world_wf(m, objs),
        -1 <= dx <= 1,
        -1 <= dy <= 1,
        !(dx == 0 && dy == 0),
        0 < objs[PLAYER as int].x < MAP_WIDTH - 1,
        0 < objs[PLAYER as int].y < MAP_HEIGHT - 1,
    ensures
        world_wf(m, spec_player_move_or_attack(dx, dy, m, objs).0),
{
    let x = objs[PLAYER as int].x + dx;
    let y = objs[PLAYER as int].y + dy;
    lemma_find_target_props(objs, x, y);
    match spec_find_target(objs, x, y) {
        Some(t) => {
            if t == PLAYER as int {
                assert(false);
            }
            lemma_attack_preserves_world(m, objs, PLAYER as int, t);
        },
        None => {
            lemma_move_preserves_world(m, objs, PLAYER as int, dx, dy);
        },
    }
}

} // verus!
