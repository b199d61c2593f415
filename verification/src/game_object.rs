use vstd::prelude::*;

verus! {

use vstd::string::StringExecFns;
use crate::colors::{white, Rgb};
use crate::fighter::{fighter_wf, Ai, DeathCallback, Fighter, STAT_LIMIT};
use crate::game::{map_wf, on_map, tile_at, GameMap};
use crate::tile::Tile;
use crate::messages::{i32_to_string, spec_int_digits, MessageView, Messages};
use crate::{MAP_HEIGHT, MAP_WIDTH, PLAYER};

/// A generic entity on the map: the player, a monster, a corpse. Always
/// drawn as one character; slot 0 of the registry is the player.
#[derive(Debug)]
pub struct GameObject {
    pub x: i32,
    pub y: i32,
    pub char: char,
    pub name: String,
    pub color: Rgb,
    pub blocks_tile: bool,
    pub alive: bool,
    pub fighter: Option<Fighter>,
    pub ai: Option<Ai>,
}

/// The mathematical image of a `GameObject`: the same fields with the
/// name as a character sequence.
pub ghost struct ObjView {
    pub x: int,
    pub y: int,
    pub char: char,
    pub name: Seq<char>,
    pub color: Rgb,
    pub blocks_tile: bool,
    pub alive: bool,
    pub fighter: Option<Fighter>,
    pub ai: Option<Ai>,
}

impl View for GameObject {
    type V = ObjView;

    open spec fn view(&self) -> ObjView {
        ObjView {
            x: self.x as int,
            y: self.y as int,
            char: self.char,
            name: self.name@,
            color: self.color,
            blocks_tile: self.blocks_tile,
            alive: self.alive,
            fighter: self.fighter,
            ai: self.ai,
        }
    }
}

/// The registry seen as a sequence of entity views.
pub open spec fn objs_view(s: Seq<GameObject>) -> Seq<ObjView> {
    s.map_values(|o: GameObject| o@)
}

/// Attack power contributed by an entity: its fighter's power, or zero
/// for an entity with no combat component.
pub open spec fn power_of(o: ObjView) -> int {
    match o.fighter {
        Some(f) => f.power as int,
        None => 0,
    }
}

/// Damage soaked by an entity: its fighter's defense, or zero for an
/// entity with no combat component.
pub open spec fn defense_of(o: ObjView) -> int {
    match o.fighter {
        Some(f) => f.defense as int,
        None => 0,
    }
}

/// A corpse, player and monster alike: inert remains that no longer
/// block the tile, fight, or act, renamed to mark them. The death
/// behavior selector only chooses the announcements.
pub open spec fn view_corpse(o: ObjView) -> ObjView {
    ObjView {
        char: '%',
        color: (Rgb { r: 191, g: 0, b: 0 }),
        blocks_tile: false,
        fighter: None,
        ai: None,
        name: "The remains of "@ + o.name,
        ..o
    }
}

/// Log entries announcing the player's death.
pub open spec fn view_player_death_messages() -> Seq<MessageView> {
    seq![
        MessageView { text: "You died!"@, color: (Rgb { r: 255, g: 0, b: 0 }) },
        MessageView { text: "Press ESC to QUIT."@, color: (Rgb { r: 63, g: 63, b: 255 }) },
    ]
}

/// The log entry announcing a monster's death, under its old name.
pub open spec fn view_monster_death_messages(name: Seq<char>) -> Seq<MessageView> {
    seq![MessageView { text: name + " has died!"@, color: (Rgb { r: 255, g: 127, b: 0 }) }]
}

/// The entity after `damage` is applied: positive damage is subtracted
/// from the hit points, and if the hit points end at or below zero the
/// corpse transition fires exactly once; the fighter's death selector
/// only chooses the announcements.
pub open spec fn view_after_damage(o: ObjView, damage: int) -> ObjView {
    match o.fighter {
        None => o,
        Some(f) => {
            let f2 = if damage > 0 {
                Fighter { hp: (f.hp - damage) as i32, ..f }
            } else {
                f
            };
            let o2 = ObjView { fighter: Some(f2), ..o };
            if f2.hp <= 0 {
                view_corpse(ObjView { alive: false, ..o2 })
            } else {
                o2
            }
        },
    }
}

/// Log entries produced by applying `damage`: the death announcements,
/// if the damage kills.
pub open spec fn view_damage_messages(o: ObjView, damage: int) -> Seq<MessageView> {
    match o.fighter {
        None => Seq::empty(),
        Some(f) => {
            let f2 = if damage > 0 {
                Fighter { hp: (f.hp - damage) as i32, ..f }
            } else {
                f
            };
            if f2.hp <= 0 {
                match f2.on_death {
                    DeathCallback::Player => view_player_death_messages(),
                    DeathCallback::Monster => view_monster_death_messages(o.name),
                }
            } else {
                Seq::empty()
            }
        },
    }
}

/// The target after one attack by an entity of the given power: the
/// damage is the power minus the target's defense, applied only when
/// positive ("deflected" otherwise).
pub open spec fn view_after_attack(apower: int, t: ObjView) -> ObjView {
    let damage = apower - defense_of(t);
    if damage > 0 {
        view_after_damage(t, damage)
    } else {
        t
    }
}

/// Log entries produced by one attack: the hit or deflection report,
/// then any death announcements.
pub open spec fn view_attack_messages(aname: Seq<char>, apower: int, t: ObjView) -> Seq<
    MessageView,
> {
    let damage = apower - defense_of(t);
    if damage > 0 {
        seq![
            MessageView {
                text: aname + " attacks "@ + t.name + " for "@ + spec_int_digits(damage)
                    + " hit points."@,
                color: (Rgb { r: 255, g: 255, b: 255 }),
            },
        ] + view_damage_messages(t, damage)
    } else {
        seq![
            MessageView {
                text: aname + " attacks "@ + t.name + " but the attack is deflected by "@ + t.name
                    + "'s armor."@,
                color: (Rgb { r: 255, g: 255, b: 255 }),
            },
        ]
    }
}

impl GameObject {
    pub fn new(x: i32, y: i32, char: char, name: &str, color: Rgb, blocks_tile: bool) -> (o:
        GameObject)
        ensures
            o@ == (ObjView {
                x: x as int,
                y: y as int,
                char,
                name: name@,
                color,
                blocks_tile,
                alive: false,
                fighter: None,
                ai: None,
            }),
    {
        GameObject {
            x,
            y,
            char,
            name: name.to_owned(),
            color,
            blocks_tile,
            alive: false,
            fighter: None,
            ai: None,
        }
    }

    pub fn get_position(&self) -> (p: (i32, i32))
        ensures
            p.0 == self.x,
            p.1 == self.y,
    {
        (self.x, self.y)
    }

    pub fn set_position(&mut self, x: i32, y: i32)
        ensures
            final(self)@ == (ObjView { x: x as int, y: y as int, ..old(self)@ }),
    {
        self.x = x;
        self.y = y;
    }

    /// The squared Euclidean distance to another entity. The straight
    /// distance itself is irrational in general; every comparison the
    /// core makes can be phrased on the square instead.
    pub fn distance_sq(&self, other: &GameObject) -> (d: i64)
        requires
            -1000000 <= self.x <= 1000000,
            -1000000 <= self.y <= 1000000,
            -1000000 <= other.x <= 1000000,
            -1000000 <= other.y <= 1000000,
        ensures
            d == (other@.x - self@.x) * (other@.x - self@.x) + (other@.y - self@.y) * (other@.y
                - self@.y),
    {
        let dx: i64 = other.x as i64 - self.x as i64;
        let dy: i64 = other.y as i64 - self.y as i64;
        proof {
            assert(0 <= dx * dx <= 4000000000000 && 0 <= dy * dy <= 4000000000000)
                by (nonlinear_arith)
                requires
                    -2000000 <= dx <= 2000000,
                    -2000000 <= dy <= 2000000,
            ;
        }
        dx * dx + dy * dy
    }

    /// Apply damage to this entity, firing the death transition when the
    /// hit points end at or below zero.
    pub fn take_damage(&mut self, damage: i32, messages: &mut Messages)
        requires
            old(self)@.fighter matches Some(f) ==> f.hp - damage >= i32::MIN,
        ensures
            final(self)@ == view_after_damage(old(self)@, damage as int),
            final(messages)@ == old(messages)@ + view_damage_messages(old(self)@, damage as int),
    {
        let ghost prior = messages@;
        if let Some(f) = self.fighter {
            if damage > 0 {
                self.fighter = Some(Fighter { hp: f.hp - damage, ..f });
            }
        }
        let mut died = false;
        if let Some(f) = self.fighter {
            if f.hp <= 0 {
                self.alive = false;
                f.on_death.callback(self, messages);
                died = true;
            }
        }
        proof {
            if !died {
                assert(messages@ =~= prior + view_damage_messages(old(self)@, damage as int));
            }
        }
    }

    /// One melee attack against `target`, reporting the outcome to the
    /// log. The attacker itself is left unchanged.
    pub fn attack(&mut self, target: &mut GameObject, messages: &mut Messages)
        requires
            old(self)@.fighter matches Some(f) ==> fighter_wf(f),
            old(target)@.fighter matches Some(f) ==> fighter_wf(f),
        ensures
            final(self)@ == old(self)@,
            final(target)@ == view_after_attack(power_of(old(self)@), old(target)@),
            final(messages)@ == old(messages)@ + view_attack_messages(
                old(self)@.name,
                power_of(old(self)@),
                old(target)@,
            ),
    {
        let my_power = match self.fighter {
            Some(f) => f.power,
            None => 0,
        };
        attack_with(&self.name, my_power, target, messages);
    }
}

/// The core of one attack, taking the attacker's identity as plain
/// values so registry-level code can attack between two slots of one
/// vector.
pub fn attack_with(
    attacker_name: &String,
    attacker_power: i32,
    target: &mut GameObject,
    messages: &mut Messages,
)
    requires
        0 <= attacker_power <= STAT_LIMIT,
        old(target)@.fighter matches Some(f) ==> fighter_wf(f),
    ensures
        final(target)@ == view_after_attack(attacker_power as int, old(target)@),
        final(messages)@ == old(messages)@ + view_attack_messages(
            attacker_name@,
            attacker_power as int,
            old(target)@,
        ),
{
    let ghost prior = messages@;
    let target_defense = match target.fighter {
        Some(f) => f.defense,
        None => 0,
    };
    let damage = attacker_power - target_defense;
    if damage > 0 {
        let mut msg = attacker_name.clone();
        msg.append(" attacks ");
        msg.append(target.name.as_str());
        msg.append(" for ");
        let digits = i32_to_string(damage);
        msg.append(digits.as_str());
        msg.append(" hit points.");
        messages.add(msg, white());
        target.take_damage(damage, messages);
        proof {
            assert(messages@ =~= prior + view_attack_messages(
                attacker_name@,
                attacker_power as int,
                old(target)@,
            ));
        }
    } else {
        let mut msg = attacker_name.clone();
        msg.append(" attacks ");
        msg.append(target.name.as_str());
        msg.append(" but the attack is deflected by ");
        msg.append(target.name.as_str());
        msg.append("'s armor.");
        messages.add(msg, white());
        proof {
            assert(messages@ =~= prior + view_attack_messages(
                attacker_name@,
                attacker_power as int,
                old(target)@,
            ));
        }
    }
}

/// Damage law: an attack whose net damage (attacker's power minus the
/// target's defense) is positive reduces the target's hit points by
/// exactly that amount, as long as the target survives it; an attack
/// whose net damage is zero or negative leaves the target entirely
/// unchanged.
pub proof fn lemma_damage_law(apower: int, t: ObjView)
    requires
        t.fighter is Some,
        t.fighter.unwrap().hp - (apower - defense_of(t)) >= i32::MIN,
    ensures
        apower - defense_of(t) > 0 && t.fighter.unwrap().hp - (apower - defense_of(t)) > 0
            ==> view_after_attack(apower, t) == (ObjView {
            fighter: Some(
                Fighter {
                    hp: (t.fighter.unwrap().hp - (apower - defense_of(t))) as i32,
                    ..t.fighter.unwrap()
                },
            ),
            ..t
        }),
        apower - defense_of(t) <= 0 ==> view_after_attack(apower, t) == t,
{
}

/// Death transition law: when positive damage drives an entity's hit
/// points to or below zero, the death transition fires exactly once,
/// whichever death behavior is selected: the entity stops being alive,
/// stops blocking its tile, loses its combat component and its AI tag,
/// and its name is rewritten to mark it as remains. It stays where it
/// died, and once its combat component is gone nothing fires again.
pub proof fn lemma_death_transition(o: ObjView, damage: int)
    requires
        damage > 0,
        o.fighter matches Some(f) && f.hp - damage <= 0 && f.hp - damage >= i32::MIN,
    ensures
        !view_after_damage(o, damage).alive,
        !view_after_damage(o, damage).blocks_tile,
        view_after_damage(o, damage).fighter is None,
        view_after_damage(o, damage).ai is None,
        view_after_damage(o, damage).name == "The remains of "@ + o.name,
        view_after_damage(o, damage).x == o.x,
        view_after_damage(o, damage).y == o.y,
{
}

/// A corpse is inert: once the death transition has removed the combat
/// component, applying any further damage changes nothing and reports
/// nothing.
pub proof fn lemma_corpse_inert(o: ObjView, damage: int)
    requires
        o.fighter is None,
    ensures
        view_after_damage(o, damage) == o,
        view_damage_messages(o, damage) == Seq::<MessageView>::empty(),
{
}

/// A cell may not be entered when its tile is blocked or some entity
/// that participates in occupancy stands on it. This predicate is the
/// single source of truth for occupancy.
pub open spec fn spec_is_blocked(x: int, y: int, m: Seq<Vec<Tile>>, objs: Seq<ObjView>) -> bool {
    tile_at(m, x, y).is_blocked || exists|i: int|
        0 <= i < objs.len() && (#[trigger] objs[i]).blocks_tile && objs[i].x == x && objs[i].y == y
}

/// Decide whether the cell `(x, y)` may be entered.
pub fn is_blocked(x: i32, y: i32, map: &GameMap, game_objects: &Vec<GameObject>) -> (r: bool)
    requires
        map_wf(map@),
        on_map(x as int, y as int),
    ensures
        r == spec_is_blocked(x as int, y as int, map@, objs_view(game_objects@)),
{
    // first check the map for blocking tiles:
    if map[x as usize][y as usize].is_blocked {
        return true;
    }
    // then check for blocking game objects:
    let ghost objs = objs_view(game_objects@);
    let mut i: usize = 0;
    while i < game_objects.len()
        invariant
            objs == objs_view(game_objects@),
            i <= game_objects.len(),
            forall|j: int|
                0 <= j < i ==> !((#[trigger] objs[j]).blocks_tile && objs[j].x == x && objs[j].y
                    == y),
        decreases game_objects.len() - i,
    {
        let o = &game_objects[i];
        if o.blocks_tile && o.x == x && o.y == y {
            assert(objs[i as int].blocks_tile && objs[i as int].x == x && objs[i as int].y == y);
            return true;
        }
        i += 1;
    }
    false
}

/// The registry view has one entry per entity.
pub broadcast proof fn lemma_objs_view_len(s: Seq<GameObject>)
    ensures
        (#[trigger] objs_view(s)).len() == s.len(),
{
}

/// Updating one slot of the registry updates the same slot of its view.
pub proof fn lemma_objs_view_update(s: Seq<GameObject>, i: int, o: GameObject)
    requires
        0 <= i < s.len(),
    ensures
        objs_view(s.update(i, o)) == objs_view(s).update(i, o@),
{
    assert(objs_view(s.update(i, o)) =~= objs_view(s).update(i, o@));
}

/// The registry after an entity tries to step by `(dx, dy)`: the step
/// happens exactly when the destination cell is not blocked, and a
/// blocked destination is a silent no-op.
pub open spec fn spec_move_by(index: int, dx: int, dy: int, m: Seq<Vec<Tile>>, objs: Seq<ObjView>)
    -> Seq<ObjView> {
    let o = objs[index];
    if !spec_is_blocked(o.x + dx, o.y + dy, m, objs) {
        objs.update(index, ObjView { x: o.x + dx, y: o.y + dy, ..o })
    } else {
        objs
    }
}

/// Step the entity in slot `index` by `(dx, dy)` if the destination is
/// not blocked.
pub fn move_by(index: usize, dx: i32, dy: i32, map: &GameMap, game_objects: &mut Vec<GameObject>)
    requires
        map_wf(map@),
        index < old(game_objects)@.len(),
        on_map(
            objs_view(old(game_objects)@)[index as int].x + dx,
            objs_view(old(game_objects)@)[index as int].y + dy,
        ),
    ensures
        objs_view(final(game_objects)@) == spec_move_by(
            index as int,
            dx as int,
            dy as int,
            map@,
            objs_view(old(game_objects)@),
        ),
{
    let (x, y) = game_objects[index].get_position();
    let can_move = !is_blocked(x + dx, y + dy, map, game_objects);
    if can_move {
        let o = &mut game_objects[index];
        o.set_position(x + dx, y + dy);
        proof {
            lemma_objs_view_update(
                old(game_objects)@,
                index as int,
                final(game_objects)@[index as int],
            );
        }
    }
}

/// The unit grid step toward a displacement `(dx, dy)`: each axis moves
/// by one when its share of the straight-line direction rounds to a
/// full step, which for integer displacements is exactly when
/// `3*dx*dx >= dy*dy` (and symmetrically), so the step is the nearest
/// of the 8 grid directions and a zero displacement stays put.
pub open spec fn spec_step_toward(dx: int, dy: int) -> (int, int) {
    (
        if 3 * dx * dx >= dy * dy {
            if dx > 0 {
                1int
            } else if dx < 0 {
                -1int
            } else {
                0int
            }
        } else {
            0int
        },
        if 3 * dy * dy >= dx * dx {
            if dy > 0 {
                1int
            } else if dy < 0 {
                -1int
            } else {
                0int
            }
        } else {
            0int
        },
    )
}

/// Step the entity in slot `index` one cell toward `(target_x,
/// target_y)`, normalizing the straight-line direction to one of the 8
/// grid directions; the step is then subject to occupancy like any
/// other move.
pub fn move_toward(
    index: usize,
    target_x: i32,
    target_y: i32,
    map: &GameMap,
    game_objects: &mut Vec<GameObject>,
)
    requires
        map_wf(map@),
        index < old(game_objects)@.len(),
        0 < objs_view(old(game_objects)@)[index as int].x < MAP_WIDTH - 1,
        0 < objs_view(old(game_objects)@)[index as int].y < MAP_HEIGHT - 1,
        on_map(target_x as int, target_y as int),
    ensures
        objs_view(final(game_objects)@) == spec_move_by(
            index as int,
            spec_step_toward(
                target_x - objs_view(old(game_objects)@)[index as int].x,
                target_y - objs_view(old(game_objects)@)[index as int].y,
            ).0,
            spec_step_toward(
                target_x - objs_view(old(game_objects)@)[index as int].x,
                target_y - objs_view(old(game_objects)@)[index as int].y,
            ).1,
            map@,
            objs_view(old(game_objects)@),
        ),
{
    proof {
        assert(objs_view(game_objects@)[index as int] == game_objects@[index as int]@);
    }
    // vector from this object to the target
    let dx = target_x - game_objects[index].x;
    let dy = target_y - game_objects[index].y;
    proof {
        assert(0 <= 3 * dx * dx <= 19200 && 0 <= 3 * dy * dy <= 19200 && 0 <= dx * dx <= 6400 && 0
            <= dy * dy <= 6400) by (nonlinear_arith)
            requires
                -80 <= dx <= 80,
                -80 <= dy <= 80,
        ;
    }
    // normalize it to length 1 (preserving direction) rounded to the
    // grid; on integer inputs comparing 3*dx*dx against dy*dy is the
    // same test as rounding dx divided by the straight distance
    let sx: i32 = if 3 * dx * dx >= dy * dy {
        if dx > 0 {
            1
        } else if dx < 0 {
            -1
        } else {
            0
        }
    } else {
        0
    };
    let sy: i32 = if 3 * dy * dy >= dx * dx {
        if dy > 0 {
            1
        } else if dy < 0 {
            -1
        } else {
            0
        }
    } else {
        0
    };
    move_by(index, sx, sy, map, game_objects);
}

/// One attack between two distinct registry slots: the attacker is
/// read, the target is struck.
pub fn attack_indices(
    attacker: usize,
    target: usize,
    game_objects: &mut Vec<GameObject>,
    messages: &mut Messages,
)
    requires
        attacker != target,
        attacker < old(game_objects)@.len(),
        target < old(game_objects)@.len(),
        objs_view(old(game_objects)@)[attacker as int].fighter matches Some(f) ==> fighter_wf(f),
        objs_view(old(game_objects)@)[target as int].fighter matches Some(f) ==> fighter_wf(f),
    ensures
        objs_view(final(game_objects)@) == objs_view(old(game_objects)@).update(
            target as int,
            view_after_attack(
                power_of(objs_view(old(game_objects)@)[attacker as int]),
                objs_view(old(game_objects)@)[target as int],
            ),
        ),
        final(messages)@ == old(messages)@ + view_attack_messages(
            objs_view(old(game_objects)@)[attacker as int].name,
            power_of(objs_view(old(game_objects)@)[attacker as int]),
            objs_view(old(game_objects)@)[target as int],
        ),
{
    proof {
        assert(objs_view(game_objects@)[attacker as int] == game_objects@[attacker as int]@);
        assert(objs_view(game_objects@)[target as int] == game_objects@[target as int]@);
    }
    let name = game_objects[attacker].name.clone();
    let power = match game_objects[attacker].fighter {
        Some(f) => f.power,
        None => 0,
    };
    let t = &mut game_objects[target];
    attack_with(&name, power, t, messages);
    proof {
        lemma_objs_view_update(
            old(game_objects)@,
            target as int,
            final(game_objects)@[target as int],
        );
    }
}

/// The first registry slot holding a living entity with a combat
/// component that stands at `(x, y)`.
pub open spec fn spec_find_target(objs: Seq<ObjView>, x: int, y: int) -> Option<int>
    decreases objs.len(),
{
    if objs.len() == 0 {
        None
    } else if objs[0].alive && objs[0].fighter is Some && objs[0].x == x && objs[0].y == y {
        Some(0int)
    } else {
        match spec_find_target(objs.drop_first(), x, y) {
            Some(i) => Some(i + 1),
            None => None,
        }
    }
}

/// `spec_find_target` returns exactly the first matching slot, and
/// `None` exactly when no slot matches.
pub proof fn lemma_find_target_props(objs: Seq<ObjView>, x: int, y: int)
    ensures
        match spec_find_target(objs, x, y) {
            None => forall|i: int|
                0 <= i < objs.len() ==> !((#[trigger] objs[i]).alive && objs[i].fighter is Some
                    && objs[i].x == x && objs[i].y == y),
            Some(t) => 0 <= t < objs.len() && objs[t].alive && objs[t].fighter is Some && objs[t].x
                == x && objs[t].y == y && forall|i: int|
                0 <= i < t ==> !((#[trigger] objs[i]).alive && objs[i].fighter is Some && objs[i].x
                    == x && objs[i].y == y),
        },
    decreases objs.len(),
{
    if objs.len() > 0 {
        lemma_find_target_props(objs.drop_first(), x, y);
        assert forall|i: int| 1 <= i < objs.len() implies objs.drop_first()[i - 1] == objs[i] by {}
    }
}

/// The registry and log after the player either attacks the first
/// living combat-capable entity at the destination cell, or else tries
/// to step there: exactly one of the two happens.
pub open spec fn spec_player_move_or_attack(
    dx: int,
    dy: int,
    m: Seq<Vec<Tile>>,
    objs: Seq<ObjView>,
) -> (Seq<ObjView>, Seq<MessageView>) {
    let x = objs[PLAYER as int].x + dx;
    let y = objs[PLAYER as int].y + dy;
    match spec_find_target(objs, x, y) {
        Some(t) => (
            objs.update(t, view_after_attack(power_of(objs[PLAYER as int]), objs[t])),
            view_attack_messages(
                objs[PLAYER as int].name,
                power_of(objs[PLAYER as int]),
                objs[t],
            ),
        ),
        None => (spec_move_by(PLAYER as int, dx, dy, m, objs), Seq::<MessageView>::empty()),
    }
}

/// Resolve the player's movement intent: attack the entity at the
/// destination if a living one with a combat component stands there,
/// else step.
pub fn player_move_or_attack(
    dx: i32,
    dy: i32,
    map: &GameMap,
    game_objects: &mut Vec<GameObject>,
    messages: &mut Messages,
)
    requires
        map_wf(map@),
        old(game_objects)@.len() >= 1,
        -1 <= dx <= 1,
        -1 <= dy <= 1,
        !(dx == 0 && dy == 0),
        0 < objs_view(old(game_objects)@)[PLAYER as int].x < MAP_WIDTH - 1,
        0 < objs_view(old(game_objects)@)[PLAYER as int].y < MAP_HEIGHT - 1,
        forall|i: int|
            0 <= i < old(game_objects)@.len() ==> ((#[trigger] objs_view(old(game_objects)@)[i]).fighter
                matches Some(f) ==> fighter_wf(f)),
    ensures
        objs_view(final(game_objects)@) == spec_player_move_or_attack(
            dx as int,
            dy as int,
            map@,
            objs_view(old(game_objects)@),
        ).0,
        final(messages)@ == old(messages)@ + spec_player_move_or_attack(
            dx as int,
            dy as int,
            map@,
            objs_view(old(game_objects)@),
        ).1,
{
    let ghost objs = objs_view(game_objects@);
    proof {
        assert(objs[PLAYER as int] == game_objects@[PLAYER as int]@);
    }
    let (px, py) = game_objects[PLAYER].get_position();
    let x = px + dx;
    let y = py + dy;

    // look for an attackable object at the destination
    let mut i: usize = 0;
    let mut target_index: Option<usize> = None;
    while i < game_objects.len() && target_index.is_none()
        invariant
            objs == objs_view(game_objects@),
            i <= game_objects.len(),
            forall|j: int|
                0 <= j < i ==> !((#[trigger] objs[j]).alive && objs[j].fighter is Some && objs[j].x
                    == x && objs[j].y == y),
            target_index matches Some(t) ==> t == i && t < game_objects.len() && objs[t as int].alive
                && objs[t as int].fighter is Some && objs[t as int].x == x && objs[t as int].y
                == y,
        decreases game_objects.len() - i, (if target_index is Some {
            0int
        } else {
            1int
        }),
    {
        let o = &game_objects[i];
        if o.alive && o.fighter.is_some() && o.x == x && o.y == y {
            assert(objs[i as int].alive && objs[i as int].fighter is Some && objs[i as int].x == x
                && objs[i as int].y == y);
            target_index = Some(i);
        } else {
            i += 1;
        }
    }

    proof {
        lemma_find_target_props(objs, x as int, y as int);
    }
    // attack if a target was found, otherwise try to move
    match target_index {
        Some(t) => {
            assert(spec_find_target(objs, x as int, y as int) == Some(t as int));
            attack_indices(PLAYER, t, game_objects, messages);
        },
        None => {
            assert(spec_find_target(objs, x as int, y as int) is None);
            move_by(PLAYER, dx, dy, map, game_objects);
            proof {
                assert(final(messages)@ =~= old(messages)@ + Seq::<MessageView>::empty());
            }
        },
    }
}

} // verus!
