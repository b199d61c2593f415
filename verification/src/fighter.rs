use vstd::prelude::*;

verus! {

use vstd::string::StringExecFns;
use crate::colors::{dark_red, light_blue, orange, red};
use crate::game_object::{view_corpse, view_monster_death_messages, view_player_death_messages,
    GameObject};
use crate::messages::Messages;

/// Bound on combat stats under which all damage arithmetic stays far
/// away from the `i32` limits.
pub const STAT_LIMIT: i32 = 1000000;

/// Combat component: hit points, damage math inputs, and the death
/// behavior selector.
#[derive(Clone, Copy, Debug, PartialEq, Eq, Structural)]
pub struct Fighter {
    pub max_hp: i32,
    pub hp: i32,
    pub defense: i32,
    pub power: i32,
    pub on_death: DeathCallback,
}

/// Stats bounded so that `power - defense` and one application of damage
/// to a living fighter cannot overflow.
pub open spec fn fighter_wf(f: Fighter) -> bool {
    &&& 0 <= f.power <= STAT_LIMIT
    &&& 0 <= f.defense <= STAT_LIMIT
    &&& 0 <= f.max_hp <= STAT_LIMIT
    &&& -STAT_LIMIT <= f.hp <= STAT_LIMIT
}

/// The behavior selector for non-player entities. A single variant for
/// now; the dispatch sites match on it so further variants slot in.
#[derive(Clone, Copy, Debug, PartialEq, Eq, Structural)]
pub enum Ai {
    Basic,
}

/// Which death handler runs when an entity's hit points reach zero.
#[derive(Clone, Copy, Debug, PartialEq, Eq, Structural)]
pub enum DeathCallback {
    Player,
    Monster,
}

impl DeathCallback {
    /// Run the death handler selected by `self` on `game_object`: both
    /// handlers turn it into an inert corpse; they differ in what they
    /// announce.
    pub fn callback(self, game_object: &mut GameObject, messages: &mut Messages)
        ensures
            final(game_object)@ == view_corpse(old(game_object)@),
            final(messages)@ == old(messages)@ + (match self {
                DeathCallback::Player => view_player_death_messages(),
                DeathCallback::Monster => view_monster_death_messages(old(game_object)@.name),
            }),
    {
        match self {
            DeathCallback::Player => player_death(game_object, messages),
            DeathCallback::Monster => monster_death(game_object, messages),
        }
    }
}

fn player_death(player: &mut GameObject, messages: &mut Messages)
    ensures
        final(player)@ == view_corpse(old(player)@),
        final(messages)@ == old(messages)@ + view_player_death_messages(),
{
    let ghost prior = messages@;
    messages.add("You died!".to_owned(), red());
    messages.add("Press ESC to QUIT.".to_owned(), light_blue());
    // Make the player an inert corpse.
    player.char = '%';
    player.color = dark_red();
    player.blocks_tile = false;
    player.fighter = None;
    player.ai = None;
    let mut new_name = "The remains of ".to_owned();
    new_name.append(player.name.as_str());
    player.name = new_name;
    proof {
        assert(messages@ =~= prior + view_player_death_messages());
    }
}

fn monster_death(monster: &mut GameObject, messages: &mut Messages)
    ensures
        final(monster)@ == view_corpse(old(monster)@),
        final(messages)@ == old(messages)@ + view_monster_death_messages(old(monster)@.name),
{
    let ghost prior = messages@;
    let mut msg = monster.name.clone();
    msg.append(" has died!");
    messages.add(msg, orange());
    monster.char = '%';
    monster.color = dark_red();
    monster.blocks_tile = false;
    monster.fighter = None;
    monster.ai = None;
    let mut new_name = "The remains of ".to_owned();
    new_name.append(monster.name.as_str());
    monster.name = new_name;
    proof {
        assert(messages@ =~= prior + view_monster_death_messages(old(monster)@.name));
    }
}

} // verus!
