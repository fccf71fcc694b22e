//! What happens to the player in the course of a turn: the hazards of the
//! ground, food and drink, searching, loading, and handling a vessel.

use vstd::prelude::*;
use vstd::string::StringExecFns;
use crate::actor::{clamp_u8, spec_mod_for_stat, Player};
use crate::behaviour::offset;
use crate::dice::{random_below, random_index, roll};
use crate::game::{
    ability_check_passes, check_passes, do_ability_check, open_among, player_takes_dmg,
    spec_sq_is_open, sq_is_open, ExitReason, GameState,
};
use crate::items::{clamp_i8, Item, ItemsTable};
use crate::map::Tile;
use crate::pathfinding::{is_cell, lemma_neighbours, neighbour, spec_neighbour};
use crate::ship::{laid_out, Ship, ShipsTable};
use crate::text::same_text;
use crate::util::{adjacent, Coord};

verus! {

/// The turn after `turn`; the count stops at what it can hold.
pub open spec fn next_turn(turn: u32) -> u32 {
    if turn < u32::MAX { (turn + 1) as u32 } else { turn }
}

/// `x` and `d` added, up to what a byte holds.
pub open spec fn raised(x: u8, d: u8) -> u8 {
    if x + d > 255 { 255u8 } else { (x + d) as u8 }
}

/// `x` and `d` added, up to what a byte holds.
fn raise(x: u8, d: u8) -> (res: u8)
    ensures
        res == raised(x, d),
{
    if x as u16 + d as u16 > 255 { 255 } else { x + d }
}

/// A turn passes.
fn tick(state: &mut GameState)
    ensures
        *final(state) == (GameState { turn: next_turn(old(state).turn), ..*old(state) }),
{
    if state.turn < u32::MAX {
        state.turn = state.turn + 1;
    }
}

/// Whether the buffer `after` is the buffer `before` with the messages `msgs` behind it.
pub open spec fn appended(before: Seq<String>, after: Seq<String>, msgs: Seq<Seq<char>>) -> bool {
    &&& after.len() == before.len() + msgs.len()
    &&& forall|i: int| 0 <= i < before.len() ==> after[i] == before[i]
    &&& forall|i: int| 0 <= i < msgs.len() ==> (#[trigger] after[before.len() + i])@ == msgs[i]
}

/// Whether `after` is the game `before` but for the messages `msgs`, which
/// the player was told, and for what the rest of a contract says of the
/// player, the turn, and the springs drunk from.
pub open spec fn told(before: GameState, after: GameState, msgs: Seq<Seq<char>>) -> bool {
    &&& appended(before.msg_buff@, after.msg_buff@, msgs)
    &&& after == (GameState {
        player: after.player,
        msg_buff: after.msg_buff,
        msg_history: after.msg_history,
        turn: after.turn,
        springs_drunk: after.springs_drunk,
        ..before
    })
}

/// Tells the player `msg`.
fn say(state: &mut GameState, msg: &str, Ghost(first): Ghost<GameState>, Ghost(so_far): Ghost<
    Seq<Seq<char>>,
>)
    requires
        told(first, *old(state), so_far),
    ensures
        told(first, *final(state), so_far.push(msg@)),
        final(state).player == old(state).player,
        final(state).turn == old(state).turn,
        final(state).springs_drunk == old(state).springs_drunk,
{
    state.write_msg_buff(msg);
    proof {
        let msgs = so_far.push(msg@);
        assert forall|i: int| 0 <= i < msgs.len() implies (#[trigger] state.msg_buff@[first.msg_buff@.len()
            + i])@ == msgs[i] by {
            if i < so_far.len() {
                assert(state.msg_buff@[first.msg_buff@.len() + i] == old(state).msg_buff@[first.msg_buff@.len()
                    + i]);
            }
        }
    }
}

/// What harms the player where they stand.
pub enum Hazard {
    /// Deep water without a vessel underfoot.
    Swimming,
    /// A fire pit.
    Fire,
    /// Lava.
    Lava,
    /// Nothing.
    Safe,
}

/// What harms the player where they stand.
pub open spec fn hazard_at(state: GameState, ships: ShipsTable) -> Hazard {
    let loc = (state.player.row, state.player.col);
    if !is_cell(state.map@, loc) {
        Hazard::Safe
    } else {
        let tile = state.map@[loc.0 as int][loc.1 as int];
        if tile is DeepWater && !state.player.on_ship && !ships@.contains_key(loc) {
            Hazard::Swimming
        } else if tile is FirePit {
            Hazard::Fire
        } else if tile is Lava {
            Hazard::Lava
        } else {
            Hazard::Safe
        }
    }
}

/// Whether `after` and `res` are what becomes of the player `before` who
/// takes `dmg` damage from `source`: dead, and else as before, if that is
/// more stamina than they have; else alive with that much less.
pub open spec fn hurt(
    before: Player,
    after: Player,
    res: Result<(), ExitReason>,
    dmg: u8,
    source: Seq<char>,
) -> bool {
    if before.curr_stamina < dmg {
        after == before && (match res {
            Err(ExitReason::Death(s)) => s@ == source,
            _ => false,
        })
    } else {
        res.is_ok() && after == (Player {
            curr_stamina: (before.curr_stamina - dmg) as u8,
            ..before
        })
    }
}

/// The ground harms the player who swims in deep water, stands in a fire
/// pit, or stands in lava.
pub fn check_environment_hazards(state: &mut GameState, ships: &ShipsTable) -> (res: Result<
    (),
    ExitReason,
>)
    ensures
        *final(state) == (GameState { player: final(state).player, ..*old(state) }),
        match hazard_at(*old(state), *ships) {
            Hazard::Swimming => hurt(old(state).player, final(state).player, res, 2, "swimming"@),
            Hazard::Fire => exists|dmg: u8|
                1 <= dmg <= 6 && #[trigger] hurt(
                    old(state).player,
                    final(state).player,
                    res,
                    dmg,
                    "burn"@,
                ),
            Hazard::Lava => hurt(old(state).player, final(state).player, res, 25, "burn"@),
            Hazard::Safe => res.is_ok() && final(state).player == old(state).player,
        },
{
    let pr: usize = state.player.row;
    let pc: usize = state.player.col;
    if !(pr < state.map.len() && pc < state.map[pr].len()) {
        return Ok(());
    }
    let deep: bool = matches!(state.map[pr][pc], Tile::DeepWater);
    let fire: bool = matches!(state.map[pr][pc], Tile::FirePit);
    let lava: bool = matches!(state.map[pr][pc], Tile::Lava);
    if deep && !state.player.on_ship && !ships.contains_key(&(pr, pc)) {
        player_takes_dmg(&mut state.player, 2, "swimming")
    } else if fire {
        let dmg: u8 = roll(6, 1, 0);
        let res = player_takes_dmg(&mut state.player, dmg, "burn");
        proof {
            assert(hurt(old(state).player, state.player, res, dmg, "burn"@));
        }
        res
    } else if lava {
        player_takes_dmg(&mut state.player, 25, "burn")
    } else {
        Ok(())
    }
}

/// What the player is told on eating or drinking something of the name `name`.
pub open spec fn nourishment_message(name: Seq<char>) -> Seq<Seq<char>> {
    if name == "draught of rum"@ {
        seq!["You drink some rum."@]
    } else if name == "coconut"@ || name == "banana"@ {
        seq!["Munch munch."@]
    } else if name == "salted pork"@ {
        seq!["Not very satisfying."@]
    } else {
        Seq::empty()
    }
}

/// The stamina of a player who gets `gain` back.
pub open spec fn restored(p: Player, gain: u8) -> u8 {
    if p.curr_stamina + gain > p.max_stamina { p.max_stamina } else { (p.curr_stamina + gain) as u8 }
}

/// The player eats or drinks `item`: stamina comes back, as much as a die
/// with the item's bonus for faces shows; rum makes drunk.
pub fn consume_nourishment(state: &mut GameState, item: &Item)
    requires
        item.bonus <= 127,
    ensures
        told(*old(state), *final(state), nourishment_message(item.name@)),
        final(state).turn == old(state).turn,
        final(state).springs_drunk == old(state).springs_drunk,
        exists|gain: u8|
            1 <= gain <= crate::dice::die_max(item.bonus) && final(state).player == (Player {
                curr_stamina: #[trigger] restored(old(state).player, gain),
                drunkeness: if item.name@ == "draught of rum"@ {
                    raised(old(state).player.drunkeness, 10)
                } else {
                    old(state).player.drunkeness
                },
                ..old(state).player
            }),
{
    let ghost first = *state;
    let hp: u8 = roll(item.bonus, 1, 0);
    state.player.add_stamina(hp);
    let ghost fed = *state;
    proof {
        assert(state.player.curr_stamina == restored(first.player, hp));
        assert(told(fed, *state, Seq::empty()));
    }
    if same_text(item.name.as_str(), "draught of rum") {
        say(state, "You drink some rum.", Ghost(fed), Ghost(Seq::empty()));
        state.player.drunkeness = raise(state.player.drunkeness, 10);
    } else if same_text(item.name.as_str(), "coconut") {
        say(state, "Munch munch.", Ghost(fed), Ghost(Seq::empty()));
    } else if same_text(item.name.as_str(), "banana") {
        say(state, "Munch munch.", Ghost(fed), Ghost(Seq::empty()));
    } else if same_text(item.name.as_str(), "salted pork") {
        say(state, "Not very satisfying.", Ghost(fed), Ghost(Seq::empty()));
    }
    proof {
        assert(Seq::<Seq<char>>::empty().push("You drink some rum."@) =~= seq![
            "You drink some rum."@,
        ]);
        assert(Seq::<Seq<char>>::empty().push("Munch munch."@) =~= seq!["Munch munch."@]);
        assert(Seq::<Seq<char>>::empty().push("Not very satisfying."@) =~= seq![
            "Not very satisfying."@,
        ]);
        reveal_strlit("draught of rum");
        reveal_strlit("coconut");
        reveal_strlit("banana");
        reveal_strlit("salted pork");
    }
}

/// The armour class that goes with a player's armour and dexterity.
pub open spec fn ac_of(p: Player) -> u8 {
    clamp_u8(10 + clamp_i8(p.inventory.armour_total()) + spec_mod_for_stat(p.dexterity)) as u8
}

/// The player after a first drink from a spring, by a draw from a hundred:
/// stronger, nimbler, hardier or more spirited by four, a quarter each.
pub open spec fn refreshed(p: Player, draw: u8) -> Player {
    if draw < 25 {
        Player { strength: raised(p.strength, 4), ..p }
    } else if draw < 50 {
        let q = Player { dexterity: raised(p.dexterity, 4), ..p };
        Player { ac: ac_of(q), ..q }
    } else if draw < 75 {
        let q = Player {
            constitution: raised(p.constitution, 4),
            max_stamina: raised(p.max_stamina, 10),
            ..p
        };
        Player { curr_stamina: restored(q, 10), ..q }
    } else {
        Player { verve: raised(p.verve, 4), ..p }
    }
}

/// What the player is told after a first drink from a spring.
pub open spec fn spring_message(draw: u8) -> Seq<char> {
    if draw < 25 {
        "You feel mighty!"@
    } else if draw < 50 {
        "You feel adroit!"@
    } else if draw < 75 {
        "You feel tough!"@
    } else {
        "You feel like you have more moxie!"@
    }
}

/// The player drinks from the spring they stand on, given the draw from a
/// hundred that decides what a first drink does.
pub fn quaff_spring_with(state: &mut GameState, draw: u8)
    ensures
        final(state).turn == next_turn(old(state).turn),
        old(state).springs_drunk@.contains_key((old(state).player.row, old(state).player.col))
            ==> told(*old(state), *final(state), seq!["You feel refreshed."@]) && final(state).player == old(state).player && final(state).springs_drunk == old(state).springs_drunk,
        !old(state).springs_drunk@.contains_key((old(state).player.row, old(state).player.col))
            ==> told(*old(state), *final(state), seq![spring_message(draw)]) && final(state).player == refreshed(old(state).player, draw) && final(state).springs_drunk@ == old(state).springs_drunk@.insert((old(state).player.row, old(state).player.col), ()),
{
    let ghost first = *state;
    let loc: Coord = (state.player.row, state.player.col);
    proof {
        assert(told(first, *state, Seq::empty()));
    }
    if state.springs_drunk.contains_key(&loc) {
        say(state, "You feel refreshed.", Ghost(first), Ghost(Seq::empty()));
        proof {
            assert(Seq::<Seq<char>>::empty().push("You feel refreshed."@) =~= seq![
                "You feel refreshed."@,
            ]);
        }
    } else {
        if draw < 25 {
            state.player.strength = raise(state.player.strength, 4);
            say(state, "You feel mighty!", Ghost(first), Ghost(Seq::empty()));
        } else if draw < 50 {
            state.player.dexterity = raise(state.player.dexterity, 4);
            say(state, "You feel adroit!", Ghost(first), Ghost(Seq::empty()));
            state.player.calc_ac();
        } else if draw < 75 {
            state.player.constitution = raise(state.player.constitution, 4);
            say(state, "You feel tough!", Ghost(first), Ghost(Seq::empty()));
            state.player.max_stamina = raise(state.player.max_stamina, 10);
            state.player.add_stamina(10);
        } else {
            state.player.verve = raise(state.player.verve, 4);
            say(state, "You feel like you have more moxie!", Ghost(first), Ghost(Seq::empty()));
        }
        state.springs_drunk.insert(loc, ());
        proof {
            assert(Seq::<Seq<char>>::empty().push(spring_message(draw)) =~= seq![
                spring_message(draw),
            ]);
        }
    }
    tick(state);
}

/// The player drinks from the spring they stand on. The first drink from a
/// spring strengthens one ability, by chance; later ones only refresh.
pub fn quaff_spring(state: &mut GameState)
    ensures
        final(state).turn == next_turn(old(state).turn),
        old(state).springs_drunk@.contains_key((old(state).player.row, old(state).player.col))
            ==> told(*old(state), *final(state), seq!["You feel refreshed."@]) && final(state).player == old(state).player,
        !old(state).springs_drunk@.contains_key((old(state).player.row, old(state).player.col))
            ==> exists|draw: u8|
            draw < 100 && told(*old(state), *final(state), seq![#[trigger] spring_message(draw)])
                && final(state).player == refreshed(old(state).player, draw),
{
    let draw: u8 = random_below(100);
    quaff_spring_with(state, draw);
}

/// How hard it is to find what is hidden on `loc`: the great treasure shows
/// itself only to the wearer of the magic eye patch, and to them at once.
pub open spec fn search_difficulty(state: GameState, items: ItemsTable, loc: Coord) -> u8 {
    if exists|i: int|
        0 <= i < items.pile(loc).len() && (#[trigger] items.pile(loc)[i]).item_type
            == crate::items::ItemType::MacGuffin {
        if state.player.inventory.wears_eye_patch() { 0 } else { 99 }
    } else {
        15
    }
}

/// Whether something in the pile on `loc` is hidden.
pub open spec fn hides_something(items: ItemsTable, loc: Coord) -> bool {
    exists|i: int| 0 <= i < items.pile(loc).len() && (#[trigger] items.pile(loc)[i]).hidden
}

/// The bonus that goes with a proficiency, held to a signed byte.
pub open spec fn prof_of(p: Player) -> i8 {
    if p.prof_bonus > 127 { 127i8 } else { p.prof_bonus as i8 }
}

/// The player searches the cell they stand on, given the throw of the
/// twenty-sided die: what is hidden there is found if the throw and the
/// player's proficiency meet the difficulty.
pub fn search_with(state: &mut GameState, items: &mut ItemsTable, throw: u8)
    ensures
        final(state).turn == next_turn(old(state).turn),
        final(state).player == old(state).player,
        final(state).springs_drunk == old(state).springs_drunk,
        ({
            let loc = (old(state).player.row, old(state).player.col);
            let found = hides_something(*old(items), loc) && check_passes(
                throw,
                0,
                search_difficulty(*old(state), *old(items), loc),
                prof_of(old(state).player),
            );
            &&& found ==> told(*old(state), *final(state), seq!["You find a hidden cache!"@])
                && final(items).pile(loc) == crate::items::revealed(old(items).pile(loc))
                && final(items).same_elsewhere(*old(items), loc)
            &&& !found ==> *final(items) == *old(items) && told(
                *old(state),
                *final(state),
                seq![
                    if crate::items::visible_count(old(items).pile(loc)) % 256 > 0 {
                        "You find no secrets."@
                    } else {
                        "You find nothing."@
                    },
                ],
            )
        }),
{
    let ghost first = *state;
    let loc: Coord = (state.player.row, state.player.col);
    let mut search_dc: u8 = 15;
    if items.macguffin_here(&loc) {
        if state.player.inventory.equiped_magic_eye_patch() {
            search_dc = 0;
        } else {
            search_dc = 99;
        }
    }
    let prof: i8 = if state.player.prof_bonus > 127 { 127 } else { state.player.prof_bonus as i8 };
    proof {
        assert(told(first, *state, Seq::empty()));
        assert(Seq::<Seq<char>>::empty().push("You find a hidden cache!"@) =~= seq![
            "You find a hidden cache!"@,
        ]);
        assert(Seq::<Seq<char>>::empty().push("You find no secrets."@) =~= seq![
            "You find no secrets."@,
        ]);
        assert(Seq::<Seq<char>>::empty().push("You find nothing."@) =~= seq![
            "You find nothing."@,
        ]);
    }
    if items.any_hidden(&loc) && ability_check_passes(throw, 0, search_dc, prof) {
        say(state, "You find a hidden cache!", Ghost(first), Ghost(Seq::empty()));
        items.reveal_hidden(&loc);
    } else if items.count_at(state.player.row, state.player.col) > 0 {
        say(state, "You find no secrets.", Ghost(first), Ghost(Seq::empty()));
    } else {
        say(state, "You find nothing.", Ghost(first), Ghost(Seq::empty()));
    }
    tick(state);
}

/// The player searches the cell they stand on.
pub fn search(state: &mut GameState, items: &mut ItemsTable)
    ensures
        final(state).turn == next_turn(old(state).turn),
        final(state).player == old(state).player,
        final(items).same_elsewhere(*old(items), (old(state).player.row, old(state).player.col)),
        final(items).pile((old(state).player.row, old(state).player.col)) == old(items).pile(
            (old(state).player.row, old(state).player.col),
        ) || final(items).pile((old(state).player.row, old(state).player.col))
            == crate::items::revealed(
            old(items).pile((old(state).player.row, old(state).player.col)),
        ),
{
    let throw: u8 = roll(20, 1, 0);
    search_with(state, items, throw);
}

/// The player steps to the wheel of the vessel they stand on, if they stand on one.
pub fn take_helm(state: &mut GameState, ships: &ShipsTable)
    ensures
        ({
            let loc = (old(state).player.row, old(state).player.col);
            &&& !ships@.contains_key(loc) ==> told(
                *old(state),
                *final(state),
                seq!["You need to find yerself a ship before you can take the helm."@],
            ) && final(state).player == old(state).player && final(state).turn == old(state).turn
            &&& ships@.contains_key(loc) ==> told(
                *old(state),
                *final(state),
                seq!["You step to the wheel of the "@ + ships@[loc].name@ + "."@],
            ) && final(state).player == (Player {
                on_ship: true,
                bearing: ships@[loc].bearing,
                wheel: ships@[loc].wheel,
                ..old(state).player
            }) && final(state).turn == next_turn(old(state).turn)
        }),
        final(state).springs_drunk == old(state).springs_drunk,
{
    let ghost first = *state;
    let player_loc: Coord = (state.player.row, state.player.col);
    proof {
        assert(told(first, *state, Seq::empty()));
    }
    match ships.get(&player_loc) {
        None => {
            say(
                state,
                "You need to find yerself a ship before you can take the helm.",
                Ghost(first),
                Ghost(Seq::empty()),
            );
            proof {
                assert(Seq::<Seq<char>>::empty().push(
                    "You need to find yerself a ship before you can take the helm."@,
                ) =~= seq!["You need to find yerself a ship before you can take the helm."@]);
            }
        },
        Some(ship) => {
            state.player.on_ship = true;
            state.player.bearing = ship.bearing;
            state.player.wheel = ship.wheel;
            let mut s = String::from_str("You step to the wheel of the ");
            s.append(ship.name.as_str());
            s.append(".");
            say(state, s.as_str(), Ghost(first), Ghost(Seq::empty()));
            proof {
                assert(Seq::<Seq<char>>::empty().push(s@) =~= seq![s@]);
            }
            tick(state);
        },
    }
}

/// The player steps from the wheel.
pub fn leave_helm(state: &mut GameState)
    ensures
        told(*old(state), *final(state), seq!["You step to gunwale."@]),
        final(state).player == (Player { on_ship: false, ..old(state).player }),
        final(state).turn == next_turn(old(state).turn),
        final(state).springs_drunk == old(state).springs_drunk,
{
    let ghost first = *state;
    proof {
        assert(told(first, *state, Seq::empty()));
        assert(Seq::<Seq<char>>::empty().push("You step to gunwale."@) =~= seq![
            "You step to gunwale."@,
        ]);
    }
    state.player.on_ship = false;
    say(state, "You step to gunwale.", Ghost(first), Ghost(Seq::empty()));
    tick(state);
}

/// The wheel after it is turned by `change`: it turns no further than two
/// either way.
pub open spec fn wheel_after(wheel: i8, change: i8) -> i8 {
    if (change < 0 && wheel == -2) || (change > 0 && wheel == 2) {
        wheel
    } else if wheel + change > 127 {
        127i8
    } else if wheel + change < -128 {
        -128i8
    } else {
        (wheel + change) as i8
    }
}

/// What the player is told on turning the wheel by `change`.
pub open spec fn wheel_message(wheel: i8, change: i8) -> Seq<char> {
    if change < 0 && wheel == -2 {
        "The wheel's as far to starboard as she'll turn"@
    } else if change > 0 && wheel == 2 {
        "The wheel's as far to port as she'll turn"@
    } else if -2 < wheel_after(wheel, change) < 2 {
        "You adjust the tiller."@
    } else {
        "Hard about!"@
    }
}

/// The player turns the wheel of the vessel they stand on by `change`.
/// Where they stand on none, only the turn passes.
pub fn turn_wheel(state: &mut GameState, ships: &mut ShipsTable, change: i8)
    ensures
        final(state).turn == next_turn(old(state).turn),
        final(state).springs_drunk == old(state).springs_drunk,
        ({
            let loc = (old(state).player.row, old(state).player.col);
            &&& !old(ships)@.contains_key(loc) ==> final(ships)@ == old(ships)@ && told(
                *old(state),
                *final(state),
                Seq::empty(),
            ) && final(state).player == old(state).player
            &&& old(ships)@.contains_key(loc) ==> ({
                let ship = old(ships)@[loc];
                &&& told(*old(state), *final(state), seq![wheel_message(ship.wheel, change)])
                &&& final(ships)@ == old(ships)@.insert(
                    loc,
                    (Ship { wheel: wheel_after(ship.wheel, change), ..ship }),
                )
                &&& final(state).player == (if (change < 0 && ship.wheel == -2) || (change > 0
                    && ship.wheel == 2) {
                    old(state).player
                } else {
                    Player { wheel: wheel_after(ship.wheel, change), ..old(state).player }
                })
            })
        }),
{
    let ghost first = *state;
    let loc: Coord = (state.player.row, state.player.col);
    proof {
        assert(told(first, *state, Seq::empty()));
    }
    tick(state);
    let ghost ticked = *state;
    proof {
        assert(told(ticked, ticked, Seq::empty()));
    }
    match ships.remove(&loc) {
        None => {
            proof {
                assert(ships@ =~= old(ships)@);
            }
        },
        Some(mut ship) => {
            let ghost before = ship;
            if change < 0 && ship.wheel == -2 {
                say(
                    state,
                    "The wheel's as far to starboard as she'll turn",
                    Ghost(ticked),
                    Ghost(Seq::empty()),
                );
            } else if change > 0 && ship.wheel == 2 {
                say(
                    state,
                    "The wheel's as far to port as she'll turn",
                    Ghost(ticked),
                    Ghost(Seq::empty()),
                );
            } else {
                let sum: i16 = ship.wheel as i16 + change as i16;
                ship.wheel = if sum > 127 {
                    127
                } else if sum < -128 {
                    -128
                } else {
                    sum as i8
                };
                state.player.wheel = ship.wheel;
                let ghost steered = *state;
                proof {
                    assert(told(steered, steered, Seq::empty()));
                }
                if ship.wheel > -2 && ship.wheel < 2 {
                    say(state, "You adjust the tiller.", Ghost(steered), Ghost(Seq::empty()));
                } else {
                    say(state, "Hard about!", Ghost(steered), Ghost(Seq::empty()));
                }
            }
            ships.insert(loc, ship);
            proof {
                let msg = wheel_message(before.wheel, change);
                assert(Seq::<Seq<char>>::empty().push(msg) =~= seq![msg]);
                assert(told(*old(state), *state, seq![msg]));
                assert(ships@ =~= old(ships)@.insert(
                    loc,
                    (Ship { wheel: wheel_after(before.wheel, change), ..before }),
                ));
            }
        },
    }
}

/// The player drops or weighs the anchor of the vessel they stand on. The
/// answer is whether the vessel is now free to sail. Where they stand on no
/// vessel, nothing happens.
pub fn toggle_anchor(state: &mut GameState, ships: &mut ShipsTable) -> (res: bool)
    ensures
        final(state).player == old(state).player,
        final(state).springs_drunk == old(state).springs_drunk,
        ({
            let loc = (old(state).player.row, old(state).player.col);
            &&& !old(ships)@.contains_key(loc) ==> !res && final(ships)@ == old(ships)@
                && *final(state) == *old(state)
            &&& old(ships)@.contains_key(loc) ==> ({
                let ship = old(ships)@[loc];
                &&& res == ship.anchored
                &&& final(ships)@ == old(ships)@.insert(
                    loc,
                    (Ship { anchored: !ship.anchored, ..ship }),
                )
                &&& final(state).turn == next_turn(old(state).turn)
                &&& told(
                    *old(state),
                    *final(state),
                    seq![
                        if ship.anchored {
                            "You raise the anchor."@
                        } else {
                            "You lower the anchor."@
                        },
                    ],
                )
            })
        }),
{
    let loc: Coord = (state.player.row, state.player.col);
    match ships.remove(&loc) {
        None => {
            proof {
                assert(ships@ =~= old(ships)@);
            }
            false
        },
        Some(mut ship) => {
            let ghost before = ship;
            ship.anchored = !ship.anchored;
            let free: bool = !ship.anchored;
            ships.insert(loc, ship);
            tick(state);
            let ghost ticked = *state;
            proof {
                assert(told(ticked, ticked, Seq::empty()));
                assert(Seq::<Seq<char>>::empty().push("You lower the anchor."@) =~= seq![
                    "You lower the anchor."@,
                ]);
                assert(Seq::<Seq<char>>::empty().push("You raise the anchor."@) =~= seq![
                    "You raise the anchor."@,
                ]);
                assert(ships@ =~= old(ships)@.insert(
                    loc,
                    (Ship { anchored: !before.anchored, ..before }),
                ));
            }
            if free {
                say(state, "You raise the anchor.", Ghost(ticked), Ghost(Seq::empty()));
            } else {
                say(state, "You lower the anchor.", Ghost(ticked), Ghost(Seq::empty()));
            }
            proof {
                let msg = if before.anchored {
                    "You raise the anchor."@
                } else {
                    "You lower the anchor."@
                };
                assert(told(*old(state), *state, seq![msg]));
            }
            free
        },
    }
}

/// The neighbours of the player's cell in the order in which a free one is
/// looked for: north-west, north, north-east, east, west, south-west, south,
/// south-east.
pub open spec fn beside_player(k: int) -> (i32, i32) {
    if k == 0 {
        (-1i32, -1i32)
    } else if k == 1 {
        (-1i32, 0i32)
    } else if k == 2 {
        (-1i32, 1i32)
    } else if k == 3 {
        (0i32, 1i32)
    } else if k == 4 {
        (0i32, -1i32)
    } else if k == 5 {
        (1i32, -1i32)
    } else if k == 6 {
        (1i32, 0i32)
    } else {
        (1i32, 1i32)
    }
}

/// The step to the `k`-th neighbour in the order of `beside_player`.
fn beside(k: usize) -> (res: (i32, i32))
    ensures
        res == beside_player(k as int),
{
    if k == 0 {
        (-1, -1)
    } else if k == 1 {
        (-1, 0)
    } else if k == 2 {
        (-1, 1)
    } else if k == 3 {
        (0, 1)
    } else if k == 4 {
        (0, -1)
    } else if k == 5 {
        (1, -1)
    } else if k == 6 {
        (1, 0)
    } else {
        (1, 1)
    }
}

/// A cell next to the player on which nobody stands and no vessel lies,
/// chosen by the throw of a die; none where there is none.
pub fn get_open_sq_adj_player(state: &GameState, ships: &ShipsTable) -> (res: Option<Coord>)
    ensures
        match res {
            Some(c) => adjacent((state.player.row, state.player.col), c) && spec_sq_is_open(
                *state,
                *ships,
                c,
            ),
            None => forall|c: Coord|
                adjacent((state.player.row, state.player.col), c) ==> !#[trigger] spec_sq_is_open(
                    *state,
                    *ships,
                    c,
                ),
        },
{
    let ghost here: Coord = (state.player.row, state.player.col);
    let mut sqs: Vec<Coord> = Vec::new();
    let mut k: usize = 0;
    while k < 8
        invariant
            k <= 8,
            sqs@.len() <= k,
            here == (state.player.row, state.player.col),
            forall|i: int|
                0 <= i < sqs@.len() ==> adjacent(here, #[trigger] sqs@[i]) && spec_sq_is_open(
                    *state,
                    *ships,
                    sqs@[i],
                ),
            sqs@.len() == 0 ==> forall|j: int, c: Coord|
                0 <= j < k && #[trigger] is_beside(here, j, c) ==> !spec_sq_is_open(
                    *state,
                    *ships,
                    c,
                ),
        decreases 8 - k,
    {
        let d: (i32, i32) = beside(k);
        match (offset(state.player.row, d.0), offset(state.player.col, d.1)) {
            (Some(r), Some(c)) => {
                if sq_is_open(state, ships, r, c) {
                    sqs.push((r, c));
                }
            },
            _ => {},
        }
        k += 1;
    }
    if sqs.len() == 0 {
        proof {
            assert forall|c: Coord| adjacent(here, c) implies !#[trigger] spec_sq_is_open(
                *state,
                *ships,
                c,
            ) by {
                let dr = c.0 - here.0;
                let dc = c.1 - here.1;
                let j: int = if dr == -1 {
                    dc + 1
                } else if dr == 0 {
                    if dc == 1 { 3 } else { 4 }
                } else {
                    dc + 6
                };
                assert(is_beside(here, j, c));
            }
        }
        None
    } else {
        let j: usize = random_index(sqs.len());
        let loc: Coord = sqs[j];
        proof {
            assert(adjacent(here, sqs@[j as int]));
        }
        Some(loc)
    }
}

/// Whether `c` is the `k`-th neighbour of `here` in the order of `beside_player`.
pub open spec fn is_beside(here: Coord, k: int, c: Coord) -> bool {
    c.0 == here.0 + beside_player(k).0 && c.1 == here.1 + beside_player(k).1
}

/// The wheel of a vessel that has run aground, by the throw of a
/// five-sided die: anywhere from hard to port to hard to starboard.
pub open spec fn wheel_aground(wheel: i8, throw: u8) -> i8 {
    let sum = wheel + 2 + throw;
    let rest = if sum >= 0 { sum % 5 } else { -((-sum) % 5) };
    (rest - 2) as i8
}

/// The wheel of a vessel that has run aground, by the throw `throw` of a five-sided die.
pub fn spin_wheel(wheel: i8, throw: u8) -> (res: i8)
    ensures
        res == wheel_aground(wheel, throw),
{
    let sum: i32 = wheel as i32 + 2 + throw as i32;
    let rest: i32 = if sum >= 0 { sum % 5 } else { -((-sum) % 5) };
    (rest - 2) as i8
}

/// The vessel has run aground: its wheel spins, and the player who fails a
/// check of dexterity is thrown onto a free cell nearby, if there is one,
/// and hurt by the fall.
pub fn ship_hit_land(state: &mut GameState, ship: &mut Ship, ships: &ShipsTable) -> (res: Result<
    (),
    ExitReason,
>)
    ensures
        exists|throw: u8|
            1 <= throw <= 5 && final(ship).wheel == #[trigger] wheel_aground(old(ship).wheel, throw),
        *final(ship) == (Ship { wheel: final(ship).wheel, ..*old(ship) }),
        final(state).player.wheel == final(ship).wheel,
        final(state).map == old(state).map,
        final(state).npcs == old(state).npcs,
        final(state).turn == old(state).turn,
        final(state).player.on_ship ==> old(state).player.on_ship && final(state).player == (Player {
            wheel: final(ship).wheel,
            ..old(state).player
        }) && res.is_ok(),
        !final(state).player.on_ship && old(state).player.on_ship ==> adjacent(
            (old(state).player.row, old(state).player.col),
            (final(state).player.row, final(state).player.col),
        ) && final(state).player.curr_stamina <= old(state).player.curr_stamina,
        match res {
            Ok(_) => true,
            Err(e) => e is Death,
        },
{
    state.write_msg_buff("Ye've run yer ship aground!!");
    state.write_msg_buff("You lose control o' the wheel!");
    let throw: u8 = roll(5, 1, 0);
    let new_wheel: i8 = spin_wheel(ship.wheel, throw);
    ship.wheel = new_wheel;
    state.player.wheel = new_wheel;
    if !do_ability_check(Player::mod_for_stat(state.player.dexterity), 13, 0) {
        match get_open_sq_adj_player(state, ships) {
            Some(loc) => {
                state.write_msg_buff("You're tossed from the ship!");
                state.player.on_ship = false;
                state.player.row = loc.0;
                state.player.col = loc.1;
                let dmg: u8 = roll(6, 1, 0);
                return player_takes_dmg(&mut state.player, dmg, "falling");
            },
            None => {},
        }
    }
    Ok(())
}

/// The player loads the firearm in hand with a bullet from the bag.
pub fn reload(state: &mut GameState)
    ensures
        final(state).springs_drunk == old(state).springs_drunk,
        final(state).map == old(state).map,
        final(state).npcs == old(state).npcs,
        match old(state).player.inventory.first_equipped(crate::items::ItemType::Firearm) {
            None => told(
                *old(state),
                *final(state),
                seq!["You don't have a readied firearm."@],
            ) && final(state).player == old(state).player && final(state).turn == old(state).turn,
            Some(slot) => ({
                let gun = old(state).player.inventory.inv@[slot].0;
                &&& final(state).turn == next_turn(old(state).turn)
                &&& final(state).player == (Player {
                    inventory: final(state).player.inventory,
                    ..old(state).player
                })
                &&& gun.loaded ==> told(
                    *old(state),
                    *final(state),
                    seq!["Your "@ + gun.name@ + " is already loaded."@],
                ) && final(state).player == old(state).player
            }),
        },
{
    let ghost first = *state;
    proof {
        assert(told(first, *state, Seq::empty()));
    }
    match state.player.inventory.get_equiped_firearm() {
        Some(g) => {
            if g.loaded {
                let mut s = String::from_str("Your ");
                s.append(g.name.as_str());
                s.append(" is already loaded.");
                say(state, s.as_str(), Ghost(first), Ghost(Seq::empty()));
                proof {
                    assert(Seq::<Seq<char>>::empty().push(s@) =~= seq![s@]);
                }
            } else if state.player.inventory.find_ammo() {
                let mut s = String::from_str("You reload your ");
                s.append(g.name.as_str());
                state.write_msg_buff(s.as_str());
                state.player.inventory.reload_firearm();
            } else {
                state.write_msg_buff("Uhoh, all out of bullets...");
            }
            tick(state);
        },
        None => {
            say(state, "You don't have a readied firearm.", Ghost(first), Ghost(Seq::empty()));
            proof {
                assert(Seq::<Seq<char>>::empty().push("You don't have a readied firearm."@) =~= seq![
                    "You don't have a readied firearm."@,
                ]);
            }
        },
    }
}

/// Whether every vessel is filed under the cell of its deck.
pub open spec fn filed_by_place(ships: Map<Coord, Ship>) -> bool {
    forall|k: Coord| #[trigger] ships.contains_key(k) ==> ships[k].row == k.0 && ships[k].col == k.1
}

/// Whether a vessel is free to drift: it rides at no anchor, and lies
/// neither in the player's row nor in the player's column.
pub open spec fn adrift(state: GameState, ship: Ship) -> bool {
    ship.row != state.player.row && ship.col != state.player.col && !ship.anchored
}

/// Whether the vessel at `sl` can drift to `b`: a neighbouring cell of
/// water on which nobody stands and none of the other vessels lies.
pub open spec fn water_beside(state: GameState, others: Map<Coord, Ship>, sl: Coord, b: Coord) -> bool {
    &&& adjacent(sl, b)
    &&& is_cell(state.map@, b)
    &&& (state.map@[b.0 as int][b.1 as int] is Water || state.map@[b.0 as int][b.1 as int] is DeepWater)
    &&& open_among(state, others, b)
}

/// The vessel `ship` after it has drifted to `b`.
pub open spec fn drifted(ship: Ship, b: Coord) -> Ship {
    laid_out(Ship { row: b.0, col: b.1, ..ship })
}

/// Whether the vessel filed under `sl` can drift somewhere.
pub open spec fn can_drift(state: GameState, ships: Map<Coord, Ship>, sl: Coord) -> bool {
    ships.contains_key(sl) && adrift(state, ships[sl]) && exists|b: Coord| #[trigger]
        water_beside(state, ships.remove(sl), sl, b)
}

/// The cells of water beside `sl` to which a vessel can drift, in the order
/// of the neighbours.
fn drift_targets(state: &GameState, ships: &ShipsTable, sl: Coord) -> (adj: Vec<Coord>)
    ensures
        forall|i: int| 0 <= i < adj@.len() ==> water_beside(*state, ships@, sl, #[trigger] adj@[i]),
        adj@.len() == 0 ==> forall|b: Coord| !#[trigger] water_beside(*state, ships@, sl, b),
{
    let mut adj: Vec<Coord> = Vec::new();
    let mut k: usize = 0;
    while k < 8
        invariant
            k <= 8,
            forall|i: int|
                0 <= i < adj@.len() ==> water_beside(*state, ships@, sl, #[trigger] adj@[i]),
            adj@.len() == 0 ==> forall|j: int|
                0 <= j < k ==> match #[trigger] spec_neighbour(sl, j) {
                    Some(b) => !water_beside(*state, ships@, sl, b),
                    None => true,
                },
        decreases 8 - k,
    {
        match neighbour(sl, k) {
            None => {},
            Some(b) => {
                proof {
                    lemma_neighbours(sl, b);
                }
                if b.0 < state.map.len() && b.1 < state.map[b.0].len() {
                    if matches!(state.map[b.0][b.1], Tile::Water | Tile::DeepWater) && sq_is_open(
                        state,
                        ships,
                        b.0,
                        b.1,
                    ) {
                        adj.push(b);
                    }
                }
            },
        }
        k += 1;
    }
    proof {
        if adj@.len() == 0 {
            assert forall|b: Coord| !#[trigger] water_beside(*state, ships@, sl, b) by {
                if adjacent(sl, b) {
                    lemma_neighbours(sl, b);
                    let j = choose|j: int| 0 <= j < 8 && #[trigger] spec_neighbour(sl, j) == Some(b);
                    assert(spec_neighbour(sl, j) == Some(b));
                }
            }
        }
    }
    adj
}

/// One vessel that is free to drift, the first that can in the order in
/// which the vessels are filed, drifts to a neighbouring cell of water that
/// chance picks. No vessel moves where none can.
pub fn check_drifting_ships(state: &GameState, ships: &mut ShipsTable)
    requires
        filed_by_place(old(ships)@),
    ensures
        filed_by_place(final(ships)@),
        final(ships)@ == old(ships)@ <==> forall|sl: Coord|
            !#[trigger] can_drift(*state, old(ships)@, sl),
        final(ships)@ != old(ships)@ ==> exists|sl: Coord, b: Coord|
            old(ships)@.contains_key(sl) && adrift(*state, old(ships)@[sl]) && #[trigger] water_beside(
                *state,
                old(ships)@.remove(sl),
                sl,
                b,
            ) && final(ships)@ == old(ships)@.remove(sl).insert(b, drifted(old(ships)@[sl], b)),
{
    let ghost first = ships@;
    let ship_loc = ships.keys_vec();
    proof {
        use_type_invariant(&*ships);
        ships.lemma_keys();
    }
    let mut i: usize = 0;
    while i < ship_loc.len()
        invariant
            i <= ship_loc@.len(),
            ships@ == first,
            first == old(ships)@,
            filed_by_place(first),
            forall|k: Coord|
                first.contains_key(k) ==> exists|j: int|
                    0 <= j < ship_loc@.len() && #[trigger] ship_loc@[j] == k,
            forall|j: int| 0 <= j < i ==> !can_drift(*state, first, #[trigger] ship_loc@[j]),
        decreases ship_loc@.len() - i,
    {
        let sl: Coord = ship_loc[i];
        match ships.remove(&sl) {
            None => {
                proof {
                    assert(ships@ =~= first);
                }
            },
            Some(mut ship) => {
                let ghost before = ship;
                if ship.row != state.player.row && ship.col != state.player.col && !ship.anchored {
                    let adj = drift_targets(state, ships, sl);
                    if adj.len() > 0 {
                        let loc: usize = random_index(adj.len());
                        let adj_loc: Coord = adj[loc];
                        ship.row = adj_loc.0;
                        ship.col = adj_loc.1;
                        ship.update_loc_info();
                        proof {
                            assert(water_beside(*state, first.remove(sl), sl, adj@[loc as int]));
                            assert(open_among(*state, first.remove(sl), adj_loc));
                            assert(!first.remove(sl).contains_key(adj_loc)) by {
                                if first.remove(sl).contains_key(adj_loc) {
                                    assert(crate::game::ship_covers(
                                        adj_loc,
                                        first.remove(sl)[adj_loc],
                                        adj_loc,
                                    )) by {
                                        crate::util::lemma_distance_below(
                                            adj_loc.0,
                                            adj_loc.1,
                                            adj_loc.0,
                                            adj_loc.1,
                                            2,
                                        );
                                        assert(crate::util::dist_sq(
                                            adj_loc.0,
                                            adj_loc.1,
                                            adj_loc.0,
                                            adj_loc.1,
                                        ) == 0) by (nonlinear_arith);
                                        assert(2 * 2 == 4) by (nonlinear_arith);
                                    }
                                }
                            }
                        }
                        ships.insert(adj_loc, ship);
                        proof {
                            assert(before == first[sl]);
                            assert(adrift(*state, first[sl]));
                            assert(can_drift(*state, first, sl));
                            assert(ships@ =~= first.remove(sl).insert(
                                adj_loc,
                                drifted(first[sl], adj_loc),
                            ));
                            assert(adj_loc != sl);
                            assert(ships@.contains_key(adj_loc) && !first.contains_key(adj_loc));
                            assert(first.contains_key(sl) && adrift(*state, first[sl])
                                && water_beside(*state, first.remove(sl), sl, adj_loc) && ships@
                                == first.remove(sl).insert(adj_loc, drifted(first[sl], adj_loc)));
                        }
                        return ;
                    }
                }
                let home: Coord = (ship.row, ship.col);
                ships.insert(home, ship);
                proof {
                    assert(ships@ =~= first);
                }
            },
        }
        i += 1;
    }
    proof {
        assert forall|sl: Coord| !#[trigger] can_drift(*state, first, sl) by {
            if first.contains_key(sl) {
                let j = choose|j: int| 0 <= j < ship_loc@.len() && #[trigger] ship_loc@[j] == sl;
                assert(!can_drift(*state, first, ship_loc@[j]));
            }
        }
    }
}

/// The step that a vessel under sail takes. On the eight main bearings it
/// keeps straight on; on the bearings between two of them it takes the
/// steps of its two neighbours by turns, as far as its last step tells.
pub open spec fn spec_sail_step(bearing: u8, prev_move: (i8, i8)) -> (i8, i8) {
    if bearing == 0 {
        (-1i8, 0i8)
    } else if bearing == 1 {
        if prev_move == (-1i8, 0i8) { (-1i8, 1i8) } else { (-1i8, 0i8) }
    } else if bearing == 2 {
        (-1i8, 1i8)
    } else if bearing == 3 {
        if prev_move == (-1i8, 1i8) { (0i8, 1i8) } else { (-1i8, 1i8) }
    } else if bearing == 4 {
        (0i8, 1i8)
    } else if bearing == 5 {
        if prev_move == (0i8, 1i8) { (1i8, 1i8) } else { (0i8, 1i8) }
    } else if bearing == 6 {
        (1i8, 1i8)
    } else if bearing == 7 {
        if prev_move == (1i8, 1i8) { (1i8, 0i8) } else { (1i8, 1i8) }
    } else if bearing == 8 {
        (1i8, 0i8)
    } else if bearing == 9 {
        if prev_move == (1i8, -1i8) { (1i8, 0i8) } else { (1i8, -1i8) }
    } else if bearing == 10 {
        (1i8, -1i8)
    } else if bearing == 11 {
        if prev_move == (0i8, -1i8) { (1i8, -1i8) } else { (0i8, -1i8) }
    } else if bearing == 12 {
        (0i8, -1i8)
    } else if bearing == 13 {
        if prev_move == (0i8, -1i8) { (-1i8, -1i8) } else { (0i8, -1i8) }
    } else if bearing == 14 {
        (-1i8, -1i8)
    } else if bearing == 15 {
        if prev_move == (-1i8, 0i8) { (-1i8, -1i8) } else { (-1i8, 0i8) }
    } else {
        (0i8, 0i8)
    }
}

/// The step that a vessel with the given bearing takes after the step `prev_move`.
pub fn sail_step(bearing: u8, prev_move: (i8, i8)) -> (res: (i8, i8))
    ensures
        res == spec_sail_step(bearing, prev_move),
{
    let north: bool = prev_move.0 == -1 && prev_move.1 == 0;
    let north_east: bool = prev_move.0 == -1 && prev_move.1 == 1;
    let east: bool = prev_move.0 == 0 && prev_move.1 == 1;
    let south_east: bool = prev_move.0 == 1 && prev_move.1 == 1;
    let south_west: bool = prev_move.0 == 1 && prev_move.1 == -1;
    let west: bool = prev_move.0 == 0 && prev_move.1 == -1;
    if bearing == 0 {
        (-1, 0)
    } else if bearing == 1 {
        if north { (-1, 1) } else { (-1, 0) }
    } else if bearing == 2 {
        (-1, 1)
    } else if bearing == 3 {
        if north_east { (0, 1) } else { (-1, 1) }
    } else if bearing == 4 {
        (0, 1)
    } else if bearing == 5 {
        if east { (1, 1) } else { (0, 1) }
    } else if bearing == 6 {
        (1, 1)
    } else if bearing == 7 {
        if south_east { (1, 0) } else { (1, 1) }
    } else if bearing == 8 {
        (1, 0)
    } else if bearing == 9 {
        if south_west { (1, 0) } else { (1, -1) }
    } else if bearing == 10 {
        (1, -1)
    } else if bearing == 11 {
        if west { (1, -1) } else { (0, -1) }
    } else if bearing == 12 {
        (0, -1)
    } else if bearing == 13 {
        if west { (-1, -1) } else { (0, -1) }
    } else if bearing == 14 {
        (-1, -1)
    } else if bearing == 15 {
        if north { (-1, -1) } else { (-1, 0) }
    } else {
        (0, 0)
    }
}

/// The bearing of a vessel after a step with the wheel turned by `wheel`:
/// the bearing and the wheel added, round the sixteen points; a sum below
/// nought counts sixteen and the wheel. A straight wheel leaves the bearing.
pub open spec fn spec_bearing_after(bearing: u8, wheel: i8) -> u8 {
    if wheel == 0 {
        bearing
    } else {
        let sum = bearing + wheel;
        clamp_u8(if sum < 0 { 16 + wheel } else if sum > 15 { sum % 16 } else { sum }) as u8
    }
}

/// The bearing of a vessel after a step with the wheel turned by `wheel`.
pub fn bearing_after(bearing: u8, wheel: i8) -> (res: u8)
    ensures
        res == spec_bearing_after(bearing, wheel),
{
    if wheel == 0 {
        return bearing;
    }
    let sum: i32 = bearing as i32 + wheel as i32;
    let turned: i32 = if sum < 0 {
        16 + wheel as i32
    } else if sum > 15 {
        sum % 16
    } else {
        sum
    };
    if turned < 0 {
        0
    } else if turned > 255 {
        255
    } else {
        turned as u8
    }
}

} // verus!
