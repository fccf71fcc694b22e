//! What each kind of creature does when its turn comes: strike the player if
//! it stands next to them, else make for them, flee, wander, or stay.

use vstd::prelude::*;
use vstd::string::StrSliceExecFns;
use vstd::string::StringExecFns;
use rand::seq::SliceRandom;
use crate::actor::{
    enlisted, monster_is, plain_traits, spec_mod_for_stat, stats_of, Monster, NPCTracker, NPCType,
    Player, Traits,
};
use crate::dice::{die_max, random_below, roll};
use crate::game::{
    attack_player, check_passes, do_ability_check, history_noted, player_takes_dmg,
    spec_sq_is_open, sq_is_open, ExitReason, GameState,
};
use crate::map::{is_passable, spec_is_passable, Tile};
use crate::pathfinding::{
    find_path, is_cell, is_route, lemma_neighbours, neighbour, passable_by_me, reachable,
    spec_neighbour, spec_target, terrain_ok,
};
use crate::rules::{appended, hurt};
use crate::ship::ShipsTable;
use crate::text::same_text;
use crate::util::{adjacent, capped, cartesian_d, rnd_adj, spec_cartesian_d, sqs_adj, Coord};

verus! {

/// Whether `after` is the creature `before` but for where it stands, whether
/// it knows of the player, and how many minions it has.
pub open spec fn same_creature(before: Monster, after: Monster) -> bool {
    after == (Monster {
        row: after.row,
        col: after.col,
        aware_of_player: after.aware_of_player,
        minions: after.minions,
        ..before
    })
}

/// Whether the creature's damage can be thrown with dice: the greatest
/// throw, bonus and all, must fit a signed byte.
pub open spec fn can_strike(m: Monster) -> bool {
    m.dmg_dice * die_max(m.dmg) + m.dmg_bonus <= i8::MAX
}

/// Whether the creature's damage can be thrown with dice.
pub fn can_act(m: &Monster) -> (res: bool)
    ensures
        res == can_strike(*m),
{
    let faces: u32 = if m.dmg == 0 { 1 } else { m.dmg as u32 };
    let dice: u32 = m.dmg_dice as u32;
    assert(dice * faces <= 255 * 255) by (nonlinear_arith)
        requires
            0 <= dice <= 255,
            0 <= faces <= 255,
    ;
    dice * faces + m.dmg_bonus as u32 <= 127
}

/// Whether `after` is the player `before` but for stamina lost, and poison
/// or charm suffered.
pub open spec fn player_kept(before: Player, after: Player) -> bool {
    &&& after == (Player {
        curr_stamina: after.curr_stamina,
        poisoned: after.poisoned,
        charmed: after.charmed,
        ..before
    })
    &&& after.curr_stamina <= before.curr_stamina
}

/// Whether `after` is the game `before` but for what a creature's turn can
/// change: messages, the player's health, and the creatures listed.
pub open spec fn world_kept(before: GameState, after: GameState) -> bool {
    &&& after == (GameState {
        player: after.player,
        msg_buff: after.msg_buff,
        msg_history: after.msg_history,
        npcs: after.npcs,
        ..before
    })
    &&& player_kept(before.player, after.player)
}

/// Whether a creature's turn ended the game in no other way than by the player's death.
pub open spec fn turn_outcome(res: Result<(), ExitReason>) -> bool {
    match res {
        Ok(_) => true,
        Err(e) => e is Death,
    }
}

/// Something happens with the chance of `percent` in a hundred.
pub fn chance(percent: u8) -> (res: bool)
    ensures
        percent == 0 ==> !res,
        percent >= 100 ==> res,
{
    random_below(100) < percent
}

/// Puts the moves of `v` in an order that chance decides: `shuffle` of the
/// `rand` crate on the thread's generator, which only ever swaps elements,
/// so that the same moves are there afterwards, each as often as before.
#[verifier::external_body]
fn shuffle_moves(v: &mut Vec<(i32, i32)>)
    ensures
        final(v)@.to_multiset() == old(v)@.to_multiset(),
{
    v.shuffle(&mut rand::thread_rng());
}

/// A coordinate moved by `d`, if that is still a coordinate.
pub fn offset(x: usize, d: i32) -> (res: Option<usize>)
    ensures
        res == if 0 <= x + d <= usize::MAX { Some((x + d) as usize) } else { None::<usize> },
{
    let moved: i128 = x as i128 + d as i128;
    if moved < 0 || moved > usize::MAX as i128 {
        None
    } else {
        Some(moved as usize)
    }
}

/// Whether a creature that can cross the tiles in `valid` may step onto `b`:
/// a cell of the map with the right terrain on which nobody stands.
pub open spec fn free_for(state: GameState, ships: ShipsTable, valid: Seq<Tile>, b: Coord) -> bool {
    terrain_ok(state.map@, valid, b) && spec_sq_is_open(state, ships, b)
}

/// A neighbour of `(row, col)` that the creature may step onto, chosen by
/// the throw of a die; its own cell if there is none.
pub fn find_adj_empty_sq(
    row: usize,
    col: usize,
    state: &GameState,
    ships: &ShipsTable,
    passable: &Vec<Tile>,
) -> (res: Coord)
    ensures
        res == (row, col) || (adjacent((row, col), res) && free_for(
            *state,
            *ships,
            passable@,
            res,
        )),
        res == (row, col) <==> forall|b: Coord|
            adjacent((row, col), b) ==> !#[trigger] free_for(*state, *ships, passable@, b),
{
    let mut adj: Vec<Coord> = Vec::new();
    let mut k: usize = 0;
    while k < 8
        invariant
            k <= 8,
            adj@.len() <= k,
            forall|i: int|
                0 <= i < adj@.len() ==> adjacent((row, col), #[trigger] adj@[i]) && free_for(
                    *state,
                    *ships,
                    passable@,
                    adj@[i],
                ),
            adj@.len() == 0 ==> forall|j: int|
                0 <= j < k ==> match #[trigger] spec_neighbour((row, col), j) {
                    Some(b) => !free_for(*state, *ships, passable@, b),
                    None => true,
                },
        decreases 8 - k,
    {
        match neighbour((row, col), k) {
            None => {},
            Some(b) => {
                if b.0 < state.map.len() && b.1 < state.map[b.0].len() {
                    if passable_by_me(&state.map[b.0][b.1], passable) && sq_is_open(
                        state,
                        ships,
                        b.0,
                        b.1,
                    ) {
                        proof {
                            lemma_neighbours((row, col), b);
                        }
                        adj.push(b);
                    }
                }
            },
        }
        k += 1;
    }
    if adj.len() == 0 {
        proof {
            assert forall|b: Coord| adjacent((row, col), b) implies !#[trigger] free_for(
                *state,
                *ships,
                passable@,
                b,
            ) by {
                lemma_neighbours((row, col), b);
                let j = choose|j: int|
                    0 <= j < 8 && #[trigger] spec_neighbour((row, col), j) == Some(b);
                assert(spec_neighbour((row, col), j) == Some(b));
            }
        }
        (row, col)
    } else {
        let i: u8 = roll(adj.len() as u8, 1, 0) - 1;
        let loc: Coord = adj[i as usize];
        proof {
            assert(adjacent((row, col), adj@[i as int]));
            assert(free_for(*state, *ships, passable@, loc));
        }
        loc
    }
}

/// What chance and the search for a route decide in the course of one
/// creature's turn. A contract that speaks of a turn says that some such
/// decisions exist with which the turn went as it describes.
pub struct Fate {
    /// The throw of the twenty-sided die with which the creature strikes.
    pub throw: u8,
    /// The damage thrown.
    pub dmg: u8,
    /// The throw of the twenty-sided die for the player's check of an ability.
    pub check: u8,
    /// Whether the thing that happens only now and then happens.
    pub happens: bool,
    /// The draw from a hundred that picks what a pirate shouts.
    pub line: u8,
    /// The throw of the three-sided die that picks what the undead captain shouts.
    pub shout: u8,
    /// The step to a neighbour that a die picks.
    pub step: (i32, i32),
    /// The cell that the creature wanders or drifts to.
    pub spot: Coord,
    /// The route found to the player.
    pub path: Seq<Coord>,
    /// The moves away from the player in the order that chance gave them.
    pub moves: Seq<(i32, i32)>,
    /// The game between two things that happen in one turn.
    pub mid: GameState,
}

/// Decisions that decide nothing yet.
pub open spec fn no_fate(state: GameState) -> Fate {
    Fate {
        throw: 0,
        dmg: 0,
        check: 0,
        happens: false,
        line: 0,
        shout: 0,
        step: (0i32, 0i32),
        spot: (0usize, 0usize),
        path: Seq::empty(),
        moves: Seq::empty(),
        mid: state,
    }
}

/// The cell that the creature stands on.
pub open spec fn own(m: Monster) -> Coord {
    (m.row, m.col)
}

/// The creature `m` on the cell `c`.
pub open spec fn at(m: Monster, c: Coord) -> Monster {
    Monster { row: c.0, col: c.1, ..m }
}

/// The cell that the player stands on.
pub open spec fn player_cell(state: GameState) -> Coord {
    (state.player.row, state.player.col)
}

/// Whether the creature stands next to the player.
pub open spec fn near_player(m: Monster, state: GameState) -> bool {
    adjacent(own(m), player_cell(state))
}

/// The distance from the creature to the player, rounded down.
pub open spec fn gap(m: Monster, state: GameState) -> nat {
    capped(spec_cartesian_d(m.row, m.col, state.player.row, state.player.col))
}

/// Whether the history `after` is the history `before` with the messages
/// `msgs` noted in it one after the other.
pub open spec fn history_told(
    before: Seq<(String, u32)>,
    after: Seq<(String, u32)>,
    msgs: Seq<Seq<char>>,
) -> bool
    decreases msgs.len(),
{
    if msgs.len() == 0 {
        after == before
    } else {
        exists|mid: Seq<(String, u32)>|
            history_told(before, mid, msgs.drop_last()) && #[trigger] history_noted(
                mid,
                after,
                msgs.last(),
            )
    }
}

/// Whether `after` is the game `before` with the messages `msgs` told to
/// the player: they stand behind what was in the buffer, and are noted in
/// the history. Of the player the rest of a contract speaks.
pub open spec fn spoke(before: GameState, after: GameState, msgs: Seq<Seq<char>>) -> bool {
    &&& appended(before.msg_buff@, after.msg_buff@, msgs)
    &&& history_told(before.msg_history@, after.msg_history@, msgs)
    &&& after == (GameState {
        player: after.player,
        msg_buff: after.msg_buff,
        msg_history: after.msg_history,
        ..before
    })
}

/// A message told after others is told together with them.
proof fn lemma_spoke_twice(
    s0: GameState,
    s1: GameState,
    s2: GameState,
    a: Seq<Seq<char>>,
    msg: Seq<char>,
)
    requires
        spoke(s0, s1, a),
        spoke(s1, s2, seq![msg]),
    ensures
        spoke(s0, s2, a.push(msg)),
{
    let msgs = a.push(msg);
    assert forall|i: int| 0 <= i < msgs.len() implies (#[trigger] s2.msg_buff@[s0.msg_buff@.len()
        + i])@ == msgs[i] by {
        if i < a.len() {
            assert(s2.msg_buff@[s0.msg_buff@.len() + i] == s1.msg_buff@[s0.msg_buff@.len() + i]);
        } else {
            assert(s2.msg_buff@[s1.msg_buff@.len() + 0int]@ == seq![msg][0int]);
        }
    }
    let one = seq![msg];
    assert(one.drop_last() =~= Seq::<Seq<char>>::empty());
    let mid = choose|mid: Seq<(String, u32)>|
        history_told(s1.msg_history@, mid, one.drop_last()) && #[trigger] history_noted(
            mid,
            s2.msg_history@,
            one.last(),
        );
    assert(mid == s1.msg_history@);
    assert(msgs.drop_last() =~= a);
    assert(history_noted(s1.msg_history@, s2.msg_history@, msgs.last()));
}

/// Tells the player `msg`.
fn tell(state: &mut GameState, msg: &str)
    ensures
        spoke(*old(state), *final(state), seq![msg@]),
        final(state).player == old(state).player,
{
    state.write_msg_buff(msg);
    proof {
        let one = seq![msg@];
        assert(one.drop_last() =~= Seq::<Seq<char>>::empty());
        assert(history_told(old(state).msg_history@, old(state).msg_history@, one.drop_last()));
        assert(history_noted(old(state).msg_history@, state.msg_history@, one.last()));
    }
}

/// A sentence about the creature `name`: `before`, the name, `after`.
pub open spec fn about(before: Seq<char>, name: Seq<char>, after: Seq<char>) -> Seq<char> {
    before + name + after
}

/// Whether `dmg` is damage that the creature's dice can show, bonus and all.
pub open spec fn dmg_range(m: Monster, dmg: u8) -> bool {
    m.dmg_dice + m.dmg_bonus <= dmg <= m.dmg_dice * die_max(m.dmg) + m.dmg_bonus
}

/// Throws the dice for the damage that the creature does: as many dice as
/// it has, with as many faces as its damage says, and its bonus added.
fn damage_roll(m: &Monster) -> (res: u8)
    requires
        can_strike(*m),
    ensures
        dmg_range(*m, res),
{
    assert(0 <= m.dmg_dice * die_max(m.dmg)) by (nonlinear_arith)
        requires
            0 <= m.dmg_dice,
            0 <= die_max(m.dmg),
    ;
    roll(m.dmg, m.dmg_dice, m.dmg_bonus as i8)
}

/// A sentence about the creature `name`: `before`, the name, `after`.
fn sentence(before: &str, name: &String, after: &str) -> (res: String)
    ensures
        res@ == about(before@, name@, after@),
{
    let mut s = String::from_str(before);
    s.append(name.as_str());
    s.append(after);
    s
}

/// Whether the creature's strike lands: its throw, with its bonus to hit,
/// must meet the player's armour class.
pub open spec fn lands(m: Monster, state: GameState, fate: Fate) -> bool {
    check_passes(fate.throw, m.hit_bonus, state.player.ac, 0)
}

/// Whether this is how the creature `m` struck at the player: with a throw
/// that meets the player's armour class it hit, the player was told `hit_msg`
/// and took the damage thrown, of which they may have died; with any other
/// throw it missed, and the player was told `miss_msg`, if that says anything.
pub open spec fn strike_with(
    m: Monster,
    before: GameState,
    after: GameState,
    res: Result<(), ExitReason>,
    hit_msg: Seq<char>,
    miss_msg: Seq<char>,
    fate: Fate,
) -> bool {
    &&& 1 <= fate.throw <= 20
    &&& dmg_range(m, fate.dmg)
    &&& after.npcs == before.npcs
    &&& if lands(m, before, fate) {
        spoke(before, after, seq![hit_msg]) && hurt(
            before.player,
            after.player,
            res,
            fate.dmg,
            m.name@,
        )
    } else {
        res.is_ok() && after.player == before.player && spoke(
            before,
            after,
            if miss_msg.len() > 0 { seq![miss_msg] } else { Seq::<Seq<char>>::empty() },
        )
    }
}

/// Whether a strike hit, by its answer: a strike that killed did.
pub open spec fn strike_hit(res: Result<bool, ExitReason>) -> bool {
    match res {
        Ok(hit) => hit,
        Err(_) => true,
    }
}

/// The answer of a strike without the news of whether it hit.
pub open spec fn strike_end(res: Result<bool, ExitReason>) -> Result<(), ExitReason> {
    match res {
        Ok(_) => Ok(()),
        Err(e) => Err(e),
    }
}

/// The creature strikes at the player: where it hits, the player is told
/// with `hit` and takes damage; where it misses, the player is told with
/// `miss`, if there is anything to tell. The answer is whether it hit.
fn strike(m: &Monster, state: &mut GameState, hit: &str, miss: &str) -> (res: Result<
    bool,
    ExitReason,
>)
    requires
        can_strike(*m),
    ensures
        world_kept(*old(state), *final(state)),
        final(state).npcs == old(state).npcs,
        match res {
            Ok(_) => true,
            Err(e) => e is Death,
        },
        exists|fate: Fate| #[trigger]
            strike_with(*m, *old(state), *final(state), strike_end(res), hit@, miss@, fate)
                && strike_hit(res) == lands(*m, *old(state), fate),
{
    let ghost s0 = *state;
    let hits: bool = attack_player(state, m);
    let ghost throw = choose|throw: u8|
        1 <= throw <= 20 && hits == #[trigger] check_passes(throw, m.hit_bonus, s0.player.ac, 0);
    if hits {
        tell(state, hit);
        let dmg: u8 = damage_roll(m);
        let ghost fate = Fate { throw, dmg, ..no_fate(s0) };
        match player_takes_dmg(&mut state.player, dmg, m.name.as_str()) {
            Ok(_) => {
                proof {
                    assert(hurt(s0.player, state.player, Ok(()), dmg, m.name@));
                    assert(strike_with(
                        *m,
                        s0,
                        *state,
                        strike_end(Ok::<bool, ExitReason>(true)),
                        hit@,
                        miss@,
                        fate,
                    ));
                }
                Ok(true)
            },
            Err(e) => {
                proof {
                    assert(hurt(s0.player, state.player, Err(e), dmg, m.name@));
                    assert(strike_with(
                        *m,
                        s0,
                        *state,
                        strike_end(Err::<bool, ExitReason>(e)),
                        hit@,
                        miss@,
                        fate,
                    ));
                }
                Err(e)
            },
        }
    } else {
        if miss.unicode_len() > 0 {
            tell(state, miss);
        }
        proof {
            let fate = Fate { throw, dmg: (m.dmg_dice + m.dmg_bonus) as u8, ..no_fate(s0) };
            assert(0 <= m.dmg_dice * die_max(m.dmg)) by (nonlinear_arith)
                requires
                    0 <= m.dmg_dice,
                    0 <= die_max(m.dmg),
            ;
            assert(m.dmg_dice <= m.dmg_dice * die_max(m.dmg)) by (nonlinear_arith)
                requires
                    0 <= m.dmg_dice,
                    1 <= die_max(m.dmg),
            ;
            assert(strike_with(
                *m,
                s0,
                *state,
                strike_end(Ok::<bool, ExitReason>(false)),
                hit@,
                miss@,
                fate,
            ));
        }
        Ok(false)
    }
}

/// Whether this is how the special damage `special` of a creature worked
/// on the player: poison gets into a player who is not poisoned yet and
/// fails a check of constitution against 13, and the player is told so;
/// nothing else does anything.
pub open spec fn poison_with(before: GameState, after: GameState, special: Seq<char>, fate: Fate) -> bool {
    &&& 1 <= fate.check <= 20
    &&& if special == "poison"@ && !before.player.poisoned && !check_passes(
        fate.check,
        spec_mod_for_stat(before.player.constitution) as i8,
        13,
        0,
    ) {
        spoke(before, after, seq!["You are poisoned!"@]) && after.player == (Player {
            poisoned: true,
            ..before.player
        })
    } else {
        after == before
    }
}

/// Poison gets into the player who fails a check of constitution.
fn do_special_dmg(state: &mut GameState, special_dmg: &str)
    ensures
        world_kept(*old(state), *final(state)),
        final(state).npcs == old(state).npcs,
        exists|fate: Fate| #[trigger] poison_with(*old(state), *final(state), special_dmg@, fate),
{
    let ghost s0 = *state;
    let ghost mut check: u8 = 1;
    if same_text(special_dmg, "poison") {
        let con_mod: i8 = Player::mod_for_stat(state.player.constitution);
        if !state.player.poisoned {
            let passes: bool = do_ability_check(con_mod, 13, 0);
            proof {
                check = choose|throw: u8|
                    1 <= throw <= 20 && passes == #[trigger] check_passes(throw, con_mod, 13, 0);
            }
            if !passes {
                tell(state, "You are poisoned!");
                state.player.poisoned = true;
            }
        }
    }
    proof {
        assert(poison_with(s0, *state, special_dmg@, Fate { check, ..no_fate(s0) }));
    }
}

/// What the player hears when a creature of the kind `t` notices them.
pub open spec fn noise_of(t: NPCType) -> Seq<Seq<char>> {
    match t {
        NPCType::MaroonedPirate => seq!["You hear a shout."@],
        NPCType::Boar => seq!["Something snarls."@],
        NPCType::Panther => seq!["Something snarls."@],
        NPCType::Skeleton => seq!["You hear rattling bones."@],
        NPCType::Snake => seq!["You hear a hiss."@],
        NPCType::Merfolk => seq!["You hear a splash."@],
        _ => Seq::<Seq<char>>::empty(),
    }
}

/// The bonus that goes with a player's proficiency, held to a signed byte.
pub open spec fn stealth_bonus(p: Player) -> i8 {
    if p.prof_bonus > 127 { 127i8 } else { p.prof_bonus as i8 }
}

/// Whether this is how the creature came to notice the player or not: a
/// player who fails a check of dexterity against 13, helped by their
/// proficiency, is noticed, and hears the creature; else nothing changes.
pub open spec fn notice_with(
    m0: Monster,
    m1: Monster,
    before: GameState,
    after: GameState,
    fate: Fate,
) -> bool {
    &&& 1 <= fate.check <= 20
    &&& if !check_passes(
        fate.check,
        spec_mod_for_stat(before.player.dexterity) as i8,
        13,
        stealth_bonus(before.player),
    ) {
        m1 == (Monster { aware_of_player: true, ..m0 }) && spoke(
            before,
            after,
            noise_of(m0.npc_type),
        ) && after.player == before.player
    } else {
        m1 == m0 && after == before
    }
}

/// The player who fails a check of dexterity is noticed, and hears it.
fn stealth_check(state: &mut GameState, m: &mut Monster)
    ensures
        world_kept(*old(state), *final(state)),
        final(state).npcs == old(state).npcs,
        same_creature(*old(m), *final(m)),
        final(m).row == old(m).row && final(m).col == old(m).col,
        exists|fate: Fate| #[trigger]
            notice_with(*old(m), *final(m), *old(state), *final(state), fate),
{
    let ghost s0 = *state;
    let ghost m0 = *m;
    let dex_mod: i8 = Player::mod_for_stat(state.player.dexterity);
    let bonus: i8 = if state.player.prof_bonus > 127 { 127 } else { state.player.prof_bonus as i8 };
    let passes: bool = do_ability_check(dex_mod, 13, bonus);
    let ghost check = choose|throw: u8|
        1 <= throw <= 20 && passes == #[trigger] check_passes(throw, dex_mod, 13, bonus);
    if !passes {
        m.aware_of_player = true;
        match m.npc_type {
            NPCType::MaroonedPirate => tell(state, "You hear a shout."),
            NPCType::Boar | NPCType::Panther => tell(state, "Something snarls."),
            NPCType::Skeleton => tell(state, "You hear rattling bones."),
            NPCType::Snake => tell(state, "You hear a hiss."),
            NPCType::Merfolk => tell(state, "You hear a splash."),
            _ => {},
        }
    }
    proof {
        assert(notice_with(m0, *m, s0, *state, Fate { check, ..no_fate(s0) }));
    }
}

/// Where a creature that makes for the player goes next.
pub enum Advance {
    /// No route leads anywhere.
    NoRoute,
    /// Another creature stands on the next cell of the route.
    Blocked,
    /// The next cell of the route.
    To(Coord),
}

/// Whether `path` is an answer of the search for a route from `start` to
/// `goal`: a route to the goal or to its stand-in, from the start to its
/// end without a cell twice; empty exactly where the start or the goal is
/// no cell of the map, the goal has no stand-in, or no route exists; and
/// the start alone where the start is the goal and can be stood on.
pub open spec fn route_answer(
    state: GameState,
    ships: ShipsTable,
    valid: Seq<Tile>,
    start: Coord,
    goal: Coord,
    path: Seq<Coord>,
) -> bool {
    &&& match spec_target(state.map@, valid, start, goal) {
        None => path.len() == 0,
        Some(t) => {
            &&& path.len() > 0 ==> is_route(state, ships, valid, t, path) && path[0] == start
                && path.last() == t
            &&& path.len() == 0 <==> !(is_cell(state.map@, start) && reachable(
                state,
                ships,
                valid,
                start,
                t,
            ))
        },
    }
    &&& start == goal && terrain_ok(state.map@, valid, goal) ==> path == seq![start]
    &&& path.no_duplicates()
}

/// The next step on the route `path`: its second cell, unless a creature
/// stands there; a route of one cell or none leads nowhere.
pub open spec fn spec_next_step(path: Seq<Coord>, npcs: NPCTracker) -> Advance {
    if path.len() > 1 {
        if npcs.loc_index@.contains_key(path[1]) {
            Advance::Blocked
        } else {
            Advance::To(path[1])
        }
    } else {
        Advance::NoRoute
    }
}

/// The next step on the route `path`.
pub fn next_step(path: &Vec<Coord>, npcs: &NPCTracker) -> (res: Advance)
    ensures
        res == spec_next_step(path@, *npcs),
{
    if path.len() > 1 {
        let new_loc: Coord = path[1];
        if npcs.is_npc_at(new_loc.0, new_loc.1) {
            Advance::Blocked
        } else {
            Advance::To(new_loc)
        }
    } else {
        Advance::NoRoute
    }
}

/// The next step of the creature on its route to the player, for a creature
/// that can cross the tiles in `passable`: the next step on what the search
/// for a route from the creature's cell to the player's answers.
pub fn advance(m: &Monster, state: &GameState, ships: &ShipsTable, passable: &Vec<Tile>) -> (res:
    Advance)
    ensures
        match res {
            Advance::To(c) => is_cell(state.map@, c) && adjacent((m.row, m.col), c)
                && !state.npcs.loc_index@.contains_key(c),
            Advance::Blocked => true,
            Advance::NoRoute => true,
        },
        exists|path: Seq<Coord>| #[trigger]
            route_answer(*state, *ships, passable@, own(*m), player_cell(*state), path) && res
                == spec_next_step(path, state.npcs),
{
    let path = find_path(
        state,
        m.row,
        m.col,
        state.player.row,
        state.player.col,
        passable,
        ships,
    );
    proof {
        if path@.len() > 1 {
            assert(adjacent(path@[0int], path@[0int + 1]));
        }
        assert(route_answer(*state, *ships, passable@, own(*m), player_cell(*state), path@));
    }
    next_step(&path, &state.npcs)
}

/// The answer of a strike without the news of whether it hit.
fn end_of(r: Result<bool, ExitReason>) -> (res: Result<(), ExitReason>)
    ensures
        res == strike_end(r),
{
    match r {
        Ok(_) => Ok(()),
        Err(e) => Err(e),
    }
}

/// What the player is told when the creature cannot get past another.
pub open spec fn blocked_msg(m: Monster) -> Seq<char> {
    about("The "@, m.name@, " is blocked."@)
}

/// Tells the player that the creature cannot get past another.
fn say_blocked(m: &Monster, state: &mut GameState)
    ensures
        world_kept(*old(state), *final(state)),
        final(state).npcs == old(state).npcs,
        spoke(*old(state), *final(state), seq![blocked_msg(*m)]),
        final(state).player == old(state).player,
{
    let s = sentence("The ", &m.name, " is blocked.");
    tell(state, s.as_str());
}

/// The tiles that a creature of the land can cross: dirt, grass, sand and
/// trees, with floors or without, and with shallow water or without.
pub open spec fn spec_land_tiles(floor: bool, water: bool) -> Seq<Tile> {
    seq![Tile::Dirt, Tile::Grass, Tile::Sand, Tile::Tree] + (if floor {
        seq![Tile::Floor]
    } else {
        Seq::<Tile>::empty()
    }) + (if water {
        seq![Tile::Water]
    } else {
        Seq::<Tile>::empty()
    })
}

/// The tiles that a creature of the land can cross, with floors and with
/// shallow water or without.
fn land_tiles(floor: bool, water: bool) -> (res: Vec<Tile>)
    ensures
        res@ == spec_land_tiles(floor, water),
{
    let mut passable: Vec<Tile> = Vec::new();
    passable.push(Tile::Dirt);
    passable.push(Tile::Grass);
    passable.push(Tile::Sand);
    passable.push(Tile::Tree);
    if floor {
        passable.push(Tile::Floor);
    }
    if water {
        passable.push(Tile::Water);
    }
    proof {
        assert(passable@ =~= spec_land_tiles(floor, water));
    }
    passable
}

/// Whether `c` is where a creature on `from` wanders to: a neighbouring
/// cell that it may step onto, or `from` itself, and that exactly where it
/// may step onto no neighbouring cell.
pub open spec fn wander_spot(
    state: GameState,
    ships: ShipsTable,
    valid: Seq<Tile>,
    from: Coord,
    c: Coord,
) -> bool {
    &&& c == from || (adjacent(from, c) && free_for(state, ships, valid, c))
    &&& c == from <==> forall|b: Coord|
        adjacent(from, b) ==> !#[trigger] free_for(state, ships, valid, b)
}

/// Whether this is how the creature made for the player over the tiles
/// `valid`: it took the next step of the route found; or, where another
/// creature stood on that step, it stayed and the player was told so; or,
/// where no route led anywhere, it wandered, if it `wanders`, and else stayed.
pub open spec fn approach_with(
    m0: Monster,
    m1: Monster,
    s0: GameState,
    s1: GameState,
    ships: ShipsTable,
    valid: Seq<Tile>,
    wanders: bool,
    fate: Fate,
) -> bool {
    &&& route_answer(s0, ships, valid, own(m0), player_cell(s0), fate.path)
    &&& match spec_next_step(fate.path, s0.npcs) {
        Advance::To(c) => m1 == at(m0, c) && s1 == s0,
        Advance::Blocked => m1 == m0 && spoke(s0, s1, seq![blocked_msg(m0)]) && s1.player
            == s0.player,
        Advance::NoRoute => s1 == s0 && if wanders {
            wander_spot(s0, ships, valid, own(m0), fate.spot) && m1 == at(m0, fate.spot)
        } else {
            m1 == m0
        },
    }
}

/// The creature makes for the player over the tiles in `passable`.
fn approach(
    m: &mut Monster,
    state: &mut GameState,
    ships: &ShipsTable,
    passable: &Vec<Tile>,
    wanders: bool,
)
    ensures
        same_creature(*old(m), *final(m)),
        final(m).aware_of_player == old(m).aware_of_player,
        final(m).minions == old(m).minions,
        world_kept(*old(state), *final(state)),
        final(state).npcs == old(state).npcs,
        exists|fate: Fate| #[trigger]
            approach_with(
                *old(m),
                *final(m),
                *old(state),
                *final(state),
                *ships,
                passable@,
                wanders,
                fate,
            ),
{
    let ghost m0 = *m;
    let ghost s0 = *state;
    let step = advance(m, state, ships, passable);
    let ghost path = choose|path: Seq<Coord>| #[trigger]
        route_answer(s0, *ships, passable@, own(m0), player_cell(s0), path) && step
            == spec_next_step(path, s0.npcs);
    let ghost mut spot: Coord = own(m0);
    match step {
        Advance::To(c) => {
            m.row = c.0;
            m.col = c.1;
        },
        Advance::Blocked => {
            say_blocked(m, state);
        },
        Advance::NoRoute => {
            if wanders {
                let loc = find_adj_empty_sq(m.row, m.col, state, ships, passable);
                m.row = loc.0;
                m.col = loc.1;
                proof {
                    spot = loc;
                }
            }
        },
    }
    proof {
        assert(approach_with(
            m0,
            *m,
            s0,
            *state,
            *ships,
            passable@,
            wanders,
            Fate { path, spot, ..no_fate(s0) },
        ));
    }
}

/// What the undead captain shouts, by the throw of a three-sided die.
pub open spec fn shout_line(shout: u8) -> Seq<char> {
    if shout == 1 {
        "The undead captain cackles."@
    } else if shout == 2 {
        "Arise, matey!"@
    } else {
        "Yer captain ain't done with ye, swab!"@
    }
}

/// Whether a skeleton can be raised on `c`: a cell of the map that can be
/// stood on and is open, while the tracker can still count.
pub open spec fn can_raise(state: GameState, ships: ShipsTable, c: Coord) -> bool {
    &&& is_cell(state.map@, c)
    &&& state.npcs.npc_id < usize::MAX
    &&& spec_sq_is_open(state, ships, c)
    &&& spec_is_passable(state.map@[c.0 as int][c.1 as int])
}

/// Whether the tracker `after` is `before` with a new skeleton on `c` that
/// serves the boss `boss`.
pub open spec fn raised(before: NPCTracker, after: NPCTracker, c: Coord, boss: usize) -> bool {
    &&& enlisted(before, after, c.0, c.1)
    &&& monster_is(
        after.npc_list@[after.npc_id],
        after.npc_id,
        after.npc_list@[after.npc_id].hp,
        c.0,
        c.1,
        stats_of(NPCType::Skeleton),
        (Traits { boss, ..plain_traits() }),
    )
    &&& 3 <= after.npc_list@[after.npc_id].hp <= 13
}

/// Whether this is how the undead captain took its turn. While it has
/// fewer than fifteen minions it now and then tries to raise one: on the
/// neighbouring cell that a die picks, if a skeleton can be raised there;
/// it then has one minion more, and shouts if the player is within eight
/// cells. Else it claws at the player who stands next to it, or wanders
/// over land, floors and shallow water.
pub open spec fn boss_with(
    m0: Monster,
    m1: Monster,
    s0: GameState,
    s1: GameState,
    res: Result<(), ExitReason>,
    ships: ShipsTable,
    fate: Fate,
) -> bool {
    if m0.minions < 15 && fate.happens {
        &&& res.is_ok()
        &&& -1 <= fate.step.0 <= 1 && -1 <= fate.step.1 <= 1 && fate.step != (0i32, 0i32)
        &&& match move_target(m0, fate.step) {
            Some(c) => if can_raise(s0, ships, c) {
                &&& m1 == (Monster { minions: (m0.minions + 1) as u8, ..m0 })
                &&& fate.mid == (GameState { npcs: fate.mid.npcs, ..s0 })
                &&& raised(s0.npcs, fate.mid.npcs, c, m0.id)
                &&& if gap(m0, s0) < 8 {
                    1 <= fate.shout <= 3 && spoke(fate.mid, s1, seq![shout_line(fate.shout)])
                        && s1.player == s0.player
                } else {
                    s1 == fate.mid
                }
            } else {
                m1 == m0 && s1 == s0
            },
            None => m1 == m0 && s1 == s0,
        }
    } else if near_player(m0, s0) {
        m1 == m0 && strike_with(
            m0,
            s0,
            s1,
            res,
            about("The "@, m0.name@, " claws at you!"@),
            ""@,
            fate,
        )
    } else {
        res.is_ok() && s1 == s0 && wander_spot(
            s0,
            ships,
            spec_land_tiles(true, true),
            own(m0),
            fate.spot,
        ) && m1 == at(m0, fate.spot)
    }
}

/// The undead captain raises a skeleton beside it now and then while it has
/// fewer than fifteen, else claws at the player if they stand next to it,
/// else wanders.
fn undead_boss_action(m: &mut Monster, state: &mut GameState, ships: &ShipsTable) -> (res: Result<
    (),
    ExitReason,
>)
    requires
        can_strike(*old(m)),
    ensures
        same_creature(*old(m), *final(m)),
        world_kept(*old(state), *final(state)),
        turn_outcome(res),
        exists|fate: Fate| #[trigger]
            boss_with(*old(m), *final(m), *old(state), *final(state), res, *ships, fate),
{
    let ghost m0 = *m;
    let ghost s0 = *state;
    let raising: bool = m.minions < 15 && chance(33);
    if raising {
        let loc = rnd_adj();
        let ghost mut fate = Fate { happens: true, step: loc, ..no_fate(s0) };
        match (offset(m.row, loc.0), offset(m.col, loc.1)) {
            (Some(target_r), Some(target_c)) => {
                if target_r < state.map.len() && target_c < state.map[target_r].len()
                    && state.npcs.npc_id < usize::MAX && sq_is_open(
                    state,
                    ships,
                    target_r,
                    target_c,
                ) && is_passable(&state.map[target_r][target_c]) {
                    state.npcs.new_skeleton(target_r, target_c, m.id);
                    m.minions += 1;
                    proof {
                        fate = Fate { mid: *state, ..fate };
                    }
                    let dis: usize = cartesian_d(
                        m.row,
                        m.col,
                        state.player.row,
                        state.player.col,
                    );
                    if dis < 8 {
                        let shout: u8 = roll(3, 1, 0);
                        if shout == 1 {
                            tell(state, "The undead captain cackles.");
                        } else if shout == 2 {
                            tell(state, "Arise, matey!");
                        } else {
                            tell(state, "Yer captain ain't done with ye, swab!");
                        }
                        proof {
                            fate = Fate { shout, ..fate };
                        }
                    }
                }
            },
            _ => {},
        }
        proof {
            assert(boss_with(m0, *m, s0, *state, Ok(()), *ships, fate));
        }
        Ok(())
    } else if sqs_adj(m.row, m.col, state.player.row, state.player.col) {
        let hit = sentence("The ", &m.name, " claws at you!");
        let r = strike(m, state, hit.as_str(), "");
        proof {
            let f = choose|f: Fate| #[trigger]
                strike_with(m0, s0, *state, strike_end(r), hit@, ""@, f) && strike_hit(r) == lands(
                    m0,
                    s0,
                    f,
                );
            assert(boss_with(m0, *m, s0, *state, strike_end(r), *ships, Fate { happens: false, ..f }));
        }
        end_of(r)
    } else {
        let passable = land_tiles(true, true);
        let loc = find_adj_empty_sq(m.row, m.col, state, ships, &passable);
        m.row = loc.0;
        m.col = loc.1;
        proof {
            assert(boss_with(m0, *m, s0, *state, Ok(()), *ships, Fate { spot: loc, ..no_fate(s0) }));
        }
        Ok(())
    }
}

/// Whether this is how a skeleton took its turn. Every third turn it
/// rests. Else it claws at the player who stands next to it, or makes for
/// the player within twenty-five cells over land, floors and shallow water.
pub open spec fn undead_with(
    m0: Monster,
    m1: Monster,
    s0: GameState,
    s1: GameState,
    res: Result<(), ExitReason>,
    ships: ShipsTable,
    fate: Fate,
) -> bool {
    if s0.turn % 3 == 0 {
        res.is_ok() && m1 == m0 && s1 == s0
    } else if near_player(m0, s0) {
        m1 == m0 && strike_with(
            m0,
            s0,
            s1,
            res,
            about("The "@, m0.name@, " claws at you!"@),
            ""@,
            fate,
        )
    } else if gap(m0, s0) < 25 {
        res.is_ok() && approach_with(m0, m1, s0, s1, ships, spec_land_tiles(true, true), false, fate)
    } else {
        res.is_ok() && m1 == m0 && s1 == s0
    }
}

/// A skeleton rests every third turn; else it claws at the player if they
/// stand next to it, or makes for them if they are near.
fn basic_undead_action(m: &mut Monster, state: &mut GameState, ships: &ShipsTable) -> (res: Result<
    (),
    ExitReason,
>)
    requires
        can_strike(*old(m)),
    ensures
        same_creature(*old(m), *final(m)),
        world_kept(*old(state), *final(state)),
        final(state).npcs == old(state).npcs,
        turn_outcome(res),
        exists|fate: Fate| #[trigger]
            undead_with(*old(m), *final(m), *old(state), *final(state), res, *ships, fate),
{
    let ghost m0 = *m;
    let ghost s0 = *state;
    if state.turn % 3 == 0 {
        proof {
            assert(undead_with(m0, *m, s0, *state, Ok(()), *ships, no_fate(s0)));
        }
        return Ok(());
    }
    if sqs_adj(m.row, m.col, state.player.row, state.player.col) {
        let hit = sentence("The ", &m.name, " claws at you!");
        let r = strike(m, state, hit.as_str(), "");
        proof {
            let f = choose|f: Fate| #[trigger]
                strike_with(m0, s0, *state, strike_end(r), hit@, ""@, f) && strike_hit(r) == lands(
                    m0,
                    s0,
                    f,
                );
            assert(undead_with(m0, *m, s0, *state, strike_end(r), *ships, f));
        }
        end_of(r)
    } else {
        let dis: usize = cartesian_d(m.row, m.col, state.player.row, state.player.col);
        if dis < 25 {
            let passable = land_tiles(true, true);
            approach(m, state, ships, &passable, false);
            proof {
                let f = choose|f: Fate| #[trigger]
                    approach_with(m0, *m, s0, *state, *ships, passable@, false, f);
                assert(undead_with(m0, *m, s0, *state, Ok(()), *ships, f));
            }
        } else {
            proof {
                assert(undead_with(m0, *m, s0, *state, Ok(()), *ships, no_fate(s0)));
            }
        }
        Ok(())
    }
}

/// What the player is told when a beast hits them: that it bites, gores or
/// attacks them, as `verb` says.
pub open spec fn bite_msg(m: Monster, verb: Seq<char>) -> Seq<char> {
    about("The "@, m.name@, " "@) + verb + " you!"@
}

/// Whether this is how a beast took its turn. A beast that knows of the
/// player and stands next to them strikes, and one that hits poisons, if
/// poison is its special damage. Any other beast wanders when the player is
/// more than twenty cells away; wanders and may notice the player when it
/// does not know of them and they are within ten cells; and else makes for
/// the player. It moves over land and floors.
pub open spec fn beast_with(
    m0: Monster,
    m1: Monster,
    s0: GameState,
    s1: GameState,
    res: Result<(), ExitReason>,
    ships: ShipsTable,
    verb: Seq<char>,
    fate: Fate,
) -> bool {
    if m0.aware_of_player && near_player(m0, s0) {
        &&& m1 == m0
        &&& strike_with(
            m0,
            s0,
            fate.mid,
            res,
            bite_msg(m0, verb),
            about("The "@, m0.name@, " missed!"@),
            fate,
        )
        &&& if res.is_ok() && lands(m0, s0, fate) && m0.special_dmg@.len() > 0 {
            poison_with(fate.mid, s1, m0.special_dmg@, fate)
        } else {
            s1 == fate.mid
        }
    } else {
        &&& res.is_ok()
        &&& if gap(m0, s0) > 20 {
            s1 == s0 && wander_spot(s0, ships, spec_land_tiles(true, false), own(m0), fate.spot)
                && m1 == at(m0, fate.spot)
        } else if !m0.aware_of_player && gap(m0, s0) < 10 {
            wander_spot(s0, ships, spec_land_tiles(true, false), own(m0), fate.spot)
                && notice_with(at(m0, fate.spot), m1, s0, s1, fate)
        } else {
            approach_with(m0, m1, s0, s1, ships, spec_land_tiles(true, false), false, fate)
        }
    }
}

/// A beast bites or gores the player it knows of and stands next to; far
/// off it wanders; nearer, it notices the player or makes for them.
fn basic_monster_action(
    m: &mut Monster,
    state: &mut GameState,
    ships: &ShipsTable,
    verb: &str,
) -> (res: Result<(), ExitReason>)
    requires
        can_strike(*old(m)),
    ensures
        same_creature(*old(m), *final(m)),
        world_kept(*old(state), *final(state)),
        final(state).npcs == old(state).npcs,
        turn_outcome(res),
        exists|fate: Fate| #[trigger]
            beast_with(*old(m), *final(m), *old(state), *final(state), res, *ships, verb@, fate),
{
    let ghost m0 = *m;
    let ghost s0 = *state;
    if m.aware_of_player && sqs_adj(m.row, m.col, state.player.row, state.player.col) {
        let mut hit = sentence("The ", &m.name, " ");
        hit.append(verb);
        hit.append(" you!");
        let miss = sentence("The ", &m.name, " missed!");
        let r = strike(m, state, hit.as_str(), miss.as_str());
        let ghost f = choose|f: Fate| #[trigger]
            strike_with(m0, s0, *state, strike_end(r), hit@, miss@, f) && strike_hit(r) == lands(
                m0,
                s0,
                f,
            );
        let ghost mid = *state;
        let ghost mut fate = Fate { mid, ..f };
        let struck: bool = match &r {
            Ok(struck) => *struck,
            Err(_) => false,
        };
        if struck && m.special_dmg.as_str().unicode_len() > 0 {
            do_special_dmg(state, m.special_dmg.as_str());
            proof {
                let g = choose|g: Fate| #[trigger] poison_with(mid, *state, m0.special_dmg@, g);
                fate = Fate { check: g.check, ..fate };
            }
        }
        proof {
            assert(strike_with(m0, s0, fate.mid, strike_end(r), hit@, miss@, fate));
            assert(beast_with(m0, *m, s0, *state, strike_end(r), *ships, verb@, fate));
        }
        return end_of(r);
    }
    let passable = land_tiles(true, false);
    let dis: usize = cartesian_d(m.row, m.col, state.player.row, state.player.col);
    if dis > 20 {
        let loc = find_adj_empty_sq(m.row, m.col, state, ships, &passable);
        m.row = loc.0;
        m.col = loc.1;
        proof {
            assert(beast_with(
                m0,
                *m,
                s0,
                *state,
                Ok(()),
                *ships,
                verb@,
                Fate { spot: loc, ..no_fate(s0) },
            ));
        }
    } else if !m.aware_of_player && dis < 10 {
        let loc = find_adj_empty_sq(m.row, m.col, state, ships, &passable);
        m.row = loc.0;
        m.col = loc.1;
        let ghost moved = *m;
        stealth_check(state, m);
        proof {
            let g = choose|g: Fate| #[trigger] notice_with(moved, *m, s0, *state, g);
            assert(beast_with(
                m0,
                *m,
                s0,
                *state,
                Ok(()),
                *ships,
                verb@,
                Fate { spot: loc, check: g.check, ..no_fate(s0) },
            ));
        }
    } else {
        approach(m, state, ships, &passable, false);
        proof {
            let f = choose|f: Fate| #[trigger]
                approach_with(m0, *m, s0, *state, *ships, passable@, false, f);
            assert(beast_with(m0, *m, s0, *state, Ok(()), *ships, verb@, f));
        }
    }
    Ok(())
}

/// The tiles that a castaway potters about on: dirt, grass, sand, trees and
/// shallow water.
pub open spec fn camp_tiles() -> Seq<Tile> {
    spec_land_tiles(false, false).push(Tile::Water)
}

/// The creature on `c`, if that is less than `reach` cells from `centre`,
/// and else where it was.
pub open spec fn kept_within(m: Monster, centre: Coord, reach: nat, c: Coord) -> Monster {
    if capped(spec_cartesian_d(centre.0, centre.1, c.0, c.1)) < reach {
        at(m, c)
    } else {
        m
    }
}

/// Whether this is how a castaway took its turn. A hostile one fights like
/// a beast that attacks. A peaceful one does nothing unless the player is
/// within four cells; then it speaks its line now and then, and wanders to
/// a neighbouring cell, unless that is four cells or more from where it is.
pub open spec fn castaway_with(
    m0: Monster,
    m1: Monster,
    s0: GameState,
    s1: GameState,
    res: Result<(), ExitReason>,
    ships: ShipsTable,
    fate: Fate,
) -> bool {
    if m0.hostile {
        beast_with(m0, m1, s0, s1, res, ships, "attacks"@, fate)
    } else if gap(m0, s0) < 4 {
        &&& res.is_ok()
        &&& if fate.happens {
            spoke(s0, s1, seq![m0.voice_line@]) && s1.player == s0.player
        } else {
            s1 == s0
        }
        &&& wander_spot(s1, ships, camp_tiles(), own(m0), fate.spot)
        &&& m1 == kept_within(m0, own(m0), 4, fate.spot)
    } else {
        res.is_ok() && m1 == m0 && s1 == s0
    }
}

/// A castaway who has turned hostile fights like a beast; a peaceful one
/// speaks now and then when the player is close, and potters about the camp.
fn castaway_action(m: &mut Monster, state: &mut GameState, ships: &ShipsTable) -> (res: Result<
    (),
    ExitReason,
>)
    requires
        can_strike(*old(m)),
    ensures
        same_creature(*old(m), *final(m)),
        world_kept(*old(state), *final(state)),
        final(state).npcs == old(state).npcs,
        turn_outcome(res),
        exists|fate: Fate| #[trigger]
            castaway_with(*old(m), *final(m), *old(state), *final(state), res, *ships, fate),
{
    let ghost m0 = *m;
    let ghost s0 = *state;
    if m.hostile {
        let res = basic_monster_action(m, state, ships, "attacks");
        proof {
            let f = choose|f: Fate| #[trigger]
                beast_with(m0, *m, s0, *state, res, *ships, "attacks"@, f);
            assert(castaway_with(m0, *m, s0, *state, res, *ships, f));
        }
        return res;
    }
    let d: usize = cartesian_d(m.row, m.col, state.player.row, state.player.col);
    if d < 4 {
        let speaks: bool = chance(25);
        if speaks {
            tell(state, m.voice_line.as_str());
        }
        let mut passable = land_tiles(false, false);
        passable.push(Tile::Water);
        let loc = find_adj_empty_sq(m.row, m.col, state, ships, &passable);
        if cartesian_d(m.row, m.col, loc.0, loc.1) < 4 {
            m.row = loc.0;
            m.col = loc.1;
        }
        proof {
            assert(castaway_with(
                m0,
                *m,
                s0,
                *state,
                Ok(()),
                *ships,
                Fate { happens: speaks, spot: loc, ..no_fate(s0) },
            ));
        }
    } else {
        proof {
            assert(castaway_with(m0, *m, s0, *state, Ok(()), *ships, no_fate(s0)));
        }
    }
    Ok(())
}

/// One of five things that a pirate shouts, by a draw from a hundred: a
/// fifth of the draws for each.
pub open spec fn spec_pirate_line(draw: u8) -> Seq<char> {
    if draw < 20 {
        "Ye scurvy dog!"@
    } else if draw < 40 {
        "Arroint thee, barnacle!"@
    } else if draw < 60 {
        "I'll scuttle you!"@
    } else if draw < 80 {
        "To the locker with ye!"@
    } else {
        "I've smelled better bilges!"@
    }
}

/// One of five things that a pirate shouts, by a draw from a hundred.
pub fn pirate_line_for(draw: u8) -> (res: String)
    ensures
        res@ == spec_pirate_line(draw),
{
    if draw < 20 {
        String::from_str("Ye scurvy dog!")
    } else if draw < 40 {
        String::from_str("Arroint thee, barnacle!")
    } else if draw < 60 {
        String::from_str("I'll scuttle you!")
    } else if draw < 80 {
        String::from_str("To the locker with ye!")
    } else {
        String::from_str("I've smelled better bilges!")
    }
}

/// One of five things that a pirate shouts, picked by a draw from a hundred.
fn get_pirate_line() -> (res: String)
    ensures
        exists|draw: u8| draw < 100 && res@ == #[trigger] spec_pirate_line(draw),
{
    let draw: u8 = random_below(100);
    let res = pirate_line_for(draw);
    proof {
        assert(res@ == spec_pirate_line(draw));
    }
    res
}

/// The word for what belongs to a creature of the given gender.
pub open spec fn pronoun_of(gender: u8) -> Seq<char> {
    if gender == 0 {
        "their"@
    } else if gender == 1 {
        "her"@
    } else {
        "his"@
    }
}

/// What the player is told when a pirate hits them.
pub open spec fn slash_msg(m: Monster) -> Seq<char> {
    about("The "@, m.name@, " slashes with "@) + pronoun_of(m.gender) + " cutlass!"@
}

/// Whether this is how a marooned pirate took its turn. Next to the player
/// it slashes at them and, unless the player died, shouts now and then.
/// More than twenty cells away it does nothing. Nearer, a pirate that knows
/// of the player takes the next step of a route to them, or wanders where
/// no route leads, but only to a cell less than nine cells from its anchor;
/// one that is blocked stays and says so. A pirate that does not know of
/// the player may notice them within ten cells.
pub open spec fn pirate_with(
    m0: Monster,
    m1: Monster,
    s0: GameState,
    s1: GameState,
    res: Result<(), ExitReason>,
    ships: ShipsTable,
    fate: Fate,
) -> bool {
    if near_player(m0, s0) {
        &&& m1 == m0
        &&& strike_with(
            m0,
            s0,
            fate.mid,
            res,
            slash_msg(m0),
            about("The "@, m0.name@, " missed!"@),
            fate,
        )
        &&& if res.is_ok() && fate.happens {
            fate.line < 100 && spoke(fate.mid, s1, seq![spec_pirate_line(fate.line)]) && s1.player
                == fate.mid.player
        } else {
            s1 == fate.mid
        }
    } else if gap(m0, s0) > 20 {
        res.is_ok() && m1 == m0 && s1 == s0
    } else if m0.aware_of_player {
        &&& res.is_ok()
        &&& route_answer(
            s0,
            ships,
            spec_land_tiles(true, true),
            own(m0),
            player_cell(s0),
            fate.path,
        )
        &&& match spec_next_step(fate.path, s0.npcs) {
            Advance::To(c) => s1 == s0 && m1 == kept_within(m0, m0.anchor, 9, c),
            Advance::Blocked => m1 == m0 && spoke(s0, s1, seq![blocked_msg(m0)]) && s1.player
                == s0.player,
            Advance::NoRoute => s1 == s0 && wander_spot(
                s0,
                ships,
                spec_land_tiles(true, true),
                own(m0),
                fate.spot,
            ) && m1 == kept_within(m0, m0.anchor, 9, fate.spot),
        }
    } else if gap(m0, s0) < 10 {
        res.is_ok() && notice_with(m0, m1, s0, s1, fate)
    } else {
        res.is_ok() && m1 == m0 && s1 == s0
    }
}

/// A marooned pirate slashes at the player who stands next to them, and
/// shouts now and then; else, within twenty cells, makes for the player once
/// aware of them, without straying far from the camp, or notices the player.
fn pirate_action(m: &mut Monster, state: &mut GameState, ships: &ShipsTable) -> (res: Result<
    (),
    ExitReason,
>)
    requires
        can_strike(*old(m)),
    ensures
        same_creature(*old(m), *final(m)),
        world_kept(*old(state), *final(state)),
        final(state).npcs == old(state).npcs,
        turn_outcome(res),
        exists|fate: Fate| #[trigger]
            pirate_with(*old(m), *final(m), *old(state), *final(state), res, *ships, fate),
{
    let ghost m0 = *m;
    let ghost s0 = *state;
    let pronoun: &str = if m.gender == 0 {
        "their"
    } else if m.gender == 1 {
        "her"
    } else {
        "his"
    };
    if sqs_adj(m.row, m.col, state.player.row, state.player.col) {
        let mut hit = sentence("The ", &m.name, " slashes with ");
        hit.append(pronoun);
        hit.append(" cutlass!");
        let miss = sentence("The ", &m.name, " missed!");
        let r = strike(m, state, hit.as_str(), miss.as_str());
        let ghost f = choose|f: Fate| #[trigger]
            strike_with(m0, s0, *state, strike_end(r), hit@, miss@, f) && strike_hit(r) == lands(
                m0,
                s0,
                f,
            );
        let ghost mid = *state;
        let ghost mut fate = Fate { mid, happens: false, ..f };
        if r.is_ok() {
            let shouts: bool = chance(20);
            if shouts {
                let line = get_pirate_line();
                tell(state, line.as_str());
                proof {
                    let draw = choose|draw: u8|
                        draw < 100 && line@ == #[trigger] spec_pirate_line(draw);
                    fate = Fate { happens: true, line: draw, ..fate };
                }
            }
        }
        proof {
            assert(strike_with(m0, s0, fate.mid, strike_end(r), hit@, miss@, fate));
            assert(pirate_with(m0, *m, s0, *state, strike_end(r), *ships, fate));
        }
        return end_of(r);
    }
    let d: usize = cartesian_d(m.row, m.col, state.player.row, state.player.col);
    if d > 20 {
        proof {
            assert(pirate_with(m0, *m, s0, *state, Ok(()), *ships, no_fate(s0)));
        }
        return Ok(());
    }
    if m.aware_of_player {
        let passable = land_tiles(true, true);
        let step = advance(m, state, ships, &passable);
        let ghost path = choose|path: Seq<Coord>| #[trigger]
            route_answer(s0, *ships, passable@, own(m0), player_cell(s0), path) && step
                == spec_next_step(path, s0.npcs);
        let ghost mut fate = Fate { path, ..no_fate(s0) };
        let next: Coord = match step {
            Advance::To(c) => c,
            Advance::Blocked => {
                say_blocked(m, state);
                proof {
                    assert(pirate_with(m0, *m, s0, *state, Ok(()), *ships, fate));
                }
                return Ok(());
            },
            Advance::NoRoute => {
                let loc = find_adj_empty_sq(m.row, m.col, state, ships, &passable);
                proof {
                    fate = Fate { spot: loc, ..fate };
                }
                loc
            },
        };
        if cartesian_d(m.anchor.0, m.anchor.1, next.0, next.1) < 9 {
            m.row = next.0;
            m.col = next.1;
        }
        proof {
            assert(pirate_with(m0, *m, s0, *state, Ok(()), *ships, fate));
        }
    } else if d < 10 {
        stealth_check(state, m);
        proof {
            let g = choose|g: Fate| #[trigger] notice_with(m0, *m, s0, *state, g);
            assert(pirate_with(m0, *m, s0, *state, Ok(()), *ships, g));
        }
    } else {
        proof {
            assert(pirate_with(m0, *m, s0, *state, Ok(()), *ships, no_fate(s0)));
        }
    }
    Ok(())
}

/// The three moves that lead away from a player who stands at
/// `(player_row, player_col)`, for a creature at `(row, col)`.
pub open spec fn spec_fleeing_moves(
    row: usize,
    col: usize,
    player_row: usize,
    player_col: usize,
) -> Seq<(i32, i32)> {
    if row <= player_row && col <= player_col {
        seq![(-1i32, -1i32), (-1i32, 0i32), (0i32, -1i32)]
    } else if row <= player_row && col > player_col {
        seq![(-1i32, -1i32), (-1i32, 0i32), (0i32, 1i32)]
    } else if row > player_row && col <= player_col {
        seq![(1i32, -1i32), (1i32, 0i32), (0i32, -1i32)]
    } else {
        seq![(1i32, 1i32), (1i32, 0i32), (0i32, 1i32)]
    }
}

/// The three moves that lead away from a player who stands at
/// `(player_row, player_col)`, for a creature at `(row, col)`.
pub fn fleeing_moves(row: usize, col: usize, player_row: usize, player_col: usize) -> (res: Vec<
    (i32, i32),
>)
    ensures
        res@ == spec_fleeing_moves(row, col, player_row, player_col),
{
    let mut v: Vec<(i32, i32)> = Vec::new();
    if row <= player_row && col <= player_col {
        v.push((-1, -1));
        v.push((-1, 0));
        v.push((0, -1));
    } else if row <= player_row && col > player_col {
        v.push((-1, -1));
        v.push((-1, 0));
        v.push((0, 1));
    } else if row > player_row && col <= player_col {
        v.push((1, -1));
        v.push((1, 0));
        v.push((0, -1));
    } else {
        v.push((1, 1));
        v.push((1, 0));
        v.push((0, 1));
    }
    v
}

/// The cell to which the move `mv` takes the creature `m`, if it is within
/// the range of the coordinates.
pub open spec fn move_target(m: Monster, mv: (i32, i32)) -> Option<Coord> {
    if 0 <= m.row + mv.0 <= usize::MAX && 0 <= m.col + mv.1 <= usize::MAX {
        Some(((m.row + mv.0) as usize, (m.col + mv.1) as usize))
    } else {
        None
    }
}

/// Whether the move `mv` takes the creature `m` to a cell of the map with
/// terrain in `valid` on which no creature stands.
pub open spec fn open_move(state: GameState, m: Monster, valid: Seq<Tile>, mv: (i32, i32)) -> bool {
    match move_target(m, mv) {
        Some(c) => terrain_ok(state.map@, valid, c) && !state.npcs.loc_index@.contains_key(c),
        None => false,
    }
}

/// The cell to which the first open move among `options`, from position
/// `from` on, takes the creature; nothing where none of them is open.
pub open spec fn first_open(
    state: GameState,
    m: Monster,
    options: Seq<(i32, i32)>,
    valid: Seq<Tile>,
    from: int,
) -> Option<Coord>
    decreases options.len() - from,
{
    if from < 0 || from >= options.len() {
        None
    } else if open_move(state, m, valid, options[from]) {
        move_target(m, options[from])
    } else {
        first_open(state, m, options, valid, from + 1)
    }
}

/// The first of the moves `options`, in their order, that takes the
/// creature `m` to a cell of the map with terrain it can cross and without
/// another creature: the cell it takes the creature to, or nothing where
/// there is no such move.
pub fn first_open_move(
    state: &GameState,
    m: &Monster,
    options: &Vec<(i32, i32)>,
    passable: &Vec<Tile>,
) -> (res: Option<Coord>)
    ensures
        res == first_open(*state, *m, options@, passable@, 0),
        match res {
            Some(c) => terrain_ok(state.map@, passable@, c) && !state.npcs.loc_index@.contains_key(
                c,
            ),
            None => true,
        },
{
    let mut i: usize = 0;
    while i < options.len()
        invariant
            i <= options@.len(),
            first_open(*state, *m, options@, passable@, 0) == first_open(
                *state,
                *m,
                options@,
                passable@,
                i as int,
            ),
        decreases options@.len() - i,
    {
        let mv: (i32, i32) = options[i];
        match (offset(m.row, mv.0), offset(m.col, mv.1)) {
            (Some(r), Some(c)) => {
                if r < state.map.len() && c < state.map[r].len() {
                    if passable_by_me(&state.map[r][c], passable) && !state.npcs.is_npc_at(r, c) {
                        return Some((r, c));
                    }
                }
            },
            _ => {},
        }
        i += 1;
    }
    None
}

/// A move away from the player, picked by chance among those that are open:
/// the first open one of the three moves that lead away from the player, in
/// an order that chance decides.
fn pick_fleeing_move(state: &GameState, m: &Monster, passable: &Vec<Tile>) -> (res: Option<Coord>)
    ensures
        match res {
            Some(c) => terrain_ok(state.map@, passable@, c) && !state.npcs.loc_index@.contains_key(
                c,
            ),
            None => true,
        },
        exists|order: Seq<(i32, i32)>|
            order.to_multiset() == spec_fleeing_moves(
                m.row,
                m.col,
                state.player.row,
                state.player.col,
            ).to_multiset() && res == #[trigger] first_open(*state, *m, order, passable@, 0),
{
    let mut options = fleeing_moves(m.row, m.col, state.player.row, state.player.col);
    shuffle_moves(&mut options);
    let res = first_open_move(state, m, &options, passable);
    proof {
        assert(res == first_open(*state, *m, options@, passable@, 0));
    }
    res
}

/// How much the player's drunkenness helps against a song: a fifth of it, rounded.
pub fn drunken_bonus(drunkeness: u8) -> (res: i8)
    ensures
        res == (drunkeness + 2) / 5,
{
    ((drunkeness as u16 + 2) / 5) as i8
}

/// How much the player's drunkenness helps against a song, as a signed byte.
pub open spec fn song_bonus(p: Player) -> i8 {
    ((p.drunkeness + 2) / 5) as i8
}

/// The tiles that the merfolk swim in.
pub open spec fn water_tiles() -> Seq<Tile> {
    seq![Tile::DeepWater, Tile::Water]
}

/// Whether the creature drifted from where `m0` is to the neighbouring
/// cell of water `c`.
pub open spec fn drifted_to(m0: Monster, m1: Monster, state: GameState, c: Coord) -> bool {
    &&& adjacent(own(m0), c)
    &&& is_cell(state.map@, c)
    &&& (state.map@[c.0 as int][c.1 as int] is Water || state.map@[c.0 as int][c.1 as int] is DeepWater)
    &&& m1 == at(m0, c)
}

/// Whether this is how one of the merfolk took its turn. Within thirteen
/// cells of a player who is not charmed it sings, and charms the player who
/// fails a check of verve against 14, helped by their drunkenness. From a
/// charmed player within three cells it swims away, by the first open one
/// of the moves that lead away, in an order that chance decides. Farther
/// off, within twenty-five cells, it now and then drifts to a neighbouring
/// cell of water, or tries to and stays.
pub open spec fn merfolk_with(
    m0: Monster,
    m1: Monster,
    s0: GameState,
    s1: GameState,
    res: Result<(), ExitReason>,
    fate: Fate,
) -> bool {
    &&& res.is_ok()
    &&& if gap(m0, s0) < 13 {
        if !s0.player.charmed {
            &&& m1 == m0
            &&& 1 <= fate.check <= 20
            &&& if !check_passes(
                fate.check,
                spec_mod_for_stat(s0.player.verve) as i8,
                14,
                song_bonus(s0.player),
            ) {
                spoke(
                    s0,
                    s1,
                    seq![
                        "You hear beautiful singing."@,
                        about("You are charmed by the "@, m0.name@, "'s song!"@),
                    ],
                ) && s1.player == (Player { charmed: true, ..s0.player })
            } else {
                spoke(s0, s1, seq!["You hear beautiful singing."@]) && s1.player == s0.player
            }
        } else if gap(m0, s0) < 3 {
            &&& s1 == s0
            &&& fate.moves.to_multiset() == spec_fleeing_moves(
                m0.row,
                m0.col,
                s0.player.row,
                s0.player.col,
            ).to_multiset()
            &&& m1 == (match first_open(s0, m0, fate.moves, water_tiles(), 0) {
                Some(c) => at(m0, c),
                None => m0,
            })
        } else {
            m1 == m0 && s1 == s0
        }
    } else if gap(m0, s0) < 25 {
        s1 == s0 && (m1 == m0 || (fate.happens && drifted_to(m0, m1, s0, fate.spot)))
    } else {
        m1 == m0 && s1 == s0
    }
}

/// One of the merfolk sings to the player within thirteen cells until they
/// are charmed, then swims off when they come close; farther away it drifts
/// about the water now and then.
fn merfolk_action(m: &mut Monster, state: &mut GameState) -> (res: Result<(), ExitReason>)
    ensures
        same_creature(*old(m), *final(m)),
        world_kept(*old(state), *final(state)),
        final(state).npcs == old(state).npcs,
        turn_outcome(res),
        exists|fate: Fate| #[trigger]
            merfolk_with(*old(m), *final(m), *old(state), *final(state), res, fate),
{
    let ghost m0 = *m;
    let ghost s0 = *state;
    let ghost mut fate = no_fate(s0);
    let dis: usize = cartesian_d(m.row, m.col, state.player.row, state.player.col);
    if dis < 13 {
        if !state.player.charmed {
            tell(state, "You hear beautiful singing.");
            let ghost sung = *state;
            let verve_mod: i8 = Player::mod_for_stat(state.player.verve);
            let bonus: i8 = drunken_bonus(state.player.drunkeness);
            let passes: bool = do_ability_check(verve_mod, 14, bonus);
            proof {
                let check = choose|throw: u8|
                    1 <= throw <= 20 && passes == #[trigger] check_passes(
                        throw,
                        verve_mod,
                        14,
                        bonus,
                    );
                fate = Fate { check, ..fate };
            }
            if !passes {
                let s = sentence("You are charmed by the ", &m.name, "'s song!");
                tell(state, s.as_str());
                proof {
                    lemma_spoke_twice(s0, sung, *state, seq!["You hear beautiful singing."@], s@);
                    assert(seq!["You hear beautiful singing."@].push(s@) =~= seq![
                        "You hear beautiful singing."@,
                        s@,
                    ]);
                }
                state.player.charmed = true;
            }
        } else if dis < 3 {
            let mut water: Vec<Tile> = Vec::new();
            water.push(Tile::DeepWater);
            water.push(Tile::Water);
            proof {
                assert(water@ =~= water_tiles());
            }
            let picked = pick_fleeing_move(state, m, &water);
            proof {
                let order = choose|order: Seq<(i32, i32)>|
                    order.to_multiset() == spec_fleeing_moves(
                        m0.row,
                        m0.col,
                        s0.player.row,
                        s0.player.col,
                    ).to_multiset() && picked == #[trigger] first_open(s0, m0, order, water@, 0);
                fate = Fate { moves: order, ..fate };
            }
            match picked {
                Some(mv) => {
                    m.row = mv.0;
                    m.col = mv.1;
                },
                None => {},
            }
        }
    } else if dis < 25 {
        if chance(25) {
            let mut tries: u8 = 0;
            while tries < 6
                invariant_except_break
                    *m == m0,
                    fate == no_fate(s0),
                invariant
                    *state == s0,
                ensures
                    *m == m0 || (fate.happens && drifted_to(m0, *m, s0, fate.spot)),
                    *state == s0,
                decreases 6 - tries,
            {
                let mv = rnd_adj();
                match (offset(m.row, mv.0), offset(m.col, mv.1)) {
                    (Some(next_r), Some(next_c)) => {
                        if next_r < state.map.len() && next_c < state.map[next_r].len() {
                            if matches!(state.map[next_r][next_c], Tile::Water | Tile::DeepWater) {
                                m.row = next_r;
                                m.col = next_c;
                                proof {
                                    fate = Fate { happens: true, spot: (next_r, next_c), ..fate };
                                }
                                break ;
                            }
                        }
                    },
                    _ => {},
                }
                tries += 1;
            }
        }
    }
    proof {
        assert(merfolk_with(m0, *m, s0, *state, Ok(()), fate));
    }
    Ok(())
}

/// Whether this is how a shark took its turn. Next to the player it bites
/// at them. Within thirty cells it takes the next step of a route to them
/// through deep water, or swims to a neighbouring cell of deep water where
/// no route leads; one that is blocked stays and says so. Farther off it
/// does nothing.
pub open spec fn shark_with(
    m0: Monster,
    m1: Monster,
    s0: GameState,
    s1: GameState,
    res: Result<(), ExitReason>,
    ships: ShipsTable,
    fate: Fate,
) -> bool {
    if near_player(m0, s0) {
        m1 == m0 && strike_with(m0, s0, s1, res, "The shark bites you!"@, "The shark misses!"@, fate)
    } else if gap(m0, s0) < 30 {
        res.is_ok() && approach_with(m0, m1, s0, s1, ships, seq![Tile::DeepWater], true, fate)
    } else {
        res.is_ok() && m1 == m0 && s1 == s0
    }
}

/// A shark bites the player who stands next to it; within thirty cells it
/// swims for them through deep water, or about when no way leads to them.
fn shark_action(m: &mut Monster, state: &mut GameState, ships: &ShipsTable) -> (res: Result<
    (),
    ExitReason,
>)
    requires
        can_strike(*old(m)),
    ensures
        same_creature(*old(m), *final(m)),
        world_kept(*old(state), *final(state)),
        final(state).npcs == old(state).npcs,
        turn_outcome(res),
        exists|fate: Fate| #[trigger]
            shark_with(*old(m), *final(m), *old(state), *final(state), res, *ships, fate),
{
    let ghost m0 = *m;
    let ghost s0 = *state;
    if sqs_adj(m.row, m.col, state.player.row, state.player.col) {
        let r = strike(m, state, "The shark bites you!", "The shark misses!");
        proof {
            let f = choose|f: Fate| #[trigger]
                strike_with(
                    m0,
                    s0,
                    *state,
                    strike_end(r),
                    "The shark bites you!"@,
                    "The shark misses!"@,
                    f,
                ) && strike_hit(r) == lands(m0, s0, f);
            assert(shark_with(m0, *m, s0, *state, strike_end(r), *ships, f));
        }
        return end_of(r);
    }
    if cartesian_d(m.row, m.col, state.player.row, state.player.col) < 30 {
        let mut water: Vec<Tile> = Vec::new();
        water.push(Tile::DeepWater);
        proof {
            assert(water@ =~= seq![Tile::DeepWater]);
        }
        approach(m, state, ships, &water, true);
        proof {
            let f = choose|f: Fate| #[trigger]
                approach_with(m0, *m, s0, *state, *ships, water@, true, f);
            assert(shark_with(m0, *m, s0, *state, Ok(()), *ships, f));
        }
    } else {
        proof {
            assert(shark_with(m0, *m, s0, *state, Ok(()), *ships, no_fate(s0)));
        }
    }
    Ok(())
}

/// Whether this is how the creature took its turn, after its kind.
pub open spec fn turn_with(
    m0: Monster,
    m1: Monster,
    s0: GameState,
    s1: GameState,
    res: Result<(), ExitReason>,
    ships: ShipsTable,
    fate: Fate,
) -> bool {
    match m0.npc_type {
        NPCType::Shark => shark_with(m0, m1, s0, s1, res, ships, fate),
        NPCType::MaroonedPirate => pirate_with(m0, m1, s0, s1, res, ships, fate),
        NPCType::Merfolk => merfolk_with(m0, m1, s0, s1, res, fate),
        NPCType::Castaway => castaway_with(m0, m1, s0, s1, res, ships, fate),
        NPCType::Boar => beast_with(m0, m1, s0, s1, res, ships, "gores"@, fate),
        NPCType::Skeleton => undead_with(m0, m1, s0, s1, res, ships, fate),
        NPCType::UndeadCaptain => boss_with(m0, m1, s0, s1, res, ships, fate),
        NPCType::Snake => beast_with(m0, m1, s0, s1, res, ships, "bites"@, fate),
        NPCType::Panther => beast_with(m0, m1, s0, s1, res, ships, "bites"@, fate),
    }
}

impl Monster {
    /// The creature takes its turn, after its kind: what chance and the
    /// search for a route decide on the way is some `Fate`, and with it the
    /// turn goes as `turn_with` says for the kind. The creature may move,
    /// learn of the player, or raise a minion; the player may be told
    /// things and may lose stamina, be poisoned or charmed. The turn ends
    /// the game only by the player's death.
    pub fn act(&mut self, state: &mut GameState, ships: &ShipsTable) -> (res: Result<
        (),
        ExitReason,
    >)
        requires
            can_strike(*old(self)),
        ensures
            same_creature(*old(self), *final(self)),
            world_kept(*old(state), *final(state)),
            old(self).npc_type != NPCType::UndeadCaptain ==> final(state).npcs == old(state).npcs,
            turn_outcome(res),
            exists|fate: Fate| #[trigger]
                turn_with(*old(self), *final(self), *old(state), *final(state), res, *ships, fate),
    {
        let ghost m0 = *self;
        let ghost s0 = *state;
        match self.npc_type {
            NPCType::Shark => {
                let res = shark_action(self, state, ships);
                proof {
                    let f = choose|f: Fate| #[trigger]
                        shark_with(m0, *self, s0, *state, res, *ships, f);
                    assert(turn_with(m0, *self, s0, *state, res, *ships, f));
                }
                res
            },
            NPCType::MaroonedPirate => {
                let res = pirate_action(self, state, ships);
                proof {
                    let f = choose|f: Fate| #[trigger]
                        pirate_with(m0, *self, s0, *state, res, *ships, f);
                    assert(turn_with(m0, *self, s0, *state, res, *ships, f));
                }
                res
            },
            NPCType::Merfolk => {
                let res = merfolk_action(self, state);
                proof {
                    let f = choose|f: Fate| #[trigger] merfolk_with(m0, *self, s0, *state, res, f);
                    assert(turn_with(m0, *self, s0, *state, res, *ships, f));
                }
                res
            },
            NPCType::Castaway => {
                let res = castaway_action(self, state, ships);
                proof {
                    let f = choose|f: Fate| #[trigger]
                        castaway_with(m0, *self, s0, *state, res, *ships, f);
                    assert(turn_with(m0, *self, s0, *state, res, *ships, f));
                }
                res
            },
            NPCType::Boar => {
                let res = basic_monster_action(self, state, ships, "gores");
                proof {
                    let f = choose|f: Fate| #[trigger]
                        beast_with(m0, *self, s0, *state, res, *ships, "gores"@, f);
                    assert(turn_with(m0, *self, s0, *state, res, *ships, f));
                }
                res
            },
            NPCType::Skeleton => {
                let res = basic_undead_action(self, state, ships);
                proof {
                    let f = choose|f: Fate| #[trigger]
                        undead_with(m0, *self, s0, *state, res, *ships, f);
                    assert(turn_with(m0, *self, s0, *state, res, *ships, f));
                }
                res
            },
            NPCType::UndeadCaptain => {
                let res = undead_boss_action(self, state, ships);
                proof {
                    let f = choose|f: Fate| #[trigger]
                        boss_with(m0, *self, s0, *state, res, *ships, f);
                    assert(turn_with(m0, *self, s0, *state, res, *ships, f));
                }
                res
            },
            NPCType::Snake | NPCType::Panther => {
                let res = basic_monster_action(self, state, ships, "bites");
                proof {
                    let f = choose|f: Fate| #[trigger]
                        beast_with(m0, *self, s0, *state, res, *ships, "bites"@, f);
                    assert(turn_with(m0, *self, s0, *state, res, *ships, f));
                }
                res
            },
        }
    }
}

} // verus!
