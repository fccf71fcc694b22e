//! The state of a game in progress, and what it says about who stands where.

use vstd::prelude::*;
use vstd::string::StrSliceExecFns;
use vstd::string::StringExecFns;
use std::collections::VecDeque;
use crate::actor::{Monster, NPCTracker, PirateType, Player};
use crate::dice::roll;
use crate::display::SidebarInfo;
use crate::map::Grid;
use crate::ship::{Ship, ShipsTable};
use crate::table::Table;
use crate::text::{
    ends_with, has_prefix, has_suffix, lower, lowercase_of, push_char, same_text, starts_with,
};
use crate::util::{cartesian_d, spec_cartesian_d, Coord};
use crate::weather::{CoordSet, Weather};

verus! {

/// Why a game ended.
#[derive(Debug)]
pub enum ExitReason {
    Save,
    Win,
    Quit,
    Death(String),
}

/// What the player can ask for.
#[derive(Debug)]
pub enum Cmd {
    Quit,
    Move(String),
    MsgHistory,
    PickUp,
    ShowInventory,
    DropItem,
    ShowCharacterSheet,
    ToggleEquipment,
    Pass,
    TurnWheelClockwise,
    TurnWheelAnticlockwise,
    ToggleAnchor,
    ToggleHelm,
    Quaff,
    FireGun,
    Reload,
    WorldMap,
    Search,
    Read,
    Eat,
    Save,
    EnterPortal,
    Chat,
    Use,
    Help,
}

/// A game in progress: the player, the map the player is on with its
/// creatures and weather, and what has been said and seen so far.
#[derive(Debug)]
pub struct GameState {
    pub player: Player,
    pub msg_buff: VecDeque<String>,
    pub msg_history: VecDeque<(String, u32)>,
    pub map: Grid,
    pub npcs: NPCTracker,
    pub map_id: u8,
    pub turn: u32,
    pub world_seen: CoordSet,
    pub pirate_lord: String,
    pub pirate_lord_ship: String,
    pub player_ship: String,
    pub starter_clue: u8,
    pub notes: Table<u8, String>,
    pub note_count: u8,
    pub springs_drunk: CoordSet,
    pub vision_radius: u8,
    pub weather: Weather,
}

/// Whether the vessel filed under `key` covers `cell`: with its deck, which
/// is `key` itself, or with its bow or aft where they touch the deck.
pub open spec fn ship_covers(key: Coord, ship: Ship, cell: Coord) -> bool {
    spec_cartesian_d(cell.0, cell.1, key.0, key.1) < 2 && (cell == key || cell == (
        ship.bow_row,
        ship.bow_col,
    ) || cell == (ship.aft_row, ship.aft_col))
}

/// A cell is open when neither the player, nor a creature, nor any part of
/// one of the vessels `ships` is on it.
pub open spec fn open_among(state: GameState, ships: Map<Coord, Ship>, cell: Coord) -> bool {
    &&& !(state.player.row == cell.0 && state.player.col == cell.1)
    &&& !state.npcs.loc_index@.contains_key(cell)
    &&& forall|k: Coord| #[trigger] ships.contains_key(k) ==> !ship_covers(k, ships[k], cell)
}

/// A cell is open when neither the player, nor a creature, nor any part of a
/// vessel is on it.
pub open spec fn spec_sq_is_open(state: GameState, ships: ShipsTable, cell: Coord) -> bool {
    open_among(state, ships@, cell)
}

/// Whether `(row, col)` is free of the player, of creatures and of vessels.
pub fn sq_is_open(state: &GameState, ships: &ShipsTable, row: usize, col: usize) -> (res: bool)
    ensures
        res == spec_sq_is_open(*state, *ships, (row, col)),
{
    if state.player.row == row && state.player.col == col {
        return false;
    }
    if state.npcs.is_npc_at(row, col) {
        return false;
    }
    let n: usize = ships.len();
    let mut i: usize = 0;
    while i < n
        invariant
            i <= n,
            n == ships.keys().len(),
            forall|j: int|
                0 <= j < i ==> !ship_covers(
                    #[trigger] ships.keys()[j],
                    ships@[ships.keys()[j]],
                    (row, col),
                ),
        decreases n - i,
    {
        let sl: Coord = ships.key_at(i);
        let ship = ships.value_at(i);
        if cartesian_d(row, col, sl.0, sl.1) < 2 {
            if row == sl.0 && col == sl.1 {
                return false;
            }
            if row == ship.bow_row && col == ship.bow_col {
                return false;
            }
            if row == ship.aft_row && col == ship.aft_col {
                return false;
            }
        }
        i += 1;
    }
    proof {
        ships.lemma_keys_index();
    }
    true
}

/// How many messages the history keeps.
pub const MSG_HISTORY_LENGTH: usize = 50;

/// The step that goes with a compass point; what is no other point counts as south-east.
pub open spec fn spec_move_tuple(mv: Seq<char>) -> (i32, i32) {
    if mv == "N"@ {
        (-1i32, 0i32)
    } else if mv == "S"@ {
        (1i32, 0i32)
    } else if mv == "W"@ {
        (0i32, -1i32)
    } else if mv == "E"@ {
        (0i32, 1i32)
    } else if mv == "NW"@ {
        (-1i32, -1i32)
    } else if mv == "NE"@ {
        (-1i32, 1i32)
    } else if mv == "SW"@ {
        (1i32, -1i32)
    } else {
        (1i32, 1i32)
    }
}

/// The step that goes with the compass point `mv`.
pub fn get_move_tuple(mv: &str) -> (res: (i32, i32))
    ensures
        res == spec_move_tuple(mv@),
{
    if same_text(mv, "N") {
        (-1, 0)
    } else if same_text(mv, "S") {
        (1, 0)
    } else if same_text(mv, "W") {
        (0, -1)
    } else if same_text(mv, "E") {
        (0, 1)
    } else if same_text(mv, "NW") {
        (-1, -1)
    } else if same_text(mv, "NE") {
        (-1, 1)
    } else if same_text(mv, "SW") {
        (1, -1)
    } else {
        (1, 1)
    }
}

/// Whether the throw `throw` of a twenty-sided die, with a modifier and a
/// bonus, meets the difficulty.
pub open spec fn check_passes(throw: u8, ability_mod: i8, difficulty: u8, bonus: i8) -> bool {
    throw + ability_mod + bonus >= difficulty
}

/// Whether the throw `throw`, with `ability_mod` and `bonus` added, meets `difficulty`.
pub fn ability_check_passes(throw: u8, ability_mod: i8, difficulty: u8, bonus: i8) -> (res: bool)
    ensures
        res == check_passes(throw, ability_mod, difficulty, bonus),
{
    throw as i32 + ability_mod as i32 + bonus as i32 >= difficulty as i32
}

/// Throws a twenty-sided die for a check of an ability against `difficulty`.
pub fn do_ability_check(ability_mod: i8, difficulty: u8, bonus: i8) -> (res: bool)
    ensures
        exists|throw: u8|
            1 <= throw <= 20 && res == #[trigger] check_passes(throw, ability_mod, difficulty, bonus),
{
    let throw: u8 = roll(20, 1, 0);
    ability_check_passes(throw, ability_mod, difficulty, bonus)
}

/// Whether the creature `npc` hits the player: a check of its bonus to hit
/// against the player's armour class.
pub fn attack_player(state: &GameState, npc: &Monster) -> (res: bool)
    ensures
        exists|throw: u8|
            1 <= throw <= 20 && res == #[trigger] check_passes(
                throw,
                npc.hit_bonus,
                state.player.ac,
                0,
            ),
{
    do_ability_check(npc.hit_bonus, state.player.ac, 0)
}

/// Takes `dmg` off the player's stamina. Damage beyond what is left kills:
/// the player stays as they are, and the answer names the source.
pub fn player_takes_dmg(player: &mut Player, dmg: u8, source: &str) -> (res: Result<(), ExitReason>)
    ensures
        old(player).curr_stamina < dmg ==> *final(player) == *old(player) && (match res {
            Err(ExitReason::Death(s)) => s@ == source@,
            _ => false,
        }),
        old(player).curr_stamina >= dmg ==> res.is_ok() && *final(player) == (Player {
            curr_stamina: (old(player).curr_stamina - dmg) as u8,
            ..*old(player)
        }),
{
    if player.curr_stamina < dmg {
        Err(ExitReason::Death(String::from_str(source)))
    } else {
        player.curr_stamina = player.curr_stamina - dmg;
        Ok(())
    }
}

/// The glyph of a bullet that flies in the direction `dir`.
pub fn calc_bullet_ch(dir: (i32, i32)) -> (res: char)
    ensures
        res == if dir.0 == 0 && (dir.1 == -1 || dir.1 == 1) {
            '-'
        } else if dir.1 == 0 && (dir.0 == 1 || dir.0 == -1) {
            '|'
        } else if (dir.0 == -1 && dir.1 == -1) || (dir.0 == 1 && dir.1 == 1) {
            '\\'
        } else {
            '/'
        },
{
    if dir.0 == 0 && (dir.1 == -1 || dir.1 == 1) {
        return '-';
    }
    if dir.1 == 0 && (dir.0 == 1 || dir.0 == -1) {
        return '|';
    }
    if (dir.0 == -1 && dir.1 == -1) || (dir.0 == 1 && dir.1 == 1) {
        return '\\';
    }
    '/'
}

/// The position of the first blank in `s` from position `from` on, or the length of `s`.
pub open spec fn first_blank(s: Seq<char>, from: int) -> int
    decreases s.len() - from,
{
    if from < 0 || from >= s.len() {
        s.len() as int
    } else if s[from] == ' ' {
        from
    } else {
        first_blank(s, from + 1)
    }
}

/// The plural of a name: its first word gets an "s", or "es" after "s" or
/// "x", and for a name of one word after "ch" too.
pub open spec fn spec_pluralize(name: Seq<char>) -> Seq<char> {
    let cut = first_blank(name, 0);
    let head = name.subrange(0, cut);
    let tail = name.subrange(cut, name.len() as int);
    let hisses = has_suffix(head, "s"@) || has_suffix(head, "x"@) || (cut == name.len()
        && has_suffix(head, "ch"@));
    head + (if hisses { "es"@ } else { "s"@ }) + tail
}

/// The plural of `name`.
pub fn pluralize(name: &str) -> (res: String)
    ensures
        res@ == spec_pluralize(name@),
{
    let n: usize = name.unicode_len();
    let mut cut: usize = 0;
    while cut < n && name.get_char(cut) != ' '
        invariant
            cut <= n,
            n == name@.len(),
            first_blank(name@, 0) == first_blank(name@, cut as int),
        decreases n - cut,
    {
        cut += 1;
    }
    let head: &str = name.substring_char(0, cut);
    let tail: &str = name.substring_char(cut, n);
    let hisses: bool = ends_with(head, "s") || ends_with(head, "x") || (cut == n && ends_with(
        head,
        "ch",
    ));
    let mut result = String::from_str(head);
    if hisses {
        result.append("es");
    } else {
        result.append("s");
    }
    result.append(tail);
    result
}

/// Whether a lower-case name begins like a captain's.
pub open spec fn spec_claims_rank(lowered: Seq<char>) -> bool {
    has_prefix(lowered, "capt"@) || has_prefix(lowered, "capn"@) || has_prefix(lowered, "cap'n"@)
}

/// Whether the lower-case name `lowered` begins like a captain's.
pub fn claims_rank(lowered: &str) -> (res: bool)
    ensures
        res == spec_claims_rank(lowered@),
{
    starts_with(lowered, "capt") || starts_with(lowered, "capn") || starts_with(lowered, "cap'n")
}

/// Whether the player's name claims the rank of captain, in whatever case.
pub fn is_putting_on_airs(name: &str) -> (res: bool)
    ensures
        res == spec_claims_rank(lowercase_of(name@)),
{
    let lowered = lower(name);
    claims_rank(lowered.as_str())
}

/// Whether a character may stand in the name of a file.
pub open spec fn plain_char(c: char) -> bool {
    ('a' <= c <= 'z') || ('A' <= c <= 'Z') || ('0' <= c <= '9')
}

/// The name of the file that holds the saved game of a player: the
/// player's name with everything but letters and digits made an underscore,
/// and ".yaml" behind.
pub open spec fn spec_save_filename(player_name: Seq<char>) -> Seq<char> {
    Seq::new(
        player_name.len(),
        |i: int| if plain_char(player_name[i]) { player_name[i] } else { '_' },
    ) + ".yaml"@
}

/// The name of the file that holds the saved game of the player `player_name`.
pub fn gen_save_filename(player_name: &str) -> (res: String)
    ensures
        res@ == spec_save_filename(player_name@),
{
    let n: usize = player_name.unicode_len();
    let mut s = String::new();
    let mut i: usize = 0;
    while i < n
        invariant
            i <= n,
            n == player_name@.len(),
            s@ == Seq::new(
                i as nat,
                |j: int| if plain_char(player_name@[j]) { player_name@[j] } else { '_' },
            ),
        decreases n - i,
    {
        let ch: char = player_name.get_char(i);
        let keep: bool = ('a' <= ch && ch <= 'z') || ('A' <= ch && ch <= 'Z') || ('0' <= ch && ch
            <= '9');
        push_char(&mut s, if keep { ch } else { '_' });
        proof {
            assert(s@ =~= Seq::new(
                (i + 1) as nat,
                |j: int| if plain_char(player_name@[j]) { player_name@[j] } else { '_' },
            ));
        }
        i += 1;
    }
    s.append(".yaml");
    s
}

/// The hour of the day at turn `turn`: a game starts at noon, and an hour
/// takes a hundred turns.
pub open spec fn hour_at(turn: u32) -> int {
    (turn / 100 + 12) % 24
}

/// How far the player sees by the light of the sky at a given hour: all of
/// the viewport by day, which is 99; less and less at dusk; least in the
/// dead of night; more again before dawn.
pub open spec fn sky_radius(hour: int) -> u8 {
    if 6 <= hour <= 19 {
        99
    } else if 20 <= hour <= 21 {
        9
    } else if 21 <= hour <= 23 {
        7
    } else if hour < 4 {
        5
    } else if 4 <= hour < 5 {
        7
    } else {
        9
    }
}

/// How far the player sees: by the light of the sky, and two further with a light.
pub open spec fn spec_vision_radius(turn: u32, light: bool) -> u8 {
    if light {
        (sky_radius(hour_at(turn)) + 2) as u8
    } else {
        sky_radius(hour_at(turn))
    }
}

/// The history after `msg` is noted: a message that repeats the latest one
/// is counted with it, any other goes to the front; nothing is noted of an
/// empty message.
pub open spec fn history_noted(before: Seq<(String, u32)>, after: Seq<(String, u32)>, msg: Seq<char>) -> bool {
    if msg.len() == 0 {
        after == before
    } else if before.len() > 0 && before[0].0@ == msg {
        after.len() == before.len() && after[0].0@ == msg && after[0].1 == (if before[0].1
            < u32::MAX {
            (before[0].1 + 1) as u32
        } else {
            u32::MAX
        }) && forall|i: int| 1 <= i < before.len() ==> after[i] == before[i]
    } else {
        let kept = if before.len() + 1 > MSG_HISTORY_LENGTH {
            (before.len() - 1) as int
        } else {
            before.len() as int
        };
        after.len() == kept + 1 && after[0].0@ == msg && after[0].1 == 1 && forall|i: int|
            0 <= i < kept ==> after[i + 1] == before[i]
    }
}

/// The buffer after `msg` is written to it.
pub open spec fn buffer_written(before: Seq<String>, after: Seq<String>, msg: Seq<char>) -> bool {
    after.len() == before.len() + 1 && after.last()@ == msg && forall|i: int|
        0 <= i < before.len() ==> after[i] == before[i]
}

impl GameState {
    /// Writes `msg` to the buffer of messages waiting to be shown, and
    /// notes it in the history.
    pub fn write_msg_buff(&mut self, msg: &str)
        ensures
            buffer_written(old(self).msg_buff@, final(self).msg_buff@, msg@),
            history_noted(old(self).msg_history@, final(self).msg_history@, msg@),
            *final(self) == (GameState {
                msg_buff: final(self).msg_buff,
                msg_history: final(self).msg_history,
                ..*old(self)
            }),
    {
        self.msg_buff.push_back(String::from_str(msg));
        if msg.unicode_len() > 0 {
            let repeated: bool = self.msg_history.len() > 0 && same_text(
                self.msg_history[0].0.as_str(),
                msg,
            );
            if !repeated {
                self.msg_history.push_front((String::from_str(msg), 1));
                if self.msg_history.len() > MSG_HISTORY_LENGTH {
                    self.msg_history.pop_back();
                }
            } else {
                let latest = self.msg_history.pop_front().unwrap();
                let count: u32 = if latest.1 < u32::MAX { latest.1 + 1 } else { u32::MAX };
                self.msg_history.push_front((latest.0, count));
            }
        }
    }

    /// Sets how far the player sees from the hour of the day and from
    /// whether the player carries a light, and tells the player of dusk and of dawn.
    pub fn calc_vision_radius(&mut self)
        ensures
            final(self).vision_radius == spec_vision_radius(
                old(self).turn,
                old(self).player.inventory.has_light(),
            ),
            final(self).player == old(self).player,
            final(self).map == old(self).map,
            final(self).npcs == old(self).npcs,
            final(self).turn == old(self).turn,
            final(self).weather == old(self).weather,
            final(self).world_seen == old(self).world_seen,
            old(self).vision_radius == 99 && sky_radius(hour_at(old(self).turn)) == 9
                ==> buffer_written(
                old(self).msg_buff@,
                final(self).msg_buff@,
                "The sun is beginning to set."@,
            ),
            old(self).vision_radius == 5 && sky_radius(hour_at(old(self).turn)) == 7
                ==> buffer_written(old(self).msg_buff@, final(self).msg_buff@, "Sunrise soon."@),
            !(old(self).vision_radius == 99 && sky_radius(hour_at(old(self).turn)) == 9) && !(old(self).vision_radius == 5 && sky_radius(hour_at(old(self).turn)) == 7)
                ==> final(self).msg_buff == old(self).msg_buff && final(self).msg_history == old(self).msg_history,
    {
        let prev_vr: u8 = self.vision_radius;
        let curr_time: u32 = (self.turn / 100 + 12) % 24;
        self.vision_radius = if curr_time >= 6 && curr_time <= 19 {
            99
        } else if curr_time >= 20 && curr_time <= 21 {
            9
        } else if curr_time >= 21 && curr_time <= 23 {
            7
        } else if curr_time < 4 {
            5
        } else if curr_time >= 4 && curr_time < 5 {
            7
        } else {
            9
        };
        if prev_vr == 99 && self.vision_radius == 9 {
            self.write_msg_buff("The sun is beginning to set.");
        }
        if prev_vr == 5 && self.vision_radius == 7 {
            self.write_msg_buff("Sunrise soon.");
        }
        if self.player.inventory.active_light_source() {
            self.vision_radius += 2;
        }
    }

    /// The figures for the sidebar: wheel and bearing only aboard a vessel, else -1.
    pub fn curr_sidebar_info(&self) -> (res: SidebarInfo)
        ensures
            res.name == self.player.name,
            res.ac == self.player.ac,
            res.curr_hp == self.player.curr_stamina,
            res.max_hp == self.player.max_stamina,
            res.wheel == if self.player.on_ship { self.player.wheel } else { -1i8 },
            res.bearing == if self.player.on_ship { self.player.bearing as i8 } else { -1i8 },
            res.turn == self.turn,
            res.charmed == self.player.charmed,
            res.poisoned == self.player.poisoned,
            res.drunkeness == self.player.drunkeness,
    {
        let bearing: i8 = if self.player.on_ship { self.player.bearing as i8 } else { -1 };
        let wheel: i8 = if self.player.on_ship { self.player.wheel } else { -1 };
        SidebarInfo::new(
            self.player.name.clone(),
            self.player.ac,
            self.player.curr_stamina,
            self.player.max_stamina,
            wheel,
            bearing,
            self.turn,
            self.player.charmed,
            self.player.poisoned,
            self.player.drunkeness,
        )
    }

    /// A new game for a player of the given name and calling: an empty map
    /// without creatures or weather, turn nought, and sight as at night.
    pub fn new_pirate(name: String, p_type: PirateType) -> (res: GameState)
        ensures
            res.player.name == name,
            res.player.p_type == p_type,
            res.player.row == 0 && res.player.col == 0,
            res.map@.len() == 0,
            res.npcs.npc_id == 0,
            res.npcs.npc_list@ == Map::<usize, Monster>::empty(),
            res.npcs.loc_index@ == Map::<Coord, usize>::empty(),
            res.map_id == 0,
            res.turn == 0,
            res.vision_radius == 3,
            res.msg_buff@.len() == 0,
            res.msg_history@.len() == 0,
            res.world_seen@ == Map::<Coord, ()>::empty(),
            res.weather.clouds@ == Map::<Coord, ()>::empty(),
            res.note_count == 0,
            res.starter_clue == 0,
    {
        let player = match p_type {
            PirateType::Swab => Player::new_swab(name),
            PirateType::Seadog => Player::new_seadog(name),
        };
        GameState {
            player,
            msg_buff: VecDeque::new(),
            msg_history: VecDeque::new(),
            map: Vec::new(),
            npcs: NPCTracker::new(),
            map_id: 0,
            turn: 0,
            world_seen: Table::new(),
            pirate_lord: String::from_str(""),
            pirate_lord_ship: String::from_str(""),
            player_ship: String::from_str(""),
            starter_clue: 0,
            notes: Table::new(),
            note_count: 0,
            springs_drunk: Table::new(),
            vision_radius: 3,
            weather: Weather::new(),
        }
    }
}

} // verus!
