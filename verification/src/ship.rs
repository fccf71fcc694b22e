//! Vessels: three cells on the map, laid out by a bearing.

use vstd::prelude::*;
use vstd::string::StringExecFns;
use crate::dice::{random_index, roll};
use crate::table::Table;
use crate::text::same_text;
use crate::util::{capitalize_word, spec_capitalize, Coord, NameSeeds};

verus! {

/// The glyphs of a vessel's deck, bow and aft, for straight and for
/// diagonal headings.
pub const DECK_STRAIGHT: char = '\u{25A0}';

pub const DECK_ANGLE: char = '\u{25C6}';

pub const BOW_NE: char = '\u{25E5}';

pub const BOW_SE: char = '\u{25E2}';

pub const BOW_SW: char = '\u{25E3}';

pub const BOW_NW: char = '\u{25E4}';

pub const BOW_W: char = '\u{25C0}';

pub const BOW_E: char = '\u{25B6}';

pub const BOW_N: char = '\u{25B2}';

pub const BOW_S: char = '\u{25BC}';

pub const AFT_STRAIGHT: char = '\u{25A0}';

pub const AFT_ANGLE: char = '\u{25C6}';

/// The vessels of a map, each under the cell of its deck.
pub type ShipsTable = Table<Coord, Ship>;

/// A vessel. Its deck is at `(row, col)`; bow and aft lie on either side of
/// it along the bearing, which counts sixteenths of a turn clockwise from north.
#[derive(Debug)]
pub struct Ship {
    pub name: String,
    pub row: usize,
    pub col: usize,
    pub bow_row: usize,
    pub bow_col: usize,
    pub aft_row: usize,
    pub aft_col: usize,
    pub bow_ch: char,
    pub aft_ch: char,
    pub deck_ch: char,
    pub wheel: i8,
    pub bearing: u8,
    pub anchored: bool,
    pub prev_move: (i8, i8),
}

/// How a vessel with a given bearing is drawn and laid out.
pub struct Layout {
    pub bow_ch: char,
    pub bow_dr: int,
    pub bow_dc: int,
    pub aft_ch: char,
    pub aft_dr: int,
    pub aft_dc: int,
    pub deck_ch: char,
}

/// The layout for each bearing: the four cardinal headings take three
/// sixteenths each, the diagonals one.
pub open spec fn layout_for(bearing: u8) -> Layout {
    if bearing == 0 || bearing == 1 || bearing == 15 {
        Layout { bow_ch: BOW_N, bow_dr: -1, bow_dc: 0, aft_ch: AFT_STRAIGHT, aft_dr: 1, aft_dc: 0, deck_ch: DECK_STRAIGHT }
    } else if bearing == 2 {
        Layout { bow_ch: BOW_NE, bow_dr: -1, bow_dc: 1, aft_ch: AFT_ANGLE, aft_dr: 1, aft_dc: -1, deck_ch: DECK_ANGLE }
    } else if bearing == 3 || bearing == 4 || bearing == 5 {
        Layout { bow_ch: BOW_E, bow_dr: 0, bow_dc: 1, aft_ch: AFT_STRAIGHT, aft_dr: 0, aft_dc: -1, deck_ch: DECK_STRAIGHT }
    } else if bearing == 6 {
        Layout { bow_ch: BOW_SE, bow_dr: 1, bow_dc: 1, aft_ch: AFT_ANGLE, aft_dr: -1, aft_dc: -1, deck_ch: DECK_ANGLE }
    } else if bearing == 7 || bearing == 8 || bearing == 9 {
        Layout { bow_ch: BOW_S, bow_dr: 1, bow_dc: 0, aft_ch: AFT_STRAIGHT, aft_dr: -1, aft_dc: 0, deck_ch: DECK_STRAIGHT }
    } else if bearing == 10 {
        Layout { bow_ch: BOW_SW, bow_dr: 1, bow_dc: -1, aft_ch: AFT_ANGLE, aft_dr: -1, aft_dc: 1, deck_ch: DECK_ANGLE }
    } else if bearing == 11 || bearing == 12 || bearing == 13 {
        Layout { bow_ch: BOW_W, bow_dr: 0, bow_dc: -1, aft_ch: AFT_STRAIGHT, aft_dr: 0, aft_dc: 1, deck_ch: DECK_STRAIGHT }
    } else {
        Layout { bow_ch: BOW_NW, bow_dr: -1, bow_dc: -1, aft_ch: AFT_ANGLE, aft_dr: 1, aft_dc: 1, deck_ch: DECK_ANGLE }
    }
}

/// A coordinate moved by one step or none; a step off either end of the
/// range of `usize` wraps round to the other.
pub open spec fn shifted(x: usize, d: int) -> usize {
    if d < 0 {
        if x == 0 { usize::MAX } else { (x - 1) as usize }
    } else if d > 0 {
        if x == usize::MAX { 0 } else { (x + 1) as usize }
    } else {
        x
    }
}

/// The vessel with bow and aft laid out around its deck as its bearing
/// says, and with the glyphs that go with the bearing.
pub open spec fn laid_out(ship: Ship) -> Ship {
    let layout = layout_for(ship.bearing);
    Ship {
        bow_ch: layout.bow_ch,
        bow_row: shifted(ship.row, layout.bow_dr),
        bow_col: shifted(ship.col, layout.bow_dc),
        aft_ch: layout.aft_ch,
        aft_row: shifted(ship.row, layout.aft_dr),
        aft_col: shifted(ship.col, layout.aft_dc),
        deck_ch: layout.deck_ch,
        ..ship
    }
}

/// A coordinate moved by one step or none, as `shifted` says.
fn shift(x: usize, d: i8) -> (res: usize)
    ensures
        res == shifted(x, d as int),
{
    if d < 0 {
        if x == 0 { usize::MAX } else { x - 1 }
    } else if d > 0 {
        if x == usize::MAX { 0 } else { x + 1 }
    } else {
        x
    }
}

impl Ship {
    /// A vessel at anchor at the origin, heading north, its cells not yet laid out.
    pub fn new(name: String) -> (res: Ship)
        ensures
            res == (Ship {
                name,
                row: 0,
                col: 0,
                bow_row: 0,
                bow_col: 0,
                aft_row: 0,
                aft_col: 0,
                bow_ch: '\0',
                aft_ch: '\0',
                deck_ch: '\0',
                wheel: 0,
                bearing: 0,
                anchored: true,
                prev_move: (0i8, 0i8),
            }),
    {
        Ship {
            name,
            row: 0,
            col: 0,
            bow_row: 0,
            bow_col: 0,
            aft_row: 0,
            aft_col: 0,
            bow_ch: '\0',
            aft_ch: '\0',
            deck_ch: '\0',
            wheel: 0,
            bearing: 0,
            anchored: true,
            prev_move: (0, 0),
        }
    }

    /// Lays bow and aft out around the deck as the bearing says, and picks
    /// the three glyphs. Nothing else changes.
    pub fn update_loc_info(&mut self)
        ensures
            *final(self) == laid_out(*old(self)),
    {
        let b: u8 = self.bearing;
        let boat_tiles: (char, i8, i8, char, i8, i8, char) = if b == 0 || b == 1 || b == 15 {
            (BOW_N, -1, 0, AFT_STRAIGHT, 1, 0, DECK_STRAIGHT)
        } else if b == 2 {
            (BOW_NE, -1, 1, AFT_ANGLE, 1, -1, DECK_ANGLE)
        } else if b == 4 || b == 5 || b == 3 {
            (BOW_E, 0, 1, AFT_STRAIGHT, 0, -1, DECK_STRAIGHT)
        } else if b == 6 {
            (BOW_SE, 1, 1, AFT_ANGLE, -1, -1, DECK_ANGLE)
        } else if b == 7 || b == 8 || b == 9 {
            (BOW_S, 1, 0, AFT_STRAIGHT, -1, 0, DECK_STRAIGHT)
        } else if b == 10 {
            (BOW_SW, 1, -1, AFT_ANGLE, -1, 1, DECK_ANGLE)
        } else if b == 11 || b == 12 || b == 13 {
            (BOW_W, 0, -1, AFT_STRAIGHT, 0, 1, DECK_STRAIGHT)
        } else {
            (BOW_NW, -1, -1, AFT_ANGLE, 1, 1, DECK_ANGLE)
        };
        self.bow_ch = boat_tiles.0;
        self.bow_row = shift(self.row, boat_tiles.1);
        self.bow_col = shift(self.col, boat_tiles.2);
        self.aft_ch = boat_tiles.3;
        self.aft_row = shift(self.row, boat_tiles.4);
        self.aft_col = shift(self.col, boat_tiles.5);
        self.deck_ch = boat_tiles.6;
    }
}

/// The name of a vessel made of the adjective `adj` and the noun `noun`,
/// both with a capital: with "Y.S." before it for a vessel of the navy, and
/// without the adjective where `with_adj` is off.
pub open spec fn spec_vessel_name(adj: Seq<char>, noun: Seq<char>, navy: bool, with_adj: bool) -> Seq<
    char,
> {
    (if navy { "Y.S. "@ } else { ""@ }) + (if with_adj {
        spec_capitalize(adj) + " "@
    } else {
        ""@
    }) + spec_capitalize(noun)
}

/// The name of a vessel made of the adjective `adj` and the noun `noun`.
pub fn compose_name(adj: &str, noun: &str, navy: bool, with_adj: bool) -> (name: String)
    ensures
        name@ == spec_vessel_name(adj@, noun@, navy, with_adj),
{
    let mut name = String::from_str("");
    proof {
        reveal_strlit("");
    }
    if navy {
        name.append("Y.S. ");
    }
    if with_adj {
        name.append(capitalize_word(adj).as_str());
        name.append(" ");
    }
    name.append(capitalize_word(noun).as_str());
    proof {
        assert(name@ =~= spec_vessel_name(adj@, noun@, navy, with_adj));
    }
    name
}

/// Whether an adjective and a noun must not go together.
pub open spec fn vetoed(adj: Seq<char>, noun: Seq<char>) -> bool {
    adj == "flirty"@ && noun == "child"@
}

/// How often another noun is drawn for an adjective that must not go with the one drawn.
pub const VETO_TRIES: usize = 64;

/// A name for a vessel from the words of `ns`, by chance: an adjective and a
/// noun; one vessel in seven may belong to the navy where `allow_ys` is on;
/// one name in ten does without the adjective.
pub fn random_name(ns: &NameSeeds, allow_ys: bool) -> (name: String)
    requires
        ns.adjectives@.len() > 0,
        ns.nouns@.len() > 0,
    ensures
        exists|a: int, n: int, navy: bool, with_adj: bool|
            0 <= a < ns.adjectives@.len() && 0 <= n < ns.nouns@.len() && (navy ==> allow_ys)
                && name@ == #[trigger] spec_vessel_name(
                ns.adjectives@[a]@,
                ns.nouns@[n]@,
                navy,
                with_adj,
            ),
{
    let navy: bool = allow_ys && roll(7, 1, 0) == 1;
    let a: usize = random_index(ns.adjectives.len());
    let mut n: usize = random_index(ns.nouns.len());
    let mut tries: usize = 0;
    while tries < VETO_TRIES && same_text(ns.adjectives[a].as_str(), "flirty") && same_text(
        ns.nouns[n].as_str(),
        "child",
    )
        invariant
            a < ns.adjectives@.len(),
            n < ns.nouns@.len(),
        decreases VETO_TRIES - tries,
    {
        n = random_index(ns.nouns.len());
        tries += 1;
    }
    let with_adj: bool = roll(10, 1, 0) < 10;
    let name = compose_name(ns.adjectives[a].as_str(), ns.nouns[n].as_str(), navy, with_adj);
    proof {
        assert(name@ == spec_vessel_name(
            ns.adjectives@[a as int]@,
            ns.nouns@[n as int]@,
            navy,
            with_adj,
        ));
    }
    name
}

} // verus!
