//! Things that lie on the ground or are carried.

use vstd::prelude::*;
use vstd::string::StrSliceExecFns;
use vstd::string::StringExecFns;
use std::collections::{HashSet, VecDeque};
use crate::dice::random_between;
use crate::display::{
    BEIGE, BLUE, BRIGHT_RED, BROWN, GOLD, GREY, WHITE, YELLOW, YELLOW_ORANGE,
};
use crate::map::Rgb;
use crate::table::Table;
use crate::text::{push_char, push_u8, same_text};
use crate::util::Coord;

verus! {

/// Anything that can be drawn in one cell: its colour and its glyph.
pub trait TileInfo {
    fn get_tile_info(&self) -> (Rgb, char);
}

/// What kind of thing an item is.
#[derive(Debug, Copy, Clone, PartialEq, Eq, Structural)]
pub enum ItemType {
    Weapon,
    Coat,
    Hat,
    Shoes,
    Drink,
    Firearm,
    Bullet,
    Coin,
    TreasureMap,
    Food,
    EyePatch,
    Note,
    MacGuffin,
    Light,
    Fuel,
    Fetish,
}

/// One item. Two items are equal, for `==`, when they have the same name.
#[derive(Debug)]
pub struct Item {
    pub name: String,
    pub item_type: ItemType,
    pub weight: u8,
    pub symbol: char,
    pub color: Rgb,
    pub stackable: bool,
    pub prev_slot: char,
    pub dmg: u8,
    pub dmg_dice: u8,
    pub bonus: u8,
    pub range: u8,
    pub armour_value: i8,
    pub equiped: bool,
    pub loaded: bool,
    pub hidden: bool,
    pub nw_corner: Coord,
    pub x_coord: Coord,
    pub of_map_id: u8,
    pub activated: bool,
    pub fuel: u16,
    pub stat_bonus: (u8, i8),
}

impl Clone for Item {
    fn clone(&self) -> (res: Self)
        ensures
            res == *self,
    {
        Item {
            name: self.name.clone(),
            item_type: self.item_type,
            weight: self.weight,
            symbol: self.symbol,
            color: self.color,
            stackable: self.stackable,
            prev_slot: self.prev_slot,
            dmg: self.dmg,
            dmg_dice: self.dmg_dice,
            bonus: self.bonus,
            range: self.range,
            armour_value: self.armour_value,
            equiped: self.equiped,
            loaded: self.loaded,
            hidden: self.hidden,
            nw_corner: self.nw_corner,
            x_coord: self.x_coord,
            of_map_id: self.of_map_id,
            activated: self.activated,
            fuel: self.fuel,
            stat_bonus: self.stat_bonus,
        }
    }
}

/// Whether a letter counts as a vowel when an article is chosen.
pub open spec fn is_vowel(c: char) -> bool {
    c == 'a' || c == 'e' || c == 'i' || c == 'o' || c == 'u' || c == 'y'
}

/// Whether a kind of item can be worn or wielded.
pub open spec fn spec_equipable(t: ItemType) -> bool {
    t == ItemType::Weapon || t == ItemType::Coat || t == ItemType::Hat || t == ItemType::Firearm
        || t == ItemType::EyePatch || t == ItemType::Fetish
}

/// What is added to the name of an item that is in use.
pub open spec fn use_suffix(item: Item) -> Seq<char> {
    let worn = if !item.equiped {
        Seq::<char>::empty()
    } else if item.item_type == ItemType::Weapon || item.item_type == ItemType::Firearm {
        " (in hand)"@
    } else if item.item_type == ItemType::Coat || item.item_type == ItemType::Hat || item.item_type
        == ItemType::EyePatch {
        " (being worn)"@
    } else if item.item_type == ItemType::Fetish {
        " (active)"@
    } else {
        Seq::<char>::empty()
    };
    let lit = if item.item_type == ItemType::Light && item.activated {
        " (lit)"@
    } else {
        Seq::<char>::empty()
    };
    worn + lit
}

/// An item as `Item::new` makes it.
pub open spec fn plain_item(
    name: Seq<char>,
    item_type: ItemType,
    w: u8,
    stackable: bool,
    sym: char,
    color: Rgb,
    item: Item,
) -> bool {
    &&& item.name@ == name
    &&& item.item_type == item_type
    &&& item.weight == w
    &&& item.symbol == sym
    &&& item.color == color
    &&& item.stackable == stackable
    &&& item.prev_slot == '\0'
    &&& item.dmg == 1
    &&& item.dmg_dice == 1
    &&& item.bonus == 0
    &&& item.range == 0
    &&& item.armour_value == 0
    &&& !item.equiped
    &&& !item.loaded
    &&& !item.hidden
    &&& item.nw_corner == (0usize, 0usize)
    &&& item.x_coord == (0usize, 0usize)
    &&& item.of_map_id == 0
    &&& !item.activated
    &&& item.fuel == 0
    &&& item.stat_bonus == (0u8, 0i8)
}

impl Item {
    /// A new item of the given name, kind, weight, glyph and colour: it does
    /// one die of one point of damage, and everything else about it is zero or off.
    pub fn new(
        name: &str,
        item_type: ItemType,
        w: u8,
        stackable: bool,
        sym: char,
        color: Rgb,
    ) -> (res: Item)
        ensures
            plain_item(name@, item_type, w, stackable, sym, color, res),
    {
        Item {
            name: String::from_str(name),
            item_type,
            weight: w,
            symbol: sym,
            color,
            stackable,
            prev_slot: '\0',
            dmg: 1,
            dmg_dice: 1,
            bonus: 0,
            range: 0,
            armour_value: 0,
            equiped: false,
            loaded: false,
            hidden: false,
            nw_corner: (0, 0),
            x_coord: (0, 0),
            of_map_id: 0,
            activated: false,
            fuel: 0,
            stat_bonus: (0, 0),
        }
    }

    /// Whether two items have the same name, which is what makes them stack.
    pub open spec fn same_name(self, other: Item) -> bool {
        self.name@ == other.name@
    }

    /// Decides `same_name`.
    pub fn has_same_name(&self, other: &Item) -> (res: bool)
        ensures
            res == self.same_name(*other),
    {
        self.name == other.name
    }

    /// "an" before a vowel, "a" otherwise; the one great treasure takes no article.
    pub fn get_indefinite_article(&self) -> (res: String)
        ensures
            res@ == if self.item_type == ItemType::MacGuffin {
                ""@
            } else if self.name@.len() > 0 && is_vowel(self.name@[0]) {
                "an"@
            } else {
                "a"@
            },
    {
        if self.item_type == ItemType::MacGuffin {
            return String::from_str("");
        }
        let name: &str = self.name.as_str();
        if name.unicode_len() > 0 {
            let first: char = name.get_char(0);
            if first == 'a' || first == 'e' || first == 'i' || first == 'o' || first == 'u'
                || first == 'y' {
                return String::from_str("an");
            }
        }
        String::from_str("a")
    }

    /// "the"; the one great treasure takes no article.
    pub fn get_definite_article(&self) -> (res: String)
        ensures
            res@ == if self.item_type == ItemType::MacGuffin {
                ""@
            } else {
                "the"@
            },
    {
        if self.item_type == ItemType::MacGuffin {
            String::from_str("")
        } else {
            String::from_str("the")
        }
    }

    /// Whether the item can be worn or wielded.
    pub fn equipable(&self) -> (res: bool)
        ensures
            res == spec_equipable(self.item_type),
    {
        match self.item_type {
            ItemType::Weapon | ItemType::Coat | ItemType::Hat | ItemType::Firearm
            | ItemType::EyePatch | ItemType::Fetish => true,
            _ => false,
        }
    }

    /// A treasure map of map `of_map_id`, whose drawn part starts at
    /// `nw_corner` and whose cross is at `x_coord`.
    pub fn get_map(nw_corner: Coord, x_coord: Coord, of_map_id: u8) -> (res: Item)
        ensures
            plain_item(
                "treasure map"@,
                ItemType::TreasureMap,
                0,
                false,
                '?',
                WHITE,
                (Item { nw_corner: (0, 0), x_coord: (0, 0), of_map_id: 0, ..res }),
            ),
            res.nw_corner == nw_corner,
            res.x_coord == x_coord,
            res.of_map_id == of_map_id,
    {
        let mut map = Item::new("treasure map", ItemType::TreasureMap, 0, false, '?', WHITE);
        map.nw_corner = nw_corner;
        map.x_coord = x_coord;
        map.of_map_id = of_map_id;
        map
    }

    /// The chest of the pirate lord, hidden until it is dug up.
    pub fn get_macguffin(pirate_lord: &str) -> (res: Item)
        ensures
            plain_item(
                pirate_lord@ + "'s chest"@,
                ItemType::MacGuffin,
                0,
                false,
                '=',
                GOLD,
                (Item { hidden: false, ..res }),
            ),
            res.hidden,
    {
        let s = String::from_str(pirate_lord).concat("'s chest");
        let mut mg = Item::new(s.as_str(), ItemType::MacGuffin, 0, false, '=', GOLD);
        mg.hidden = true;
        mg
    }

    /// A scrap of paper that carries note number `note_num`.
    pub fn get_note(note_num: u8) -> (res: Item)
        ensures
            plain_item(
                "scrap of paper"@,
                ItemType::Note,
                0,
                false,
                '?',
                WHITE,
                (Item { bonus: 0, ..res }),
            ),
            res.bonus == note_num,
    {
        let mut note = Item::new("scrap of paper", ItemType::Note, 0, false, '?', WHITE);
        note.bonus = note_num;
        note
    }

    /// A new item of the name `name` from the catalogue, or nothing where
    /// the catalogue does not have the name. Chance decides how much fuel a
    /// light has, and the name and the favoured ability of a fetish.
    pub fn get_item(name: &str) -> (res: Option<Item>)
        ensures
            exists|draws: Draws|
                fuel_range(name@).0 <= draws.fuel < fuel_range(name@).1 && draws.fetish < 7
                    && draws.stat < 4 && #[trigger] is_made(res, name@, draws),
    {
        let fuel: u16 = if same_text(name, "lantern") {
            random_between(100, 300)
        } else if same_text(name, "torch") {
            random_between(25, 100)
        } else {
            0
        };
        let (fetish, stat): (u8, u8) = if same_text(name, "fetish") {
            (random_between(0, 7) as u8, random_between(0, 4) as u8)
        } else {
            (0, 0)
        };
        let draws = Draws { fuel, fetish, stat };
        let res = make_item(name, draws);
        proof {
            assert(is_made(res, name@, draws));
        }
        res
    }

    /// What is written on a scrap of paper about the vessel `ship_name`: one
    /// of four sentences, chosen by chance.
    pub fn get_note_text(ship_name: &str) -> (res: String)
        ensures
            exists|r: u8| r < 4 && res@ == #[trigger] spec_note_text(r, ship_name@),
    {
        let r: u8 = random_between(0, 4) as u8;
        note_text_for(r, ship_name)
    }

    /// The name, followed by how the item is in use, if it is.
    pub fn get_full_name(&self) -> (res: String)
        ensures
            res@ == self.name@ + use_suffix(*self),
    {
        let mut s = self.name.clone();
        if self.equiped {
            match self.item_type {
                ItemType::Weapon | ItemType::Firearm => s.append(" (in hand)"),
                ItemType::Coat | ItemType::Hat | ItemType::EyePatch => s.append(" (being worn)"),
                ItemType::Fetish => s.append(" (active)"),
                _ => {},
            }
        }
        if self.item_type == ItemType::Light && self.activated {
            s.append(" (lit)");
        }
        proof {
            assert(s@ =~= self.name@ + use_suffix(*self));
        }
        s
    }
}

impl PartialEq for Item {
    fn eq(&self, other: &Self) -> (res: bool) {
        self.name == other.name
    }
}

impl vstd::std_specs::cmp::PartialEqSpecImpl for Item {
    open spec fn obeys_eq_spec() -> bool {
        true
    }

    open spec fn eq_spec(&self, other: &Self) -> bool {
        self.name@ == other.name@
    }
}

impl TileInfo for Item {
    fn get_tile_info(&self) -> (res: (Rgb, char))
        ensures
            res == (self.color, self.symbol),
    {
        (self.color, self.symbol)
    }
}

/// The numbers that chance decides when an item is made.
#[derive(Debug, Copy, Clone)]
pub struct Draws {
    /// The fuel of a light.
    pub fuel: u16,
    /// Which name a fetish gets.
    pub fetish: u8,
    /// Which ability a fetish favours.
    pub stat: u8,
}

/// Everything about a kind of item.
pub struct Kind {
    pub name: Seq<char>,
    pub item_type: ItemType,
    pub weight: u8,
    pub stackable: bool,
    pub symbol: char,
    pub color: Rgb,
    pub dmg: u8,
    pub dmg_dice: u8,
    pub bonus: u8,
    pub range: u8,
    pub armour_value: i8,
    pub loaded: bool,
    pub fuel: u16,
    pub stat_bonus: (u8, i8),
}

/// The name of the fetish that goes with the throw `roll`.
pub open spec fn spec_fetish_name(roll: u8) -> Seq<char> {
    if roll == 0 {
        "ugly fetish"@
    } else if roll == 1 {
        "smelly fetish"@
    } else if roll == 2 {
        "cloth fetish"@
    } else if roll == 3 {
        "bone fetish"@
    } else if roll == 4 {
        "seashell fetish"@
    } else if roll == 5 {
        "ivory fetish"@
    } else if roll == 6 {
        "wood fetish"@
    } else {
        "scrimshaw fetish"@
    }
}

/// The kind of item that the catalogue has under `name`, if any, with what
/// chance decides filled in from `draws`.
pub open spec fn catalogue(name: Seq<char>, draws: Draws) -> Option<Kind> {
    if name == "draught of rum"@ {
        Some(
            Kind {
                name: name,
                item_type: ItemType::Drink,
                weight: 1,
                stackable: true,
                symbol: '!',
                color: BROWN,
                dmg: 1,
                dmg_dice: 1,
                bonus: 15,
                range: 0,
                armour_value: 0,
                loaded: false,
                fuel: 0,
                stat_bonus: (0u8, 0i8),
            },
        )
    } else if name == "rusty cutlass"@ {
        Some(
            Kind {
                name: name,
                item_type: ItemType::Weapon,
                weight: 3,
                stackable: false,
                symbol: '|',
                color: WHITE,
                dmg: 5,
                dmg_dice: 1,
                bonus: 0,
                range: 0,
                armour_value: 0,
                loaded: false,
                fuel: 0,
                stat_bonus: (0u8, 0i8),
            },
        )
    } else if name == "battered tricorn"@ {
        Some(
            Kind {
                name: name,
                item_type: ItemType::Hat,
                weight: 1,
                stackable: false,
                symbol: '[',
                color: BROWN,
                dmg: 1,
                dmg_dice: 1,
                bonus: 0,
                range: 0,
                armour_value: 1,
                loaded: false,
                fuel: 0,
                stat_bonus: (0u8, 0i8),
            },
        )
    } else if name == "leather jerkin"@ {
        Some(
            Kind {
                name: name,
                item_type: ItemType::Coat,
                weight: 2,
                stackable: false,
                symbol: '[',
                color: BROWN,
                dmg: 1,
                dmg_dice: 1,
                bonus: 0,
                range: 0,
                armour_value: 1,
                loaded: false,
                fuel: 0,
                stat_bonus: (0u8, 0i8),
            },
        )
    } else if name == "overcoat"@ {
        Some(
            Kind {
                name: name,
                item_type: ItemType::Coat,
                weight: 3,
                stackable: false,
                symbol: '[',
                color: BLUE,
                dmg: 1,
                dmg_dice: 1,
                bonus: 0,
                range: 0,
                armour_value: 2,
                loaded: false,
                fuel: 0,
                stat_bonus: (0u8, 0i8),
            },
        )
    } else if name == "stout boots"@ {
        Some(
            Kind {
                name: name,
                item_type: ItemType::Shoes,
                weight: 2,
                stackable: false,
                symbol: '[',
                color: BROWN,
                dmg: 1,
                dmg_dice: 1,
                bonus: 0,
                range: 0,
                armour_value: 2,
                loaded: false,
                fuel: 0,
                stat_bonus: (0u8, 0i8),
            },
        )
    } else if name == "magic eye patch"@ {
        Some(
            Kind {
                name: name,
                item_type: ItemType::EyePatch,
                weight: 0,
                stackable: false,
                symbol: '[',
                color: BRIGHT_RED,
                dmg: 1,
                dmg_dice: 1,
                bonus: 0,
                range: 0,
                armour_value: 0,
                loaded: false,
                fuel: 0,
                stat_bonus: (0u8, 0i8),
            },
        )
    } else if name == "flintlock pistol"@ {
        Some(
            Kind {
                name: name,
                item_type: ItemType::Firearm,
                weight: 2,
                stackable: false,
                symbol: '-',
                color: GREY,
                dmg: 6,
                dmg_dice: 2,
                bonus: 0,
                range: 6,
                armour_value: 0,
                loaded: true,
                fuel: 0,
                stat_bonus: (0u8, 0i8),
            },
        )
    } else if name == "corroded flintlock"@ {
        Some(
            Kind {
                name: name,
                item_type: ItemType::Firearm,
                weight: 2,
                stackable: false,
                symbol: '-',
                color: GREY,
                dmg: 5,
                dmg_dice: 2,
                bonus: 0,
                range: 6,
                armour_value: 0,
                loaded: false,
                fuel: 0,
                stat_bonus: (0u8, 0i8),
            },
        )
    } else if name == "lead ball"@ {
        Some(
            Kind {
                name: name,
                item_type: ItemType::Bullet,
                weight: 1,
                stackable: true,
                symbol: '*',
                color: GREY,
                dmg: 1,
                dmg_dice: 1,
                bonus: 0,
                range: 0,
                armour_value: 0,
                loaded: false,
                fuel: 0,
                stat_bonus: (0u8, 0i8),
            },
        )
    } else if name == "doubloon"@ {
        Some(
            Kind {
                name: name,
                item_type: ItemType::Coin,
                weight: 1,
                stackable: true,
                symbol: '$',
                color: GOLD,
                dmg: 1,
                dmg_dice: 1,
                bonus: 0,
                range: 0,
                armour_value: 0,
                loaded: false,
                fuel: 0,
                stat_bonus: (0u8, 0i8),
            },
        )
    } else if name == "coconut"@ {
        Some(
            Kind {
                name: name,
                item_type: ItemType::Food,
                weight: 1,
                stackable: true,
                symbol: '%',
                color: BEIGE,
                dmg: 1,
                dmg_dice: 1,
                bonus: 7,
                range: 0,
                armour_value: 0,
                loaded: false,
                fuel: 0,
                stat_bonus: (0u8, 0i8),
            },
        )
    } else if name == "banana"@ {
        Some(
            Kind {
                name: name,
                item_type: ItemType::Food,
                weight: 1,
                stackable: true,
                symbol: '(',
                color: YELLOW,
                dmg: 1,
                dmg_dice: 1,
                bonus: 5,
                range: 0,
                armour_value: 0,
                loaded: false,
                fuel: 0,
                stat_bonus: (0u8, 0i8),
            },
        )
    } else if name == "salted pork"@ {
        Some(
            Kind {
                name: name,
                item_type: ItemType::Food,
                weight: 1,
                stackable: true,
                symbol: '%',
                color: BROWN,
                dmg: 1,
                dmg_dice: 1,
                bonus: 3,
                range: 0,
                armour_value: 0,
                loaded: false,
                fuel: 0,
                stat_bonus: (0u8, 0i8),
            },
        )
    } else if name == "lantern"@ {
        Some(
            Kind {
                name: name,
                item_type: ItemType::Light,
                weight: 1,
                stackable: false,
                symbol: '(',
                color: YELLOW,
                dmg: 1,
                dmg_dice: 1,
                bonus: 0,
                range: 0,
                armour_value: 0,
                loaded: false,
                fuel: draws.fuel,
                stat_bonus: (0u8, 0i8),
            },
        )
    } else if name == "torch"@ {
        Some(
            Kind {
                name: name,
                item_type: ItemType::Light,
                weight: 1,
                stackable: true,
                symbol: '(',
                color: BROWN,
                dmg: 1,
                dmg_dice: 1,
                bonus: 0,
                range: 0,
                armour_value: 0,
                loaded: false,
                fuel: draws.fuel,
                stat_bonus: (0u8, 0i8),
            },
        )
    } else if name == "flask of oil"@ {
        Some(
            Kind {
                name: name,
                item_type: ItemType::Fuel,
                weight: 1,
                stackable: true,
                symbol: '!',
                color: YELLOW,
                dmg: 1,
                dmg_dice: 1,
                bonus: 0,
                range: 0,
                armour_value: 0,
                loaded: false,
                fuel: 0,
                stat_bonus: (0u8, 0i8),
            },
        )
    } else if name == "fetish"@ {
        Some(
            Kind {
                name: spec_fetish_name(draws.fetish),
                item_type: ItemType::Fetish,
                weight: 1,
                stackable: false,
                symbol: ';',
                color: YELLOW_ORANGE,
                dmg: 1,
                dmg_dice: 1,
                bonus: 0,
                range: 0,
                armour_value: 0,
                loaded: false,
                fuel: 0,
                stat_bonus: (draws.stat, 2i8),
            },
        )
    } else {
        None
    }
}

/// Whether `item` is a new item of the kind `kind`.
pub open spec fn is_of_kind(item: Item, kind: Kind) -> bool {
    &&& item.name@ == kind.name
    &&& item.item_type == kind.item_type
    &&& item.weight == kind.weight
    &&& item.symbol == kind.symbol
    &&& item.color == kind.color
    &&& item.stackable == kind.stackable
    &&& item.prev_slot == '\0'
    &&& item.dmg == kind.dmg
    &&& item.dmg_dice == kind.dmg_dice
    &&& item.bonus == kind.bonus
    &&& item.range == kind.range
    &&& item.armour_value == kind.armour_value
    &&& !item.equiped
    &&& item.loaded == kind.loaded
    &&& !item.hidden
    &&& item.nw_corner == (0usize, 0usize)
    &&& item.x_coord == (0usize, 0usize)
    &&& item.of_map_id == 0
    &&& !item.activated
    &&& item.fuel == kind.fuel
    &&& item.stat_bonus == kind.stat_bonus
}

/// Whether `res` is what the catalogue gives for `name` with the draws `draws`.
pub open spec fn is_made(res: Option<Item>, name: Seq<char>, draws: Draws) -> bool {
    match catalogue(name, draws) {
        Some(kind) => match res {
            Some(item) => is_of_kind(item, kind),
            None => false,
        },
        None => res.is_none(),
    }
}

/// The range in which the fuel of a new light of the name `name` lies.
pub open spec fn fuel_range(name: Seq<char>) -> (int, int) {
    if name == "lantern"@ {
        (100, 300)
    } else if name == "torch"@ {
        (25, 100)
    } else {
        (0, 1)
    }
}

/// The name of the fetish that goes with the throw `roll`.
pub fn fetish_name_for(roll: u8) -> (res: String)
    ensures
        res@ == spec_fetish_name(roll),
{
    if roll == 0 {
        String::from_str("ugly fetish")
    } else if roll == 1 {
        String::from_str("smelly fetish")
    } else if roll == 2 {
        String::from_str("cloth fetish")
    } else if roll == 3 {
        String::from_str("bone fetish")
    } else if roll == 4 {
        String::from_str("seashell fetish")
    } else if roll == 5 {
        String::from_str("ivory fetish")
    } else if roll == 6 {
        String::from_str("wood fetish")
    } else {
        String::from_str("scrimshaw fetish")
    }
}

/// The item that the catalogue has under `name`, with what chance decides
/// taken from `draws`.
pub fn make_item(name: &str, draws: Draws) -> (res: Option<Item>)
    ensures
        is_made(res, name@, draws),
{
    if same_text(name, "draught of rum") {
        let mut i = Item::new(name, ItemType::Drink, 1, true, '!', BROWN);
        i.bonus = 15;
        Some(i)
    } else if same_text(name, "rusty cutlass") {
        let mut i = Item::new(name, ItemType::Weapon, 3, false, '|', WHITE);
        i.dmg = 5;
        Some(i)
    } else if same_text(name, "battered tricorn") {
        let mut i = Item::new(name, ItemType::Hat, 1, false, '[', BROWN);
        i.armour_value = 1;
        Some(i)
    } else if same_text(name, "leather jerkin") {
        let mut i = Item::new(name, ItemType::Coat, 2, false, '[', BROWN);
        i.armour_value = 1;
        Some(i)
    } else if same_text(name, "overcoat") {
        let mut i = Item::new(name, ItemType::Coat, 3, false, '[', BLUE);
        i.armour_value = 2;
        Some(i)
    } else if same_text(name, "stout boots") {
        let mut i = Item::new(name, ItemType::Shoes, 2, false, '[', BROWN);
        i.armour_value = 2;
        Some(i)
    } else if same_text(name, "magic eye patch") {
        let mut i = Item::new(name, ItemType::EyePatch, 0, false, '[', BRIGHT_RED);

        Some(i)
    } else if same_text(name, "flintlock pistol") {
        let mut i = Item::new(name, ItemType::Firearm, 2, false, '-', GREY);
        i.loaded = true;
        i.dmg = 6;
        i.dmg_dice = 2;
        i.range = 6;
        Some(i)
    } else if same_text(name, "corroded flintlock") {
        let mut i = Item::new(name, ItemType::Firearm, 2, false, '-', GREY);
        i.dmg = 5;
        i.dmg_dice = 2;
        i.range = 6;
        Some(i)
    } else if same_text(name, "lead ball") {
        let mut i = Item::new(name, ItemType::Bullet, 1, true, '*', GREY);

        Some(i)
    } else if same_text(name, "doubloon") {
        let mut i = Item::new(name, ItemType::Coin, 1, true, '$', GOLD);

        Some(i)
    } else if same_text(name, "coconut") {
        let mut i = Item::new(name, ItemType::Food, 1, true, '%', BEIGE);
        i.bonus = 7;
        Some(i)
    } else if same_text(name, "banana") {
        let mut i = Item::new(name, ItemType::Food, 1, true, '(', YELLOW);
        i.bonus = 5;
        Some(i)
    } else if same_text(name, "salted pork") {
        let mut i = Item::new(name, ItemType::Food, 1, true, '%', BROWN);
        i.bonus = 3;
        Some(i)
    } else if same_text(name, "lantern") {
        let mut i = Item::new(name, ItemType::Light, 1, false, '(', YELLOW);
        i.fuel = draws.fuel;
        Some(i)
    } else if same_text(name, "torch") {
        let mut i = Item::new(name, ItemType::Light, 1, true, '(', BROWN);
        i.fuel = draws.fuel;
        Some(i)
    } else if same_text(name, "flask of oil") {
        let mut i = Item::new(name, ItemType::Fuel, 1, true, '!', YELLOW);

        Some(i)
    } else if same_text(name, "fetish") {
        let label = fetish_name_for(draws.fetish);
        let mut f = Item::new(label.as_str(), ItemType::Fetish, 1, false, ';', YELLOW_ORANGE);
        f.stat_bonus = (draws.stat, 2);
        Some(f)
    } else {
        None
    }
}

/// The sentence that goes with the throw `r` on a scrap of paper about the vessel `ship_name`.
pub open spec fn spec_note_text(r: u8, ship_name: Seq<char>) -> Seq<char> {
    if r == 0 {
        "A ship's manifest from the "@ + ship_name + "."@
    } else if r == 1 {
        "A love letter addressed to the bosun of the "@ + ship_name + "."@
    } else if r == 2 {
        "'Wanted for piracy, the crew of the "@ + ship_name + "."@ + "'"@
    } else {
        "An invoice for 10 barrels of beer for the "@ + ship_name + "."@
    }
}

/// The sentence that goes with the throw `r` on a scrap of paper about the vessel `ship_name`.
pub fn note_text_for(r: u8, ship_name: &str) -> (res: String)
    ensures
        res@ == spec_note_text(r, ship_name@),
{
    let mut s = if r == 0 {
        String::from_str("A ship's manifest from the ")
    } else if r == 1 {
        String::from_str("A love letter addressed to the bosun of the ")
    } else if r == 2 {
        String::from_str("'Wanted for piracy, the crew of the ")
    } else {
        String::from_str("An invoice for 10 barrels of beer for the ")
    };
    s.append(ship_name);
    s.append(".");
    if r == 2 {
        s.append("'");
    }
    s
}

/// One slot of an inventory: the item and how many of it are stacked there.
pub type Stack = (Item, u8);

/// What the player carries, in slots lettered from 'a' to 'z'.
#[derive(Debug)]
pub struct Inventory {
    pub next_slot: char,
    pub inv: Table<char, Stack>,
}

/// An inventory as contracts see it: the filled slots in the order in which
/// they were first filled, what each holds, and the slot that is filled next.
pub struct Bag {
    pub keys: Seq<char>,
    pub inv: Map<char, Stack>,
    pub next_slot: char,
}

/// The bag with `st` in `slot`: a slot that was empty goes to the end of the order.
pub open spec fn bag_put(b: Bag, slot: char, st: Stack) -> Bag {
    Bag {
        keys: if b.inv.contains_key(slot) { b.keys } else { b.keys.push(slot) },
        inv: b.inv.insert(slot, st),
        next_slot: b.next_slot,
    }
}

/// The bag with `slot` emptied.
pub open spec fn bag_drop(b: Bag, slot: char) -> Bag {
    Bag { keys: b.keys.filter(|k: char| k != slot), inv: b.inv.remove(slot), next_slot: b.next_slot }
}

/// The slot after `c`: the next letter, and 'a' again after 'z'.
pub open spec fn succ_slot(c: char) -> char {
    if c as u32 >= 'z' as u32 { 'a' } else { ((c as u32) + 1) as char }
}

/// The first empty slot after `slot`, going round from 'z' to 'a', among at
/// most `fuel` slots; `'\0'` if none of them is empty or the search comes
/// back to `start` and finds it filled.
pub open spec fn probe(inv: Map<char, Stack>, start: char, slot: char, fuel: nat) -> char
    decreases fuel,
{
    if fuel == 0 {
        '\0'
    } else {
        let s = succ_slot(slot);
        if !inv.contains_key(s) {
            s
        } else if s == start {
            '\0'
        } else {
            probe(inv, start, s, (fuel - 1) as nat)
        }
    }
}

/// How many slots a search for an empty slot looks at, at most.
pub const PROBE_LIMIT: usize = 256;

/// The bag after the whole stack in `slot` is taken out: where there was no
/// slot to fill next, this one is.
pub open spec fn bag_after_remove(b: Bag, slot: char) -> Bag {
    Bag { next_slot: if b.next_slot == '\0' { slot } else { b.next_slot }, ..bag_drop(b, slot) }
}

/// The bag after `count` items are taken from the stack in `slot`, or the
/// whole stack if it has no more than that.
pub open spec fn bag_after_remove_count(b: Bag, slot: char, count: u8) -> Bag {
    let st = b.inv[slot];
    if count < st.1 {
        bag_put(b, slot, (st.0, (st.1 - count) as u8))
    } else {
        bag_after_remove(b, slot)
    }
}

/// The items that leave the bag when `count` of them are taken from `slot`:
/// copies of the item there that remember the slot they came from.
pub open spec fn removed_items(b: Bag, slot: char, count: u8) -> Seq<Item> {
    let st = b.inv[slot];
    Seq::new(
        (if count < st.1 { count } else { st.1 }) as nat,
        |i: int| Item { prev_slot: slot, ..st.0 },
    )
}

/// The stack that takes `item` in: the first, in the order of the slots,
/// that holds a stackable item of the same name, if `item` is stackable.
pub open spec fn stack_for(b: Bag, item: Item) -> Option<char> {
    if item.stackable {
        first_slot(b.keys, b.inv, |st: Stack| st.0.name@ == item.name@ && st.0.stackable, 0)
    } else {
        None
    }
}

/// One more, up to what a byte holds.
pub open spec fn one_more(n: u8) -> u8 {
    if n < 255 { (n + 1) as u8 } else { 255u8 }
}

/// The bag after `item` is put in: on the stack that takes it in; else in
/// the slot it came from, if that is empty; else in the slot to fill next,
/// after which the next empty slot is looked for.
pub open spec fn bag_after_add(b: Bag, item: Item) -> Bag {
    match stack_for(b, item) {
        Some(s) => bag_put(b, s, (b.inv[s].0, one_more(b.inv[s].1))),
        None => if item.prev_slot != '\0' && !b.inv.contains_key(item.prev_slot) {
            bag_put(b, item.prev_slot, (item, 1u8))
        } else {
            let p = bag_put(b, b.next_slot, (item, 1u8));
            Bag { next_slot: probe(p.inv, b.next_slot, b.next_slot, PROBE_LIMIT as nat), ..p }
        },
    }
}

/// The last of the first `n` slots whose stack meets `pred`.
pub open spec fn last_slot(
    keys: Seq<char>,
    inv: Map<char, Stack>,
    pred: spec_fn(Stack) -> bool,
    n: int,
) -> Option<char>
    decreases n,
{
    if n <= 0 || n > keys.len() {
        None
    } else if pred(inv[keys[n - 1]]) {
        Some(keys[n - 1])
    } else {
        last_slot(keys, inv, pred, n - 1)
    }
}

/// The slot of the firearm in hand: the last in the order of the slots, if
/// there are several.
pub open spec fn gun_slot(b: Bag) -> Option<char> {
    last_slot(
        b.keys,
        b.inv,
        |st: Stack| st.0.equiped && st.0.item_type == ItemType::Firearm,
        b.keys.len() as int,
    )
}

/// The bag after the firearm in hand is fired or loaded. A firearm in the
/// slot `'\0'` does not count as in hand.
pub open spec fn bag_after_toggle_loaded(b: Bag) -> Bag {
    match gun_slot(b) {
        Some(s) => if s != '\0' {
            bag_put(b, s, (Item { loaded: !b.inv[s].0.loaded, ..b.inv[s].0 }, b.inv[s].1))
        } else {
            b
        },
        None => b,
    }
}

/// The line of the inventory's menu for one slot.
pub open spec fn menu_line(slot: char, st: Stack) -> Seq<char> {
    if st.1 == 1 {
        seq![slot] + ") "@ + "a "@ + st.0.name@ + use_suffix(st.0)
    } else {
        seq![slot] + ") "@ + st.0.name@ + use_suffix(st.0) + " x"@ + crate::text::decimal(
            st.1 as nat,
        )
    }
}

/// Whether `s` holds the numbers of `t` in ascending order.
pub open spec fn sorted_chars(s: Seq<char>) -> bool {
    forall|i: int, j: int| 0 <= i < j < s.len() ==> (s[i] as u32) <= (s[j] as u32)
}

/// What to say when an item of the kind `t` cannot be put on because
/// another of its kind is in use.
pub open spec fn already_message(t: ItemType) -> Seq<char> {
    if t == ItemType::Weapon {
        "You are already holding a weapon."@
    } else if t == ItemType::Firearm {
        "You are already holding a gun."@
    } else if t == ItemType::Hat {
        "You are already wearing a hat."@
    } else if t == ItemType::Coat {
        "You are already wearing a coat."@
    } else if t == ItemType::EyePatch {
        "You are already wearing an eye patch."@
    } else if t == ItemType::Fetish {
        "Ye can benefit from just one fetish at a time."@
    } else {
        "You cannot equip or use that!"@
    }
}

/// Whether some stack of the bag holds an equipped item of the kind `t`.
pub open spec fn kind_in_use(b: Bag, t: ItemType) -> bool {
    exists|slot: char| #[trigger]
        b.inv.contains_key(slot) && b.inv[slot].0.equiped && b.inv[slot].0.item_type == t
}

/// Whether the item in `slot` can be switched: it is there, it is a thing to
/// wear, wield or light, nothing of its kind is in the way, and a light has fuel.
pub open spec fn can_toggle(b: Bag, slot: char) -> bool {
    &&& b.inv.contains_key(slot)
    &&& (spec_equipable(b.inv[slot].0.item_type) || b.inv[slot].0.item_type == ItemType::Light)
    &&& (b.inv[slot].0.equiped || !kind_in_use(b, b.inv[slot].0.item_type))
    &&& (b.inv[slot].0.item_type == ItemType::Light ==> b.inv[slot].0.fuel != 0)
}

/// Whether switching the item in `slot` lights one torch from a stack of several.
pub open spec fn lights_torch_from_stack(b: Bag, slot: char) -> bool {
    can_toggle(b, slot) && b.inv[slot].0.item_type == ItemType::Light && b.inv[slot].0.name@
        == "torch"@ && b.inv[slot].1 > 1
}

/// The item in `slot` after it is switched: a light lit or put out,
/// anything else put on or off.
pub open spec fn toggled_item(item: Item) -> Item {
    if item.item_type == ItemType::Light {
        Item { activated: !item.activated, ..item }
    } else {
        Item { equiped: !item.equiped, ..item }
    }
}

/// What the player is told after asking to switch the item in `slot`.
pub open spec fn toggle_message(b: Bag, slot: char) -> Seq<char> {
    if !b.inv.contains_key(slot) {
        "You do not have that item!"@
    } else {
        let item = b.inv[slot].0;
        if !spec_equipable(item.item_type) && item.item_type != ItemType::Light {
            "You cannot equip or use that!"@
        } else if !item.equiped && kind_in_use(b, item.item_type) {
            already_message(item.item_type)
        } else if item.item_type == ItemType::Light && item.fuel == 0 {
            "Your "@ + item.name@ + " is out of fuel."@
        } else if lights_torch_from_stack(b, slot) {
            "You light the torch."@
        } else if item.item_type == ItemType::Light {
            if item.activated {
                "You extinguish the "@ + item.name@ + "."@
            } else {
                "You ignite the "@ + item.name@ + "."@
            }
        } else if item.equiped {
            "You unequip the "@ + item.name@ + "."@
        } else {
            "You equip the "@ + item.name@ + "."@
        }
    }
}

/// The bag after the player asked to switch the item in `slot`.
pub open spec fn bag_after_toggle(b: Bag, slot: char) -> Bag {
    if !can_toggle(b, slot) {
        b
    } else if lights_torch_from_stack(b, slot) {
        bag_after_add(
            bag_after_remove_count(b, slot, 1),
            Item { activated: true, stackable: false, prev_slot: slot, ..b.inv[slot].0 },
        )
    } else {
        bag_put(b, slot, (toggled_item(b.inv[slot].0), b.inv[slot].1))
    }
}

/// An item after one turn: a light that burns has one unit of fuel less, and
/// goes out when none is left.
pub open spec fn burn(item: Item) -> Item {
    if item.activated && item.fuel > 0 {
        Item { fuel: (item.fuel - 1) as u16, activated: item.fuel != 1, ..item }
    } else {
        item
    }
}

/// Whether an item burns its last unit of fuel this turn.
pub open spec fn drains(item: Item) -> bool {
    item.activated && item.fuel == 1
}

/// What the first `n` slots hold after one turn of burning.
pub open spec fn burned_upto(b: Bag, n: int) -> Map<char, Stack>
    decreases n,
{
    if n <= 0 {
        b.inv
    } else {
        let k = b.keys[n - 1];
        burned_upto(b, n - 1).insert(k, (burn(b.inv[k].0), b.inv[k].1))
    }
}

/// The items among the first `n` slots that burn out this turn, as they are afterwards.
pub open spec fn drained_upto(b: Bag, n: int) -> Seq<Item>
    decreases n,
{
    if n <= 0 {
        Seq::empty()
    } else {
        let k = b.keys[n - 1];
        if drains(b.inv[k].0) {
            drained_upto(b, n - 1).push(burn(b.inv[k].0))
        } else {
            drained_upto(b, n - 1)
        }
    }
}

/// The slots among the first `n` whose torch burns out this turn.
pub open spec fn spent_torches_upto(b: Bag, n: int) -> Seq<char>
    decreases n,
{
    if n <= 0 {
        Seq::empty()
    } else {
        let k = b.keys[n - 1];
        if drains(b.inv[k].0) && b.inv[k].0.name@ == "torch"@ {
            spent_torches_upto(b, n - 1).push(k)
        } else {
            spent_torches_upto(b, n - 1)
        }
    }
}

/// The bag after one item is taken from each of the first `n` of the slots
/// `ks`, as far as they are filled.
pub open spec fn spend(b: Bag, ks: Seq<char>, n: int) -> Bag
    decreases n,
{
    if n <= 0 {
        b
    } else {
        let prev = spend(b, ks, n - 1);
        if prev.inv.contains_key(ks[n - 1]) {
            bag_after_remove_count(prev, ks[n - 1], 1)
        } else {
            prev
        }
    }
}

/// The bag after one turn: every light that burns has burnt, and each torch
/// that burnt out is thrown away.
pub open spec fn bag_after_turn(b: Bag) -> Bag {
    let n = b.keys.len() as int;
    let ks = spent_torches_upto(b, n);
    spend(Bag { inv: burned_upto(b, n), ..b }, ks, ks.len() as int)
}

/// Where `x` goes in the ascending list `s`: behind the last letter that is
/// not greater than `x`.
pub open spec fn slot_pos(s: Seq<char>, x: char) -> int
    decreases s.len(),
{
    if s.len() == 0 {
        0
    } else if (x as u32) < (s.last() as u32) {
        slot_pos(s.drop_last(), x)
    } else {
        s.len() as int
    }
}

/// The first `n` of the slots `keys` in ascending order.
pub open spec fn sorted_slots(keys: Seq<char>, n: int) -> Seq<char>
    decreases n,
{
    if n <= 0 {
        Seq::empty()
    } else {
        let before = sorted_slots(keys, n - 1);
        before.insert(slot_pos(before, keys[n - 1]), keys[n - 1])
    }
}

/// The place for `x` lies within the list, behind what is not greater and
/// before what is greater.
pub proof fn lemma_slot_pos(s: Seq<char>, x: char)
    ensures
        0 <= slot_pos(s, x) <= s.len(),
        forall|i: int| slot_pos(s, x) <= i < s.len() ==> (x as u32) < (#[trigger] s[i] as u32),
        slot_pos(s, x) > 0 ==> (s[slot_pos(s, x) - 1] as u32) <= (x as u32),
    decreases s.len(),
{
    if s.len() > 0 && (x as u32) < (s.last() as u32) {
        let front = s.drop_last();
        lemma_slot_pos(front, x);
        assert forall|i: int| slot_pos(s, x) <= i < s.len() implies (x as u32) < (
        #[trigger] s[i] as u32) by {
            if i < front.len() {
                assert(front[i] == s[i]);
            }
        }
        if slot_pos(s, x) > 0 {
            assert(front[slot_pos(s, x) - 1] == s[slot_pos(s, x) - 1]);
        }
    }
}

/// A letter put in at its place keeps an ascending list ascending.
proof fn lemma_insert_keeps_order(s: Seq<char>, x: char, p: int)
    requires
        sorted_chars(s),
        0 <= p <= s.len(),
        forall|i: int| p <= i < s.len() ==> (x as u32) < (#[trigger] s[i] as u32),
        p > 0 ==> (s[p - 1] as u32) <= (x as u32),
    ensures
        sorted_chars(s.insert(p, x)),
{
    let t = s.insert(p, x);
    assert forall|a: int, b: int| 0 <= a < b < t.len() implies (t[a] as u32) <= (t[b] as u32) by {
        let ta = if a < p { s[a] } else if a == p { x } else { s[a - 1] };
        let tb = if b < p { s[b] } else if b == p { x } else { s[b - 1] };
        assert(t[a] == ta);
        assert(t[b] == tb);
        if a < p && b >= p {
            assert((s[a] as u32) <= (s[p - 1] as u32));
        }
    }
}

/// The slots in ascending order are ascending, and as many as the slots.
pub proof fn lemma_sorted_slots(keys: Seq<char>, n: int)
    requires
        0 <= n <= keys.len(),
    ensures
        sorted_chars(sorted_slots(keys, n)),
        sorted_slots(keys, n).len() == n,
    decreases n,
{
    if n > 0 {
        lemma_sorted_slots(keys, n - 1);
        let before = sorted_slots(keys, n - 1);
        lemma_slot_pos(before, keys[n - 1]);
        lemma_insert_keeps_order(before, keys[n - 1], slot_pos(before, keys[n - 1]));
    }
}

/// Each of the slots in ascending order is one of the slots.
pub proof fn lemma_sorted_slots_within(keys: Seq<char>, n: int, j: int)
    requires
        0 <= j < n <= keys.len(),
    ensures
        exists|i: int| 0 <= i < n && keys[i] == sorted_slots(keys, n)[j],
    decreases n,
{
    lemma_sorted_slots(keys, n - 1);
    let before = sorted_slots(keys, n - 1);
    let x = keys[n - 1];
    let p = slot_pos(before, x);
    lemma_slot_pos(before, x);
    let t = sorted_slots(keys, n);
    if j < p {
        assert(t[j] == before[j]);
        lemma_sorted_slots_within(keys, n - 1, j);
        let i = choose|i: int| 0 <= i < n - 1 && keys[i] == before[j];
        assert(0 <= i < n && keys[i] == t[j]);
    } else if j == p {
        assert(keys[n - 1] == t[j]);
    } else {
        assert(t[j] == before[j - 1]);
        lemma_sorted_slots_within(keys, n - 1, j - 1);
        let i = choose|i: int| 0 <= i < n - 1 && keys[i] == before[j - 1];
        assert(0 <= i < n && keys[i] == t[j]);
    }
}

/// Each of the slots is among the slots in ascending order.
pub proof fn lemma_sorted_slots_covers(keys: Seq<char>, n: int, i: int)
    requires
        0 <= i < n <= keys.len(),
    ensures
        exists|j: int| 0 <= j < n && sorted_slots(keys, n)[j] == keys[i],
    decreases n,
{
    lemma_sorted_slots(keys, n - 1);
    let before = sorted_slots(keys, n - 1);
    let x = keys[n - 1];
    let p = slot_pos(before, x);
    lemma_slot_pos(before, x);
    let t = sorted_slots(keys, n);
    if i == n - 1 {
        assert(t[p] == keys[i]);
    } else {
        lemma_sorted_slots_covers(keys, n - 1, i);
        let j = choose|j: int| 0 <= j < n - 1 && before[j] == keys[i];
        if j < p {
            assert(t[j] == keys[i]);
        } else {
            assert(t[j + 1] == keys[i]);
        }
    }
}

/// The first of the slots from position `from` on whose stack meets `pred`.
pub open spec fn first_slot(
    keys: Seq<char>,
    inv: Map<char, Stack>,
    pred: spec_fn(Stack) -> bool,
    from: int,
) -> Option<char>
    decreases keys.len() - from,
{
    if from < 0 || from >= keys.len() {
        None
    } else if pred(inv[keys[from]]) {
        Some(keys[from])
    } else {
        first_slot(keys, inv, pred, from + 1)
    }
}

/// The armour values of the equipped items among the first `n` slots, added up.
pub open spec fn armour_sum(keys: Seq<char>, inv: Map<char, Stack>, n: int) -> int
    decreases n,
{
    if n <= 0 {
        0
    } else {
        armour_sum(keys, inv, n - 1) + if inv[keys[n - 1]].0.equiped {
            inv[keys[n - 1]].0.armour_value as int
        } else {
            0
        }
    }
}

/// A number held to the range of a signed byte.
pub open spec fn clamp_i8(x: int) -> int {
    if x < -128 { -128 } else if x > 127 { 127 } else { x }
}

impl Inventory {
    /// An empty inventory, whose next free slot is 'a'.
    pub fn new() -> (res: Inventory)
        ensures
            res.next_slot == 'a',
            res.inv@ == Map::<char, Stack>::empty(),
            res.inv.keys() == Seq::<char>::empty(),
    {
        Inventory { next_slot: 'a', inv: Table::new() }
    }

    /// Whether a stack holds a light that is lit.
    pub open spec fn has_light(&self) -> bool {
        exists|slot: char| #[trigger]
            self.inv@.contains_key(slot) && self.inv@[slot].0.item_type == ItemType::Light
                && self.inv@[slot].0.activated
    }

    /// Whether the player carries a light that is lit.
    pub fn active_light_source(&self) -> (res: bool)
        ensures
            res == self.has_light(),
    {
        let n: usize = self.inv.len();
        let mut i: usize = 0;
        while i < n
            invariant
                i <= n,
                n == self.inv.keys().len(),
                forall|j: int|
                    0 <= j < i ==> !(self.inv@[#[trigger] self.inv.keys()[j]].0.item_type
                        == ItemType::Light && self.inv@[self.inv.keys()[j]].0.activated),
            decreases n - i,
        {
            let w = self.inv.value_at(i);
            if w.0.item_type == ItemType::Light && w.0.activated {
                return true;
            }
            i += 1;
        }
        proof {
            self.inv.lemma_keys_index();
        }
        false
    }

    /// Whether a stack holds the magic eye patch, put on.
    pub open spec fn wears_eye_patch(&self) -> bool {
        exists|slot: char| #[trigger]
            self.inv@.contains_key(slot) && self.inv@[slot].0.equiped && self.inv@[slot].0.name@
                == "magic eye patch"@
    }

    /// Whether the player wears the magic eye patch.
    pub fn equiped_magic_eye_patch(&self) -> (res: bool)
        ensures
            res == self.wears_eye_patch(),
    {
        let n: usize = self.inv.len();
        let mut i: usize = 0;
        while i < n
            invariant
                i <= n,
                n == self.inv.keys().len(),
                forall|j: int|
                    0 <= j < i ==> !(self.inv@[#[trigger] self.inv.keys()[j]].0.equiped
                        && self.inv@[self.inv.keys()[j]].0.name@ == "magic eye patch"@),
            decreases n - i,
        {
            let w = self.inv.value_at(i);
            if w.0.equiped && same_text(w.0.name.as_str(), "magic eye patch") {
                return true;
            }
            i += 1;
        }
        proof {
            self.inv.lemma_keys_index();
        }
        false
    }

    /// The first slot, in the order in which the slots were first filled,
    /// that holds an equipped item of the kind `kind`.
    pub open spec fn first_equipped(&self, kind: ItemType) -> Option<char> {
        first_slot(
            self.inv.keys(),
            self.inv@,
            |st: Stack| st.0.equiped && st.0.item_type == kind,
            0,
        )
    }

    /// The position in the order of the slots of the first equipped item of the kind `kind`.
    fn find_equipped(&self, kind: ItemType) -> (res: Option<usize>)
        ensures
            match res {
                Some(i) => i < self.inv.keys().len() && self.first_equipped(kind) == Some(
                    self.inv.keys()[i as int],
                ) && self.inv@.contains_key(self.inv.keys()[i as int])
                    && self.inv@[self.inv.keys()[i as int]].0.equiped
                    && self.inv@[self.inv.keys()[i as int]].0.item_type == kind,
                None => self.first_equipped(kind).is_none() && forall|slot: char| #[trigger]
                    self.inv@.contains_key(slot) ==> !(self.inv@[slot].0.equiped
                        && self.inv@[slot].0.item_type == kind),
            },
    {
        let ghost pred = |st: Stack| st.0.equiped && st.0.item_type == kind;
        let n: usize = self.inv.len();
        let mut i: usize = 0;
        while i < n
            invariant
                i <= n,
                n == self.inv.keys().len(),
                pred == (|st: Stack| st.0.equiped && st.0.item_type == kind),
                first_slot(self.inv.keys(), self.inv@, pred, 0) == first_slot(
                    self.inv.keys(),
                    self.inv@,
                    pred,
                    i as int,
                ),
                forall|j: int| 0 <= j < i ==> !pred(self.inv@[#[trigger] self.inv.keys()[j]]),
            decreases n - i,
        {
            let v = self.inv.value_at(i);
            if v.0.equiped && v.0.item_type == kind {
                return Some(i);
            }
            i += 1;
        }
        proof {
            self.inv.lemma_keys_index();
        }
        None
    }

    /// A copy of the firearm in hand, if there is one.
    pub fn get_equiped_firearm(&self) -> (res: Option<Item>)
        ensures
            res == match self.first_equipped(ItemType::Firearm) {
                Some(slot) => Some(self.inv@[slot].0),
                None => None::<Item>,
            },
    {
        match self.find_equipped(ItemType::Firearm) {
            Some(i) => Some(self.inv.value_at(i).0.clone()),
            None => None,
        }
    }

    /// A copy of the weapon in hand, if there is one.
    pub fn get_equiped_weapon(&self) -> (res: Option<Item>)
        ensures
            res == match self.first_equipped(ItemType::Weapon) {
                Some(slot) => Some(self.inv@[slot].0),
                None => None::<Item>,
            },
    {
        match self.find_equipped(ItemType::Weapon) {
            Some(i) => Some(self.inv.value_at(i).0.clone()),
            None => None,
        }
    }

    /// Whether an item of the kind `i_type` is equipped.
    pub fn type_already_equiped(&self, i_type: ItemType) -> (res: bool)
        ensures
            res == exists|slot: char| #[trigger]
                self.inv@.contains_key(slot) && self.inv@[slot].0.equiped
                    && self.inv@[slot].0.item_type == i_type,
    {
        match self.find_equipped(i_type) {
            Some(i) => true,
            None => false,
        }
    }

    /// The kind of the item in `slot`, if the slot is filled.
    pub fn item_type_in_slot(&self, slot: char) -> (res: Option<ItemType>)
        ensures
            res == if self.inv@.contains_key(slot) {
                Some(self.inv@[slot].0.item_type)
            } else {
                None::<ItemType>
            },
    {
        match self.inv.get(&slot) {
            Some(v) => Some(v.0.item_type),
            None => None,
        }
    }

    /// A copy of the item in `slot`, if the slot is filled.
    pub fn peek_at(&self, slot: char) -> (res: Option<Item>)
        ensures
            res == if self.inv@.contains_key(slot) {
                Some(self.inv@[slot].0)
            } else {
                None::<Item>
            },
    {
        match self.inv.get(&slot) {
            Some(v) => Some(v.0.clone()),
            None => None,
        }
    }

    /// How many items are stacked in `slot`; none in an empty slot.
    pub fn count_in_slot(&self, slot: char) -> (res: u8)
        ensures
            res == if self.inv@.contains_key(slot) { self.inv@[slot].1 } else { 0u8 },
    {
        match self.inv.get(&slot) {
            Some(v) => v.1,
            None => 0,
        }
    }

    /// The first slot, in the order in which the slots were first filled,
    /// whose item has the name `name`.
    pub open spec fn first_named(&self, name: Seq<char>) -> Option<char> {
        first_slot(self.inv.keys(), self.inv@, |st: Stack| st.0.name@ == name, 0)
    }

    /// How many items of the name `name` the player has, and in which slot.
    pub fn count_of_item(&self, name: &str) -> (res: Option<(u8, char)>)
        ensures
            res == match self.first_named(name@) {
                Some(slot) => Some((self.inv@[slot].1, slot)),
                None => None::<(u8, char)>,
            },
    {
        let ghost pred = |st: Stack| st.0.name@ == name@;
        let n: usize = self.inv.len();
        let mut i: usize = 0;
        while i < n
            invariant
                i <= n,
                n == self.inv.keys().len(),
                pred == (|st: Stack| st.0.name@ == name@),
                first_slot(self.inv.keys(), self.inv@, pred, 0) == first_slot(
                    self.inv.keys(),
                    self.inv@,
                    pred,
                    i as int,
                ),
            decreases n - i,
        {
            let v = self.inv.value_at(i);
            if same_text(v.0.name.as_str(), name) {
                return Some((v.1, self.inv.key_at(i)));
            }
            i += 1;
        }
        None
    }

    /// The inventory as contracts see it.
    pub open spec fn bag(&self) -> Bag {
        Bag { keys: self.inv.keys(), inv: self.inv@, next_slot: self.next_slot }
    }

    /// Looks for the next empty slot after the one that was to be filled next.
    pub fn set_next_slot(&mut self)
        ensures
            final(self).inv == old(self).inv,
            final(self).next_slot == probe(
                old(self).inv@,
                old(self).next_slot,
                old(self).next_slot,
                PROBE_LIMIT as nat,
            ),
    {
        let start: char = self.next_slot;
        let mut slot: char = self.next_slot;
        let mut fuel: usize = PROBE_LIMIT;
        let mut found: char = '\0';
        while fuel > 0
            invariant_except_break
                probe(self.inv@, start, start, PROBE_LIMIT as nat) == probe(
                    self.inv@,
                    start,
                    slot,
                    fuel as nat,
                ),
                found == '\0',
            invariant
                self.inv == old(self).inv,
                start == old(self).next_slot,
            ensures
                found == probe(self.inv@, start, start, PROBE_LIMIT as nat),
            decreases fuel,
        {
            slot = if slot >= 'z' { 'a' } else { ((slot as u8) + 1) as char };
            if !self.inv.contains_key(&slot) {
                found = slot;
                break ;
            }
            if slot == start {
                break ;
            }
            fuel -= 1;
        }
        self.next_slot = found;
    }

    /// Fires or loads the firearm in hand.
    fn toggle_loaded_status(&mut self)
        ensures
            final(self).bag() == bag_after_toggle_loaded(old(self).bag()),
    {
        let ghost pred = |st: Stack| st.0.equiped && st.0.item_type == ItemType::Firearm;
        let n: usize = self.inv.len();
        let mut gun: Option<usize> = None;
        let mut i: usize = 0;
        while i < n
            invariant
                i <= n,
                n == self.inv.keys().len(),
                *self == *old(self),
                pred == (|st: Stack| st.0.equiped && st.0.item_type == ItemType::Firearm),
                match gun {
                    Some(g) => g < i && last_slot(self.inv.keys(), self.inv@, pred, i as int)
                        == Some(self.inv.keys()[g as int]),
                    None => last_slot(self.inv.keys(), self.inv@, pred, i as int).is_none(),
                },
            decreases n - i,
        {
            let w = self.inv.value_at(i);
            if w.0.equiped && w.0.item_type == ItemType::Firearm {
                gun = Some(i);
            }
            i += 1;
        }
        match gun {
            Some(g) => {
                let slot: char = self.inv.key_at(g);
                if slot != '\0' {
                    let st = self.inv.value_at(g);
                    let mut item = st.0.clone();
                    let count: u8 = st.1;
                    item.loaded = !item.loaded;
                    self.inv.insert(slot, (item, count));
                }
            },
            None => {},
        }
    }

    /// The firearm in hand has been fired: it is no longer as it was, loaded or not.
    pub fn firearm_fired(&mut self)
        ensures
            final(self).bag() == bag_after_toggle_loaded(old(self).bag()),
    {
        self.toggle_loaded_status();
    }

    /// The firearm in hand has been loaded: it is no longer as it was, loaded or not.
    pub fn reload_firearm(&mut self)
        ensures
            final(self).bag() == bag_after_toggle_loaded(old(self).bag()),
    {
        self.toggle_loaded_status();
    }

    /// Takes `count` items from the stack in `slot`, or all of them if there
    /// are no more than that. The items taken remember their slot.
    pub fn remove_count(&mut self, slot: char, count: u8) -> (items: Vec<Item>)
        requires
            old(self).inv@.contains_key(slot),
        ensures
            final(self).bag() == bag_after_remove_count(old(self).bag(), slot, count),
            items@ == removed_items(old(self).bag(), slot, count),
    {
        let mut items: Vec<Item> = Vec::new();
        let (mut proto, held) = {
            let st = self.inv.get(&slot).unwrap();
            (st.0.clone(), st.1)
        };
        let max: u8 = if count < held {
            self.inv.insert(slot, (proto.clone(), held - count));
            count
        } else {
            self.inv.remove(&slot);
            if self.next_slot == '\0' {
                self.next_slot = slot;
            }
            held
        };
        proto.prev_slot = slot;
        let mut i: u8 = 0;
        while i < max
            invariant
                i <= max,
                items@.len() == i,
                forall|j: int| 0 <= j < i ==> #[trigger] items@[j] == proto,
            decreases max - i,
        {
            items.push(proto.clone());
            i += 1;
        }
        proof {
            assert(items@ =~= removed_items(old(self).bag(), slot, count));
        }
        items
    }

    /// Takes the whole stack out of `slot` and hands back its item, which
    /// remembers the slot.
    pub fn remove(&mut self, slot: char) -> (item: Item)
        requires
            old(self).inv@.contains_key(slot),
        ensures
            final(self).bag() == bag_after_remove(old(self).bag(), slot),
            item == (Item { prev_slot: slot, ..old(self).inv@[slot].0 }),
    {
        let st = self.inv.remove(&slot).unwrap();
        if self.next_slot == '\0' {
            self.next_slot = slot;
        }
        let mut item = st.0;
        item.prev_slot = slot;
        item
    }

    /// The position in the order of the slots of the stack that takes `item` in.
    fn find_stack(&self, item: &Item) -> (res: Option<usize>)
        ensures
            match res {
                Some(i) => i < self.inv.keys().len() && stack_for(self.bag(), *item) == Some(
                    self.inv.keys()[i as int],
                ),
                None => stack_for(self.bag(), *item).is_none(),
            },
    {
        if !item.stackable {
            return None;
        }
        let ghost pred = |st: Stack| st.0.name@ == item.name@ && st.0.stackable;
        let n: usize = self.inv.len();
        let mut i: usize = 0;
        while i < n
            invariant
                i <= n,
                n == self.inv.keys().len(),
                item.stackable,
                pred == (|st: Stack| st.0.name@ == item.name@ && st.0.stackable),
                first_slot(self.inv.keys(), self.inv@, pred, 0) == first_slot(
                    self.inv.keys(),
                    self.inv@,
                    pred,
                    i as int,
                ),
            decreases n - i,
        {
            let val = self.inv.value_at(i);
            if val.0.has_same_name(item) && val.0.stackable {
                return Some(i);
            }
            i += 1;
        }
        None
    }

    /// Puts `item` into the inventory: on a stack of its kind if it stacks,
    /// else into the slot it came from if that is empty, else into the next
    /// free slot. A stack never grows beyond 255.
    pub fn add(&mut self, item: Item)
        ensures
            final(self).bag() == bag_after_add(old(self).bag(), item),
    {
        match self.find_stack(&item) {
            Some(i) => {
                let slot: char = self.inv.key_at(i);
                let st = self.inv.value_at(i);
                let kept = st.0.clone();
                let count: u8 = if st.1 < 255 { st.1 + 1 } else { 255 };
                self.inv.insert(slot, (kept, count));
            },
            None => {
                if item.prev_slot != '\0' && !self.inv.contains_key(&item.prev_slot) {
                    let slot: char = item.prev_slot;
                    self.inv.insert(slot, (item, 1));
                } else {
                    let slot: char = self.next_slot;
                    self.inv.insert(slot, (item, 1));
                    self.set_next_slot();
                }
            },
        }
    }

    /// Uses up one bullet from the first stack of bullets, if there is one.
    pub fn find_ammo(&mut self) -> (res: bool)
        ensures
            match first_slot(
                old(self).inv.keys(),
                old(self).inv@,
                |st: Stack| st.0.item_type == ItemType::Bullet,
                0,
            ) {
                Some(slot) => res && final(self).bag() == bag_after_remove_count(
                    old(self).bag(),
                    slot,
                    1,
                ),
                None => !res && final(self).bag() == old(self).bag(),
            },
    {
        let ghost pred = |st: Stack| st.0.item_type == ItemType::Bullet;
        let n: usize = self.inv.len();
        let mut i: usize = 0;
        while i < n
            invariant
                i <= n,
                n == self.inv.keys().len(),
                *self == *old(self),
                pred == (|st: Stack| st.0.item_type == ItemType::Bullet),
                first_slot(self.inv.keys(), self.inv@, pred, 0) == first_slot(
                    self.inv.keys(),
                    self.inv@,
                    pred,
                    i as int,
                ),
            decreases n - i,
        {
            if self.inv.value_at(i).0.item_type == ItemType::Bullet {
                let slot: char = self.inv.key_at(i);
                self.remove_count(slot, 1);
                return true;
            }
            i += 1;
        }
        false
    }

    /// Lights one torch of the stack in `slot`: the torch leaves the stack
    /// and gets a slot of its own.
    fn light_torch_from_stack(&mut self, slot: char) -> (res: String)
        requires
            old(self).inv@.contains_key(slot),
            old(self).inv@[slot].1 > 1,
        ensures
            final(self).bag() == bag_after_add(
                bag_after_remove_count(old(self).bag(), slot, 1),
                (Item {
                    activated: true,
                    stackable: false,
                    prev_slot: slot,
                    ..old(self).inv@[slot].0
                }),
            ),
            res@ == "You light the torch."@,
    {
        let mut stack = self.remove_count(slot, 1);
        let mut torch = stack.pop().unwrap();
        torch.activated = true;
        torch.stackable = false;
        self.add(torch);
        String::from_str("You light the torch.")
    }

    /// Puts the item in `slot` on or off, or lights it or puts it out, and
    /// says what happened and whether anything did.
    pub fn toggle_slot(&mut self, slot: char) -> (res: (String, bool))
        ensures
            res.0@ == toggle_message(old(self).bag(), slot),
            res.1 == can_toggle(old(self).bag(), slot),
            final(self).bag() == bag_after_toggle(old(self).bag(), slot),
    {
        let ghost b = self.bag();
        let (item, count) = match self.inv.get(&slot) {
            None => {
                return (String::from_str("You do not have that item!"), false);
            },
            Some(val) => (val.0.clone(), val.1),
        };
        if !item.equipable() && item.item_type != ItemType::Light {
            return (String::from_str("You cannot equip or use that!"), false);
        }
        if !item.equiped && self.type_already_equiped(item.item_type) {
            let msg = match item.item_type {
                ItemType::Weapon => String::from_str("You are already holding a weapon."),
                ItemType::Firearm => String::from_str("You are already holding a gun."),
                ItemType::Hat => String::from_str("You are already wearing a hat."),
                ItemType::Coat => String::from_str("You are already wearing a coat."),
                ItemType::EyePatch => String::from_str("You are already wearing an eye patch."),
                ItemType::Fetish => String::from_str(
                    "Ye can benefit from just one fetish at a time.",
                ),
                _ => String::from_str("You cannot equip or use that!"),
            };
            return (msg, false);
        }
        let mut s = String::from_str("You ");
        let mut changed = item.clone();
        if item.item_type == ItemType::Light {
            if item.fuel == 0 {
                let mut msg = String::from_str("Your ");
                msg.append(item.name.as_str());
                msg.append(" is out of fuel.");
                return (msg, false);
            }
            if same_text(item.name.as_str(), "torch") && count > 1 {
                return (self.light_torch_from_stack(slot), true);
            }
            changed.activated = !item.activated;
            if changed.activated {
                s.append("ignite the ");
            } else {
                s.append("extinguish the ");
            }
        } else {
            changed.equiped = !item.equiped;
            if changed.equiped {
                s.append("equip the ");
            } else {
                s.append("unequip the ");
            }
        }
        s.append(item.name.as_str());
        s.append(".");
        proof {
            reveal_strlit("You ");
            reveal_strlit("ignite the ");
            reveal_strlit("extinguish the ");
            reveal_strlit("equip the ");
            reveal_strlit("unequip the ");
            reveal_strlit("You ignite the ");
            reveal_strlit("You extinguish the ");
            reveal_strlit("You equip the ");
            reveal_strlit("You unequip the ");
            assert("You "@ + "ignite the "@ =~= "You ignite the "@);
            assert("You "@ + "extinguish the "@ =~= "You extinguish the "@);
            assert("You "@ + "equip the "@ =~= "You equip the "@);
            assert("You "@ + "unequip the "@ =~= "You unequip the "@);
            assert(s@ =~= toggle_message(b, slot));
        }
        self.inv.insert(slot, (changed, count));
        (s, true)
    }

    /// One turn passes: every light that burns uses one unit of fuel, a
    /// light without fuel goes out, and a torch that went out is thrown
    /// away. The answer lists what went out.
    pub fn check_fueled_items(&mut self) -> (res: Option<Vec<Item>>)
        ensures
            final(self).bag() == bag_after_turn(old(self).bag()),
            match res {
                Some(v) => v@ == drained_upto(
                    old(self).bag(),
                    old(self).inv.keys().len() as int,
                ),
                None => false,
            },
    {
        let ghost b = self.bag();
        let n: usize = self.inv.len();
        let mut drained: Vec<Item> = Vec::new();
        let mut drained_keys: Vec<char> = Vec::new();
        let mut i: usize = 0;
        proof {
            use_type_invariant(&self.inv);
            self.inv.lemma_keys();
        }
        while i < n
            invariant
                i <= n,
                n == b.keys.len(),
                self.inv.keys() == b.keys,
                self.next_slot == b.next_slot,
                self.inv@ == burned_upto(b, i as int),
                forall|j: int|
                    i <= j < n ==> self.inv@.contains_key(#[trigger] b.keys[j]) && self.inv@[b.keys[j]]
                        == b.inv[b.keys[j]],
                drained@ == drained_upto(b, i as int),
                drained_keys@ == spent_torches_upto(b, i as int),
            decreases n - i,
        {
            let slot: char = self.inv.key_at(i);
            let w = self.inv.value_at(i);
            if w.0.activated && w.0.fuel > 0 {
                let mut item = w.0.clone();
                let count: u8 = w.1;
                item.fuel = item.fuel - 1;
                if item.fuel == 0 {
                    item.activated = false;
                    if same_text(item.name.as_str(), "torch") {
                        drained_keys.push(slot);
                    }
                    drained.push(item.clone());
                }
                self.inv.insert(slot, (item, count));
            } else {
                proof {
                    assert(self.inv@ =~= burned_upto(b, i + 1));
                }
            }
            proof {
                use_type_invariant(&self.inv);
                self.inv.lemma_keys();
                assert forall|j: int| i + 1 <= j < n implies self.inv@.contains_key(
                    #[trigger] b.keys[j],
                ) && self.inv@[b.keys[j]] == b.inv[b.keys[j]] by {
                    assert(b.keys[j] != b.keys[i as int]);
                }
            }
            i += 1;
        }
        let ghost burned = self.bag();
        let ghost ks = drained_keys@;
        let mut t: usize = 0;
        while t < drained_keys.len()
            invariant
                t <= drained_keys@.len(),
                drained_keys@ == ks,
                self.bag() == spend(burned, ks, t as int),
            decreases drained_keys@.len() - t,
        {
            let slot: char = drained_keys[t];
            if self.inv.contains_key(&slot) {
                self.remove_count(slot, 1);
            }
            t += 1;
        }
        Some(drained)
    }

    /// The filled slots in ascending order.
    fn sorted_keys(&self) -> (res: Vec<char>)
        ensures
            res@ == sorted_slots(self.inv.keys(), self.inv.keys().len() as int),
    {
        let n: usize = self.inv.len();
        let mut out: Vec<char> = Vec::new();
        let mut i: usize = 0;
        while i < n
            invariant
                i <= n,
                n == self.inv.keys().len(),
                out@ == sorted_slots(self.inv.keys(), i as int),
            decreases n - i,
        {
            let x: char = self.inv.key_at(i);
            let ghost whole = out@;
            let mut pos: usize = out.len();
            proof {
                assert(whole.subrange(0, pos as int) =~= whole);
            }
            while pos > 0 && (x as u32) < (out[pos - 1] as u32)
                invariant
                    pos <= out@.len(),
                    out@ == whole,
                    slot_pos(whole, x) == slot_pos(whole.subrange(0, pos as int), x),
                decreases pos,
            {
                proof {
                    let part = whole.subrange(0, pos as int);
                    assert(part.last() == whole[pos - 1]);
                    assert(part.drop_last() =~= whole.subrange(0, pos - 1));
                }
                pos -= 1;
            }
            proof {
                let part = whole.subrange(0, pos as int);
                if pos > 0 {
                    assert(part.last() == whole[pos - 1]);
                }
                assert(slot_pos(part, x) == pos);
            }
            out.insert(pos, x);
            i += 1;
        }
        out
    }

    /// The inventory as a menu: a line for each filled slot, the slots in
    /// ascending order. A single item is shown with "a" before its name, a
    /// stack with its size behind.
    pub fn get_menu(&self) -> (menu: Vec<String>)
        ensures
            menu@.len() == self.inv.keys().len(),
            forall|j: int|
                0 <= j < menu@.len() ==> (#[trigger] menu@[j])@ == menu_line(
                    sorted_slots(self.inv.keys(), self.inv.keys().len() as int)[j],
                    self.inv@[sorted_slots(self.inv.keys(), self.inv.keys().len() as int)[j]],
                ),
    {
        let slots = self.sorted_keys();
        let ghost order = sorted_slots(self.inv.keys(), self.inv.keys().len() as int);
        proof {
            lemma_sorted_slots(self.inv.keys(), self.inv.keys().len() as int);
            use_type_invariant(&self.inv);
            self.inv.lemma_keys();
            assert forall|x: int| 0 <= x < order.len() implies exists|i: int|
                0 <= i < self.inv.keys().len() && self.inv.keys()[i] == #[trigger] order[x] by {
                lemma_sorted_slots_within(self.inv.keys(), self.inv.keys().len() as int, x);
            }
        }
        let mut menu: Vec<String> = Vec::new();
        let mut j: usize = 0;
        while j < slots.len()
            invariant
                j <= slots@.len(),
                slots@ == order,
                order.len() == self.inv.keys().len(),
                forall|x: int|
                    0 <= x < order.len() ==> exists|i: int|
                        0 <= i < self.inv.keys().len() && self.inv.keys()[i] == #[trigger] order[x],
                forall|i: int|
                    0 <= i < self.inv.keys().len() ==> self.inv@.contains_key(
                        #[trigger] self.inv.keys()[i],
                    ),
                menu@.len() == j,
                forall|x: int|
                    0 <= x < j ==> (#[trigger] menu@[x])@ == menu_line(order[x], self.inv@[order[x]]),
            decreases slots@.len() - j,
        {
            let slot: char = slots[j];
            proof {
                let i = choose|i: int|
                    0 <= i < self.inv.keys().len() && self.inv.keys()[i] == order[j as int];
                assert(self.inv@.contains_key(self.inv.keys()[i]));
            }
            let val = self.inv.get(&slot).unwrap();
            let mut s = String::from_str("");
            proof {
                reveal_strlit("");
            }
            push_char(&mut s, slot);
            s.append(") ");
            if val.1 == 1 {
                s.append("a ");
                s.append(val.0.get_full_name().as_str());
            } else {
                s.append(val.0.get_full_name().as_str());
                s.append(" x");
                push_u8(&mut s, val.1);
            }
            proof {
                assert(s@ =~= menu_line(slot, *val));
            }
            menu.push(s);
            j += 1;
        }
        menu
    }

    /// The armour worn, added up.
    pub open spec fn armour_total(&self) -> int {
        armour_sum(self.inv.keys(), self.inv@, self.inv.keys().len() as int)
    }

    /// The armour values of the equipped items, added up, and held to the
    /// range of a signed byte.
    pub fn total_armour_value(&self) -> (res: i8)
        ensures
            res == clamp_i8(self.armour_total()),
    {
        let n: usize = self.inv.len();
        let mut sum: i128 = 0;
        let mut i: usize = 0;
        while i < n
            invariant
                i <= n,
                n == self.inv.keys().len(),
                sum == armour_sum(self.inv.keys(), self.inv@, i as int),
                -128 * i <= sum <= 127 * i,
                i <= usize::MAX,
            decreases n - i,
        {
            let v = self.inv.value_at(i);
            if v.0.equiped {
                sum = sum + v.0.armour_value as i128;
            }
            i += 1;
        }
        if sum < -128 {
            -128
        } else if sum > 127 {
            127
        } else {
            sum as i8
        }
    }
}

/// What lies on the ground of one map: under each cell a pile, topmost item first.
#[derive(Debug)]
pub struct ItemsTable {
    pub table: Table<Coord, VecDeque<Item>>,
}

/// The items of a pile that are not hidden, counted.
pub open spec fn visible_count(pile: Seq<Item>) -> nat
    decreases pile.len(),
{
    if pile.len() == 0 {
        0
    } else {
        visible_count(pile.drop_last()) + if pile.last().hidden { 0nat } else { 1nat }
    }
}

/// A pile with nothing hidden any more.
pub open spec fn revealed(pile: Seq<Item>) -> Seq<Item> {
    Seq::new(pile.len(), |i: int| Item { hidden: false, ..pile[i] })
}

/// Whether position `i` of a pile is one of the chosen `slots`.
pub open spec fn chosen(slots: Set<u8>, i: int) -> bool {
    0 <= i <= 255 && slots.contains(i as u8)
}

/// The items of a pile from position `lo` on that are not chosen, in their order.
pub open spec fn kept(pile: Seq<Item>, slots: Set<u8>, lo: int) -> Seq<Item>
    decreases pile.len() - lo,
{
    if lo < 0 || lo >= pile.len() {
        Seq::empty()
    } else if chosen(slots, lo) {
        kept(pile, slots, lo + 1)
    } else {
        seq![pile[lo]] + kept(pile, slots, lo + 1)
    }
}

/// The items of a pile from position `lo` on that are chosen, the last of them first.
pub open spec fn taken(pile: Seq<Item>, slots: Set<u8>, lo: int) -> Seq<Item>
    decreases pile.len() - lo,
{
    if lo < 0 || lo >= pile.len() {
        Seq::empty()
    } else if chosen(slots, lo) {
        taken(pile, slots, lo + 1).push(pile[lo])
    } else {
        taken(pile, slots, lo + 1)
    }
}

/// The line of a menu for the item at position `j` of a pile.
pub open spec fn ground_menu_line(j: int, item: Item) -> Seq<char> {
    seq![(('a' as u8) + j) as char] + ") "@ + item.name@
}

impl ItemsTable {
    /// The pile on `loc`, topmost item first; empty where nothing was ever put.
    pub open spec fn pile(&self, loc: Coord) -> Seq<Item> {
        if self.table@.contains_key(loc) {
            self.table@[loc]@
        } else {
            Seq::empty()
        }
    }

    /// Whether every pile but the one on `loc` is as it was in `before`.
    pub open spec fn same_elsewhere(&self, before: ItemsTable, loc: Coord) -> bool {
        forall|k: Coord|
            k != loc ==> (#[trigger] self.table@.contains_key(k) == before.table@.contains_key(k))
                && (before.table@.contains_key(k) ==> self.table@[k] == before.table@[k])
    }

    /// A ground without items.
    pub fn new() -> (res: ItemsTable)
        ensures
            res.table@ == Map::<Coord, VecDeque<Item>>::empty(),
    {
        ItemsTable { table: Table::new() }
    }

    /// Takes the pile on `loc` out of the table, leaving an empty one.
    fn take_pile(&mut self, loc: Coord) -> (pile: VecDeque<Item>)
        ensures
            pile@ == old(self).pile(loc),
            final(self).table@.dom() == old(self).table@.dom().insert(loc),
            final(self).pile(loc) == Seq::<Item>::empty(),
            final(self).same_elsewhere(*old(self), loc),
            final(self).table.keys() == if old(self).table@.contains_key(loc) {
                old(self).table.keys()
            } else {
                old(self).table.keys().push(loc)
            },
    {
        let res = match self.table.insert(loc, VecDeque::new()) {
            Some(p) => p,
            None => VecDeque::new(),
        };
        proof {
            assert(self.table@.dom() =~= old(self).table@.dom().insert(loc));
        }
        res
    }

    /// Puts a pile back on `loc`, where `take_pile` has left an empty one.
    fn put_pile(&mut self, loc: Coord, pile: VecDeque<Item>)
        requires
            old(self).table@.contains_key(loc),
        ensures
            final(self).pile(loc) == pile@,
            final(self).table@.dom() == old(self).table@.dom(),
            final(self).same_elsewhere(*old(self), loc),
            final(self).table.keys() == old(self).table.keys(),
    {
        self.table.insert(loc, pile);
        proof {
            assert(self.table@.dom() =~= old(self).table@.dom());
        }
    }

    /// Lays `item` on top of the pile on `(r, c)`.
    pub fn add(&mut self, r: usize, c: usize, item: Item)
        ensures
            final(self).pile((r, c)) == seq![item] + old(self).pile((r, c)),
            final(self).table@.dom() == old(self).table@.dom().insert((r, c)),
            final(self).same_elsewhere(*old(self), (r, c)),
    {
        let mut pile = self.take_pile((r, c));
        pile.push_front(item);
        self.put_pile((r, c), pile);
    }

    /// Uncovers every item of the pile on `loc`.
    pub fn reveal_hidden(&mut self, loc: &Coord)
        ensures
            final(self).pile(*loc) == revealed(old(self).pile(*loc)),
            final(self).table@.dom() == old(self).table@.dom(),
            final(self).same_elsewhere(*old(self), *loc),
    {
        if !self.table.contains_key(loc) {
            assert(revealed(self.pile(*loc)) =~= Seq::<Item>::empty());
            return ;
        }
        let ghost first = self.pile(*loc);
        let mut pile = self.take_pile(*loc);
        let n: usize = pile.len();
        let mut i: usize = 0;
        while i < n
            invariant
                i <= n,
                n == first.len(),
                pile@ == first.subrange(i as int, n as int) + revealed(first.subrange(0, i as int)),
            decreases n - i,
        {
            let ghost before = pile@;
            match pile.pop_front() {
                Some(mut item) => {
                    item.hidden = false;
                    pile.push_back(item);
                    proof {
                        assert(before[0] == first[i as int]);
                        assert(pile@ =~= first.subrange(i + 1, n as int) + revealed(
                            first.subrange(0, i + 1),
                        ));
                    }
                },
                None => {},
            }
            i += 1;
        }
        proof {
            assert(pile@ =~= revealed(first));
            assert(self.table@.dom() =~= old(self).table@.dom());
        }
        self.put_pile(*loc, pile);
    }

    /// Whether the great treasure is in the pile on `loc`.
    pub fn macguffin_here(&self, loc: &Coord) -> (res: bool)
        ensures
            res == exists|i: int|
                0 <= i < self.pile(*loc).len() && (#[trigger] self.pile(*loc)[i]).item_type
                    == ItemType::MacGuffin,
    {
        match self.table.get(loc) {
            None => false,
            Some(pile) => {
                let mut i: usize = 0;
                while i < pile.len()
                    invariant
                        i <= pile@.len(),
                        pile@ == self.pile(*loc),
                        forall|j: int|
                            0 <= j < i ==> (#[trigger] pile@[j]).item_type != ItemType::MacGuffin,
                    decreases pile@.len() - i,
                {
                    if pile[i].item_type == ItemType::MacGuffin {
                        assert(self.pile(*loc)[i as int].item_type == ItemType::MacGuffin);
                        return true;
                    }
                    i += 1;
                }
                false
            },
        }
    }

    /// Whether anything in the pile on `loc` is hidden.
    pub fn any_hidden(&self, loc: &Coord) -> (res: bool)
        ensures
            res == exists|i: int|
                0 <= i < self.pile(*loc).len() && (#[trigger] self.pile(*loc)[i]).hidden,
    {
        match self.table.get(loc) {
            None => false,
            Some(pile) => {
                let mut i: usize = 0;
                while i < pile.len()
                    invariant
                        i <= pile@.len(),
                        pile@ == self.pile(*loc),
                        forall|j: int| 0 <= j < i ==> !(#[trigger] pile@[j]).hidden,
                    decreases pile@.len() - i,
                {
                    if pile[i].hidden {
                        assert(self.pile(*loc)[i as int].hidden);
                        return true;
                    }
                    i += 1;
                }
                false
            },
        }
    }

    /// The items of the pile on `loc` that are not hidden, counted.
    pub fn count_visible(&self, loc: Coord) -> (res: usize)
        ensures
            res == visible_count(self.pile(loc)),
    {
        match self.table.get(&loc) {
            None => 0,
            Some(pile) => {
                let mut count: usize = 0;
                let mut i: usize = 0;
                while i < pile.len()
                    invariant
                        i <= pile@.len(),
                        count <= i,
                        count == visible_count(pile@.subrange(0, i as int)),
                    decreases pile@.len() - i,
                {
                    proof {
                        assert(pile@.subrange(0, i + 1).drop_last() =~= pile@.subrange(0, i as int));
                    }
                    if !pile[i].hidden {
                        count += 1;
                    }
                    i += 1;
                }
                proof {
                    assert(pile@.subrange(0, i as int) =~= pile@);
                }
                count
            },
        }
    }

    /// The number of items on `(r, c)` that are not hidden, as far as one byte holds it.
    pub fn count_at(&self, r: usize, c: usize) -> (res: u8)
        ensures
            res == visible_count(self.pile((r, c))) % 256,
    {
        (self.count_visible((r, c)) % 256) as u8
    }

    /// The topmost item on `(r, c)`.
    pub fn peek_top(&self, r: usize, c: usize) -> (res: &Item)
        requires
            self.pile((r, c)).len() > 0,
        ensures
            *res == self.pile((r, c))[0],
    {
        let stack = self.table.get(&(r, c)).unwrap();
        &stack[0]
    }

    /// The topmost item on `(r, c)` that is not hidden, if there is one.
    pub fn top_visible(&self, r: usize, c: usize) -> (res: Option<&Item>)
        ensures
            match res {
                Some(item) => exists|i: int|
                    0 <= i < self.pile((r, c)).len() && *item == #[trigger] self.pile((r, c))[i]
                        && !item.hidden && forall|j: int|
                        0 <= j < i ==> (#[trigger] self.pile((r, c))[j]).hidden,
                None => forall|j: int|
                    0 <= j < self.pile((r, c)).len() ==> (#[trigger] self.pile((r, c))[j]).hidden,
            },
    {
        match self.table.get(&(r, c)) {
            None => None,
            Some(pile) => {
                let mut i: usize = 0;
                while i < pile.len()
                    invariant
                        i <= pile@.len(),
                        pile@ == self.pile((r, c)),
                        forall|j: int| 0 <= j < i ==> (#[trigger] pile@[j]).hidden,
                    decreases pile@.len() - i,
                {
                    if !pile[i].hidden {
                        assert(pile@[i as int] == self.pile((r, c))[i as int]);
                        return Some(&pile[i]);
                    }
                    i += 1;
                }
                None
            },
        }
    }

    /// Takes the topmost item off the pile on `(r, c)`.
    pub fn get_at(&mut self, r: usize, c: usize) -> (res: Item)
        requires
            old(self).pile((r, c)).len() > 0,
        ensures
            res == old(self).pile((r, c))[0],
            final(self).pile((r, c)) == old(self).pile((r, c)).subrange(
                1,
                old(self).pile((r, c)).len() as int,
            ),
            final(self).table@.dom() == old(self).table@.dom(),
            final(self).same_elsewhere(*old(self), (r, c)),
    {
        let mut pile = self.take_pile((r, c));
        let item = pile.pop_front().unwrap();
        proof {
            assert(self.table@.dom() =~= old(self).table@.dom());
        }
        self.put_pile((r, c), pile);
        item
    }

    /// Takes the items at the chosen positions off the pile on `(r, c)`, and
    /// hands them back, the one that lay deepest first. A chosen position
    /// beyond the pile is passed over.
    pub fn get_many_at(&mut self, r: usize, c: usize, slots: &HashSet<u8>) -> (res: Vec<Item>)
        requires
            old(self).table@.contains_key((r, c)),
        ensures
            res@ == taken(old(self).pile((r, c)), slots@, 0),
            final(self).pile((r, c)) == kept(old(self).pile((r, c)), slots@, 0),
            final(self).table@.dom() == old(self).table@.dom(),
            final(self).same_elsewhere(*old(self), (r, c)),
    {
        broadcast use vstd::std_specs::hash::group_hash_axioms;

        let ghost first = self.pile((r, c));
        let mut stack = self.take_pile((r, c));
        let mut items: Vec<Item> = Vec::new();
        let mut i: usize = 256;
        proof {
            lemma_beyond_slots(first, slots@, 256);
            assert(stack@ =~= first.subrange(0, lesser(256, first.len() as int)) + kept(
                first,
                slots@,
                256,
            ));
        }
        while i > 0
            invariant
                i <= 256,
                stack@ == first.subrange(0, lesser(i as int, first.len() as int)) + kept(
                    first,
                    slots@,
                    i as int,
                ),
                items@ == taken(first, slots@, i as int),
            decreases i,
        {
            i -= 1;
            let ghost before = stack@;
            let ghost lo = lesser(i as int, first.len() as int);
            if slots.contains(&(i as u8)) {
                match stack.remove(i) {
                    Some(item) => {
                        items.push(item);
                        proof {
                            assert(i < first.len());
                            assert(before[i as int] == first[i as int]);
                            assert(stack@ =~= first.subrange(0, lo) + kept(first, slots@, i as int));
                        }
                    },
                    None => {
                        proof {
                            assert(before.len() <= i);
                            assert(i >= first.len());
                        }
                    },
                }
            } else {
                proof {
                    if i < first.len() {
                        assert(stack@ =~= first.subrange(0, lo) + kept(first, slots@, i as int));
                    }
                }
            }
        }
        proof {
            assert(stack@ =~= kept(first, slots@, 0));
            assert(self.table@.dom() =~= old(self).table@.dom());
        }
        self.put_pile((r, c), stack);
        items
    }

    /// The pile on `(r, c)` as a menu: a letter for each item, from 'a' for
    /// the topmost, and the item's name.
    pub fn get_menu(&self, r: usize, c: usize) -> (res: Vec<String>)
        requires
            self.table@.contains_key((r, c)),
            self.pile((r, c)).len() <= 159,
        ensures
            res@.len() == self.pile((r, c)).len(),
            forall|j: int|
                0 <= j < res@.len() ==> (#[trigger] res@[j])@ == ground_menu_line(
                    j,
                    self.pile((r, c))[j],
                ),
    {
        let mut menu: Vec<String> = Vec::new();
        let items = self.table.get(&(r, c)).unwrap();
        let mut j: usize = 0;
        while j < items.len()
            invariant
                j <= items@.len(),
                items@.len() <= 159,
                menu@.len() == j,
                forall|x: int|
                    0 <= x < j ==> (#[trigger] menu@[x])@ == ground_menu_line(x, items@[x]),
            decreases items@.len() - j,
        {
            let mut s = String::from_str("");
            proof {
                reveal_strlit("");
            }
            push_char(&mut s, ('a' as u8 + j as u8) as char);
            s.append(") ");
            s.append(items[j].name.as_str());
            proof {
                assert(s@ =~= ground_menu_line(j as int, items@[j as int]));
            }
            menu.push(s);
            j += 1;
        }
        menu
    }
}

/// The lesser of two numbers.
spec fn lesser(a: int, b: int) -> int {
    if a <= b { a } else { b }
}

/// Beyond position 255 nothing is chosen, so everything is kept.
proof fn lemma_beyond_slots(pile: Seq<Item>, slots: Set<u8>, lo: int)
    requires
        lo >= 256,
    ensures
        kept(pile, slots, lo) == if lo < pile.len() {
            pile.subrange(lo, pile.len() as int)
        } else {
            Seq::<Item>::empty()
        },
        taken(pile, slots, lo) == Seq::<Item>::empty(),
    decreases pile.len() - lo,
{
    if lo < pile.len() {
        lemma_beyond_slots(pile, slots, lo + 1);
        if lo + 1 < pile.len() {
            assert(pile.subrange(lo, pile.len() as int) =~= seq![pile[lo]] + pile.subrange(
                lo + 1,
                pile.len() as int,
            ));
        } else {
            assert(pile.subrange(lo, pile.len() as int) =~= seq![pile[lo]] + Seq::<Item>::empty());
        }
    }
}

} // verus!
