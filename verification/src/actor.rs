//! The player and the creatures of a map.

use vstd::prelude::*;
use vstd::string::StringExecFns;
use crate::dice::{random_below, roll};
use crate::display::{
    BLUE, BRIGHT_RED, DARK_BROWN, GOLD, GREEN, GREY, WHITE, YELLOW_ORANGE,
};
use crate::items::{
    bag_after_add, catalogue, clamp_i8, first_slot, is_made, is_of_kind, probe, Bag, Draws,
    Inventory, Item, Stack,
};
use crate::map::Rgb;
use crate::table::Table;
use crate::util::Coord;

verus! {

/// The two callings a player can start with.
#[derive(Debug, Copy, Clone, PartialEq, Eq, Structural)]
pub enum PirateType {
    Swab,
    Seadog,
}

/// The player.
#[derive(Debug)]
pub struct Player {
    pub name: String,
    pub ac: u8,
    pub max_stamina: u8,
    pub curr_stamina: u8,
    pub strength: u8,
    pub constitution: u8,
    pub dexterity: u8,
    pub verve: u8,
    pub prof_bonus: u8,
    pub row: usize,
    pub col: usize,
    pub inventory: Inventory,
    pub p_type: PirateType,
    pub on_ship: bool,
    pub bearing: u8,
    pub wheel: i8,
    pub score: u8,
    pub poisoned: bool,
    pub charmed: bool,
    pub drunkeness: u8,
}

/// The modifier that goes with an ability score: half the score, less five.
pub open spec fn spec_mod_for_stat(stat: u8) -> int {
    stat as int / 2 - 5
}

/// A number held to the range of an unsigned byte.
pub open spec fn clamp_u8(x: int) -> int {
    if x < 0 { 0 } else if x > 255 { 255 } else { x }
}

/// The greater of two numbers.
pub open spec fn more(a: u8, b: u8) -> u8 {
    if a >= b { a } else { b }
}

/// The lesser of two numbers.
pub open spec fn less(a: u8, b: u8) -> u8 {
    if a >= b { b } else { a }
}

/// Four numbers, the greatest first.
pub open spec fn descending4(a: u8, b: u8, c: u8, d: u8) -> Seq<u8> {
    let top = more(more(a, b), more(c, d));
    let upper = less(more(a, b), more(c, d));
    let lower = more(less(a, b), less(c, d));
    let bottom = less(less(a, b), less(c, d));
    seq![top, more(upper, lower), less(upper, lower), bottom]
}

/// Whether `x` can be the sum of three six-sided dice and `bonus`.
pub open spec fn in_throw_range(x: u8, bonus: i8) -> bool {
    3 + bonus <= x <= 18 + bonus
}

/// Four numbers, the greatest first.
pub fn sort_stats(a: u8, b: u8, c: u8, d: u8) -> (v: Vec<u8>)
    ensures
        v@ == descending4(a, b, c, d),
        v@[0] >= v@[1] >= v@[2] >= v@[3],
        v@[0] + v@[1] + v@[2] + v@[3] == a + b + c + d,
{
    let (a1, b1): (u8, u8) = if a >= b { (a, b) } else { (b, a) };
    let (c1, d1): (u8, u8) = if c >= d { (c, d) } else { (d, c) };
    let (top, upper): (u8, u8) = if a1 >= c1 { (a1, c1) } else { (c1, a1) };
    let (lower, bottom): (u8, u8) = if b1 >= d1 { (b1, d1) } else { (d1, b1) };
    let (second, third): (u8, u8) = if upper >= lower { (upper, lower) } else { (lower, upper) };
    let mut v: Vec<u8> = Vec::new();
    v.push(top);
    v.push(second);
    v.push(third);
    v.push(bottom);
    proof {
        assert(v@ =~= descending4(a, b, c, d));
    }
    v
}

/// Whether `st` is a stack of `count` items that the catalogue has under
/// `name`, new but for being in use or not.
pub open spec fn kit_stack(st: Stack, name: Seq<char>, count: u8, in_use: bool) -> bool {
    &&& st.1 == count
    &&& st.0.equiped == in_use
    &&& match catalogue(name, Draws { fuel: 0, fetish: 0, stat: 0 }) {
        Some(kind) => is_of_kind(Item { equiped: false, ..st.0 }, kind),
        None => false,
    }
}

/// What a swab starts with: a cutlass in hand in slot 'a', a jerkin on in
/// slot 'b', and three draughts of rum in slot 'c'.
pub open spec fn swab_kit(b: Bag) -> bool {
    &&& b.keys == seq!['a', 'b', 'c']
    &&& b.next_slot == 'd'
    &&& b.inv.dom() == set!['a', 'b', 'c']
    &&& kit_stack(b.inv['a'], "rusty cutlass"@, 1, true)
    &&& kit_stack(b.inv['b'], "leather jerkin"@, 1, true)
    &&& kit_stack(b.inv['c'], "draught of rum"@, 3, false)
}

/// Whether the bag `after` is the bag `before` with a new item of the
/// catalogue's `name` put in; a name that the catalogue does not have
/// changes nothing.
pub open spec fn outfitted(before: Bag, after: Bag, name: Seq<char>) -> bool {
    exists|draws: Draws| #[trigger]
        made_and_added(before, after, name, draws)
}

/// Whether the bag `after` is the bag `before` with the item put in that the
/// catalogue makes of `name` with the draws `draws`.
pub open spec fn made_and_added(before: Bag, after: Bag, name: Seq<char>, draws: Draws) -> bool {
    match catalogue(name, draws) {
        Some(kind) => exists|item: Item|
            #[trigger] is_of_kind(item, kind) && after == bag_after_add(before, item),
        None => after == before,
    }
}

/// The names of the things a player starts with, and of what stands before
/// them in the catalogue, are different names: they differ in length or in
/// their first letter.
proof fn lemma_catalogue_names()
    ensures
        "draught of rum"@.len() == 14 && "draught of rum"@[0] == 'd',
        "rusty cutlass"@.len() == 13,
        "battered tricorn"@.len() == 16 && "battered tricorn"@[0] == 'b',
        "leather jerkin"@.len() == 14 && "leather jerkin"@[0] == 'l',
        "overcoat"@.len() == 8,
        "stout boots"@.len() == 11,
        "magic eye patch"@.len() == 15,
        "flintlock pistol"@.len() == 16 && "flintlock pistol"@[0] == 'f',
        "corroded flintlock"@.len() == 18,
        "lead ball"@.len() == 9,
{
    reveal_strlit("draught of rum");
    reveal_strlit("rusty cutlass");
    reveal_strlit("battered tricorn");
    reveal_strlit("leather jerkin");
    reveal_strlit("overcoat");
    reveal_strlit("stout boots");
    reveal_strlit("magic eye patch");
    reveal_strlit("flintlock pistol");
    reveal_strlit("corroded flintlock");
    reveal_strlit("lead ball");
}

/// What a seadog starts with: a cutlass and a pistol in hand in the slots
/// 'a' and 'b', an overcoat and a tricorn on in 'c' and 'd', three draughts
/// of rum in 'e', and a dozen bullets in 'f'.
pub open spec fn seadog_kit(b: Bag) -> bool {
    &&& b.keys == seq!['a', 'b', 'c', 'd', 'e', 'f']
    &&& b.next_slot == 'g'
    &&& b.inv.dom() == set!['a', 'b', 'c', 'd', 'e', 'f']
    &&& kit_stack(b.inv['a'], "rusty cutlass"@, 1, true)
    &&& kit_stack(b.inv['b'], "flintlock pistol"@, 1, true)
    &&& kit_stack(b.inv['c'], "overcoat"@, 1, true)
    &&& kit_stack(b.inv['d'], "battered tricorn"@, 1, true)
    &&& kit_stack(b.inv['e'], "draught of rum"@, 3, false)
    &&& kit_stack(b.inv['f'], "lead ball"@, 12, false)
}

/// A player at the start of a game: at the origin, ashore, sober and well,
/// with full stamina.
pub open spec fn is_new_player(
    p: Player,
    name: String,
    hp: u8,
    p_type: PirateType,
    prof_bonus: u8,
) -> bool {
    &&& p.name == name
    &&& p.max_stamina == hp
    &&& p.curr_stamina == hp
    &&& p.prof_bonus == prof_bonus
    &&& p.row == 0
    &&& p.col == 0
    &&& p.p_type == p_type
    &&& !p.on_ship
    &&& p.bearing == 0
    &&& p.wheel == 0
    &&& p.score == 0
    &&& !p.poisoned
    &&& !p.charmed
    &&& p.drunkeness == 0
}

impl Player {
    /// The modifier that goes with an ability score.
    pub fn mod_for_stat(stat: u8) -> (res: i8)
        ensures
            res == spec_mod_for_stat(stat),
    {
        (stat / 2) as i8 - 5
    }

    /// Four throws of three six-sided dice, each with `bonus` added, the best first.
    pub fn roll_stats(bonus: i8) -> (v: Vec<u8>)
        requires
            -3 <= bonus <= 109,
        ensures
            exists|a: u8, b: u8, c: u8, d: u8|
                v@ == #[trigger] descending4(a, b, c, d) && in_throw_range(a, bonus)
                    && in_throw_range(b, bonus) && in_throw_range(c, bonus) && in_throw_range(
                    d,
                    bonus,
                ),
            v@.len() == 4,
            forall|i: int| 0 <= i < 4 ==> in_throw_range(#[trigger] v@[i], bonus),
            v@[0] >= v@[1] >= v@[2] >= v@[3],
    {
        let a: u8 = roll(6, 3, bonus);
        let b: u8 = roll(6, 3, bonus);
        let c: u8 = roll(6, 3, bonus);
        let d: u8 = roll(6, 3, bonus);
        let v = sort_stats(a, b, c, d);
        proof {
            assert(v@ == descending4(a, b, c, d));
        }
        v
    }

    /// The player that every calling starts from, with the given figures
    /// and an empty inventory.
    fn start(
        name: String,
        hp: u8,
        strength: u8,
        constitution: u8,
        dexterity: u8,
        verve: u8,
        prof_bonus: u8,
        p_type: PirateType,
    ) -> (p: Player)
        ensures
            is_new_player(p, name, hp, p_type, prof_bonus),
            p.strength == strength,
            p.constitution == constitution,
            p.dexterity == dexterity,
            p.verve == verve,
            p.ac == 10,
            p.inventory.next_slot == 'a',
            p.inventory.inv@ == Map::<char, Stack>::empty(),
            p.inventory.inv.keys() == Seq::<char>::empty(),
    {
        Player {
            name,
            ac: 10,
            max_stamina: hp,
            curr_stamina: hp,
            strength,
            constitution,
            dexterity,
            verve,
            prof_bonus,
            row: 0,
            col: 0,
            inventory: Inventory::new(),
            p_type,
            on_ship: false,
            bearing: 0,
            wheel: 0,
            score: 0,
            poisoned: false,
            charmed: false,
            drunkeness: 0,
        }
    }

    /// Puts an item from the catalogue into the inventory.
    fn outfit(&mut self, name: &str)
        ensures
            *final(self) == (Player { inventory: final(self).inventory, ..*old(self) }),
            outfitted(old(self).inventory.bag(), final(self).inventory.bag(), name@),
    {
        let made = Item::get_item(name);
        let ghost draws = choose|draws: Draws| #[trigger] is_made(made, name@, draws);
        match made {
            Some(item) => {
                self.inventory.add(item);
                proof {
                    assert(is_of_kind(item, catalogue(name@, draws).unwrap()));
                }
            },
            None => {},
        }
        proof {
            assert(made_and_added(
                old(self).inventory.bag(),
                self.inventory.bag(),
                name@,
                draws,
            ));
        }
    }

    /// A swab: nimble above all, then spirited, strong, and hardy last, with
    /// a cutlass in hand, a jerkin on, and rum in the bag.
    pub fn new_swab(name: String) -> (p: Player)
        ensures
            is_new_player(p, name, p.max_stamina, PirateType::Swab, 3),
            p.dexterity >= p.verve >= p.strength >= p.constitution,
            in_throw_range(p.dexterity, 2) && in_throw_range(p.constitution, 2),
            12 + spec_mod_for_stat(p.constitution) <= p.max_stamina <= 40 + spec_mod_for_stat(
                p.constitution,
            ),
            p.ac == clamp_u8(
                10 + clamp_i8(p.inventory.armour_total()) + spec_mod_for_stat(p.dexterity),
            ),
            swab_kit(p.inventory.bag()),
    {
        let stats = Player::roll_stats(2);
        let con_mod: i8 = Player::mod_for_stat(stats[3]);
        let hp: u8 = 8 + roll(8, 4, con_mod);
        let mut p = Player::start(
            name,
            hp,
            stats[2],
            stats[3],
            stats[0],
            stats[1],
            3,
            PirateType::Swab,
        );
        proof {
            lemma_catalogue_names();
            reveal_with_fuel(first_slot, 4);
            reveal_with_fuel(probe, 2);
        }
        let ghost b0 = p.inventory.bag();
        assert(b0.keys =~= Seq::<char>::empty());
        p.outfit("rusty cutlass");
        let ghost b1 = p.inventory.bag();
        assert(b1.keys =~= seq!['a'] && b1.next_slot == 'b' && b1.inv.dom() =~= set!['a']
            && kit_stack(b1.inv['a'], "rusty cutlass"@, 1, false));
        p.outfit("leather jerkin");
        let ghost b2 = p.inventory.bag();
        assert(b2.keys =~= seq!['a', 'b'] && b2.next_slot == 'c' && b2.inv.dom() =~= set!['a', 'b']
            && b2.inv['a'] == b1.inv['a'] && kit_stack(b2.inv['b'], "leather jerkin"@, 1, false));
        p.outfit("draught of rum");
        let ghost b3 = p.inventory.bag();
        assert(b3.keys =~= seq!['a', 'b', 'c'] && b3.next_slot == 'd' && b3.inv.dom() =~= set![
            'a',
            'b',
            'c',
        ] && b3.inv['a'] == b1.inv['a'] && b3.inv['b'] == b2.inv['b'] && kit_stack(
            b3.inv['c'],
            "draught of rum"@,
            1,
            false,
        ));
        p.outfit("draught of rum");
        let ghost b4 = p.inventory.bag();
        assert(b4 == (Bag { inv: b3.inv.insert('c', (b3.inv['c'].0, 2u8)), ..b3 }));
        p.outfit("draught of rum");
        let ghost b5 = p.inventory.bag();
        assert(b5.inv =~= b3.inv.insert('c', (b3.inv['c'].0, 3u8)));
        assert(b5 == (Bag { inv: b3.inv.insert('c', (b3.inv['c'].0, 3u8)), ..b3 }));
        p.inventory.toggle_slot('a');
        let ghost b6 = p.inventory.bag();
        assert(b6 == (Bag {
            inv: b5.inv.insert('a', (Item { equiped: true, ..b5.inv['a'].0 }, 1u8)),
            ..b5
        }));
        p.inventory.toggle_slot('b');
        let ghost b7 = p.inventory.bag();
        assert(b7 == (Bag {
            inv: b6.inv.insert('b', (Item { equiped: true, ..b6.inv['b'].0 }, 1u8)),
            ..b6
        }));
        assert(b7.inv.dom() =~= set!['a', 'b', 'c']);
        assert(b7.keys =~= seq!['a', 'b', 'c']);
        assert(kit_stack(b7.inv['a'], "rusty cutlass"@, 1, true));
        assert(kit_stack(b7.inv['b'], "leather jerkin"@, 1, true));
        assert(kit_stack(b7.inv['c'], "draught of rum"@, 3, false));
        p.calc_ac();
        p
    }

    /// A seadog: hardy above all, then strong, nimble, and spirited last,
    /// with cutlass and pistol in hand, coat and hat on, and rum and a dozen
    /// bullets in the bag.
    pub fn new_seadog(name: String) -> (p: Player)
        ensures
            is_new_player(p, name, p.max_stamina, PirateType::Seadog, 4),
            p.constitution >= p.strength >= p.dexterity >= p.verve,
            in_throw_range(p.constitution, 0) && in_throw_range(p.verve, 0),
            14 + spec_mod_for_stat(p.constitution) <= p.max_stamina <= 56 + spec_mod_for_stat(
                p.constitution,
            ),
            p.ac == clamp_u8(
                10 + clamp_i8(p.inventory.armour_total()) + spec_mod_for_stat(p.dexterity),
            ),
            seadog_kit(p.inventory.bag()),
    {
        let stats = Player::roll_stats(0);
        let con_mod: i8 = Player::mod_for_stat(stats[0]);
        let hp: u8 = 8 + roll(8, 6, con_mod);
        let mut p = Player::start(
            name,
            hp,
            stats[1],
            stats[0],
            stats[2],
            stats[3],
            4,
            PirateType::Seadog,
        );
        proof {
            lemma_catalogue_names();
            reveal_with_fuel(first_slot, 7);
            reveal_with_fuel(probe, 2);
        }
        let ghost b0 = p.inventory.bag();
        assert(b0.keys =~= Seq::<char>::empty());
        p.outfit("rusty cutlass");
        let ghost b1 = p.inventory.bag();
        assert(b1.keys =~= seq!['a'] && b1.next_slot == 'b' && b1.inv.dom() =~= set!['a']
            && kit_stack(b1.inv['a'], "rusty cutlass"@, 1, false));
        p.outfit("flintlock pistol");
        let ghost b2 = p.inventory.bag();
        assert(b2.keys =~= seq!['a', 'b'] && b2.next_slot == 'c' && b2.inv.dom() =~= set!['a', 'b']
            && b2.inv['a'] == b1.inv['a'] && kit_stack(b2.inv['b'], "flintlock pistol"@, 1, false));
        p.outfit("overcoat");
        let ghost b3 = p.inventory.bag();
        assert(b3.keys =~= seq!['a', 'b', 'c'] && b3.next_slot == 'd' && b3.inv.dom() =~= set![
            'a',
            'b',
            'c',
        ] && b3.inv['a'] == b1.inv['a'] && b3.inv['b'] == b2.inv['b'] && kit_stack(
            b3.inv['c'],
            "overcoat"@,
            1,
            false,
        ));
        p.outfit("battered tricorn");
        let ghost b4 = p.inventory.bag();
        assert(b4.keys =~= seq!['a', 'b', 'c', 'd'] && b4.next_slot == 'e' && b4.inv.dom() =~= set![
            'a',
            'b',
            'c',
            'd',
        ] && b4.inv['a'] == b1.inv['a'] && b4.inv['b'] == b2.inv['b'] && b4.inv['c']
            == b3.inv['c'] && kit_stack(b4.inv['d'], "battered tricorn"@, 1, false));
        p.outfit("draught of rum");
        let ghost b5 = p.inventory.bag();
        assert(b5.keys =~= seq!['a', 'b', 'c', 'd', 'e'] && b5.next_slot == 'f' && b5.inv.dom()
            =~= set!['a', 'b', 'c', 'd', 'e'] && b5.inv['a'] == b1.inv['a'] && b5.inv['b']
            == b2.inv['b'] && b5.inv['c'] == b3.inv['c'] && b5.inv['d'] == b4.inv['d']
            && kit_stack(b5.inv['e'], "draught of rum"@, 1, false));
        p.outfit("draught of rum");
        let ghost b6 = p.inventory.bag();
        assert(b6.inv =~= b5.inv.insert('e', (b5.inv['e'].0, 2u8)));
        assert(b6 == (Bag { inv: b5.inv.insert('e', (b5.inv['e'].0, 2u8)), ..b5 }));
        p.outfit("draught of rum");
        let ghost b7 = p.inventory.bag();
        assert(b7.inv =~= b5.inv.insert('e', (b5.inv['e'].0, 3u8)));
        assert(b7 == (Bag { inv: b5.inv.insert('e', (b5.inv['e'].0, 3u8)), ..b5 }));
        p.outfit("lead ball");
        let ghost b8 = p.inventory.bag();
        assert(b8.keys =~= seq!['a', 'b', 'c', 'd', 'e', 'f'] && b8.next_slot == 'g'
            && b8.inv.dom() =~= set!['a', 'b', 'c', 'd', 'e', 'f'] && b8.inv =~= b7.inv.insert(
            'f',
            b8.inv['f'],
        ) && kit_stack(b8.inv['f'], "lead ball"@, 1, false));
        assert(b8.inv =~= b8.inv.insert('f', (b8.inv['f'].0, 1u8)));
        let mut i: u8 = 1;
        while i < 12
            invariant
                1 <= i <= 12,
                stats@.len() == 4,
                is_new_player(p, name, hp, PirateType::Seadog, 4),
                p.constitution == stats@[0],
                p.strength == stats@[1],
                p.dexterity == stats@[2],
                p.verve == stats@[3],
                p.ac == 10,
                "lead ball"@.len() == 9,
                "draught of rum"@.len() == 14,
                "rusty cutlass"@.len() == 13,
                "battered tricorn"@.len() == 16,
                "leather jerkin"@.len() == 14,
                "overcoat"@.len() == 8,
                "stout boots"@.len() == 11,
                "magic eye patch"@.len() == 15,
                "flintlock pistol"@.len() == 16,
                "corroded flintlock"@.len() == 18,
                b8.keys == seq!['a', 'b', 'c', 'd', 'e', 'f'],
                b8.inv.dom() == set!['a', 'b', 'c', 'd', 'e', 'f'],
                kit_stack(b8.inv['a'], "rusty cutlass"@, 1, false),
                kit_stack(b8.inv['b'], "flintlock pistol"@, 1, false),
                kit_stack(b8.inv['c'], "overcoat"@, 1, false),
                kit_stack(b8.inv['d'], "battered tricorn"@, 1, false),
                kit_stack(b8.inv['e'], "draught of rum"@, 3, false),
                kit_stack(b8.inv['f'], "lead ball"@, 1, false),
                p.inventory.bag() == (Bag { inv: b8.inv.insert('f', (b8.inv['f'].0, i)), ..b8 }),
            decreases 12 - i,
        {
            proof {
                reveal_with_fuel(first_slot, 7);
            }
            p.outfit("lead ball");
            proof {
                assert(p.inventory.bag().inv =~= b8.inv.insert(
                    'f',
                    (b8.inv['f'].0, (i + 1) as u8),
                ));
            }
            i += 1;
        }
        let ghost b9 = p.inventory.bag();
        p.inventory.toggle_slot('a');
        let ghost c1 = p.inventory.bag();
        assert(c1 == (Bag {
            inv: b9.inv.insert('a', (Item { equiped: true, ..b9.inv['a'].0 }, 1u8)),
            ..b9
        }));
        p.inventory.toggle_slot('b');
        let ghost c2 = p.inventory.bag();
        assert(c2 == (Bag {
            inv: c1.inv.insert('b', (Item { equiped: true, ..c1.inv['b'].0 }, 1u8)),
            ..c1
        }));
        p.inventory.toggle_slot('c');
        let ghost c3 = p.inventory.bag();
        assert(c3 == (Bag {
            inv: c2.inv.insert('c', (Item { equiped: true, ..c2.inv['c'].0 }, 1u8)),
            ..c2
        }));
        p.inventory.toggle_slot('d');
        let ghost c4 = p.inventory.bag();
        assert(c4 == (Bag {
            inv: c3.inv.insert('d', (Item { equiped: true, ..c3.inv['d'].0 }, 1u8)),
            ..c3
        }));
        assert(c4.inv.dom() =~= set!['a', 'b', 'c', 'd', 'e', 'f']);
        assert(kit_stack(c4.inv['a'], "rusty cutlass"@, 1, true));
        assert(kit_stack(c4.inv['b'], "flintlock pistol"@, 1, true));
        assert(kit_stack(c4.inv['c'], "overcoat"@, 1, true));
        assert(kit_stack(c4.inv['d'], "battered tricorn"@, 1, true));
        assert(kit_stack(c4.inv['e'], "draught of rum"@, 3, false));
        assert(kit_stack(c4.inv['f'], "lead ball"@, 12, false));
        p.calc_ac();
        p
    }

    /// Gives stamina back, up to the player's maximum.
    pub fn add_stamina(&mut self, stamina: u8)
        ensures
            final(self).curr_stamina == if old(self).curr_stamina + stamina > old(self).max_stamina {
                old(self).max_stamina as int
            } else {
                old(self).curr_stamina + stamina
            },
            *final(self) == (Player { curr_stamina: final(self).curr_stamina, ..*old(self) }),
    {
        let sum: u16 = self.curr_stamina as u16 + stamina as u16;
        if sum > self.max_stamina as u16 {
            self.curr_stamina = self.max_stamina;
        } else {
            self.curr_stamina = sum as u8;
        }
    }

    /// Sets the armour class: ten, plus the armour worn (held to a signed
    /// byte), plus the modifier for dexterity; never below zero.
    pub fn calc_ac(&mut self)
        ensures
            final(self).ac == clamp_u8(
                10 + clamp_i8(old(self).inventory.armour_total()) + spec_mod_for_stat(
                    old(self).dexterity,
                ),
            ),
            *final(self) == (Player { ac: final(self).ac, ..*old(self) }),
    {
        let total: i32 = 10 + self.inventory.total_armour_value() as i32 + Player::mod_for_stat(
            self.dexterity,
        ) as i32;
        self.ac = if total < 0 {
            0
        } else if total > 255 {
            255
        } else {
            total as u8
        };
    }
}

/// The kinds of creature.
#[derive(Debug, Copy, Clone, PartialEq, Eq, Structural)]
pub enum NPCType {
    Boar,
    Shark,
    Snake,
    Panther,
    Skeleton,
    UndeadCaptain,
    Merfolk,
    MaroonedPirate,
    Castaway,
}

/// One creature.
#[derive(Debug)]
pub struct Monster {
    pub name: String,
    pub id: usize,
    pub npc_type: NPCType,
    pub ac: u8,
    pub hp: u8,
    pub symbol: char,
    pub row: usize,
    pub col: usize,
    pub color: Rgb,
    pub hit_bonus: i8,
    pub dmg: u8,
    pub dmg_dice: u8,
    pub dmg_bonus: u8,
    pub special_dmg: String,
    pub score: u8,
    pub gender: u8,
    pub anchor: Coord,
    pub aware_of_player: bool,
    pub hostile: bool,
    pub voice_line: String,
    pub minions: u8,
    pub boss: usize,
}

impl Clone for Monster {
    fn clone(&self) -> (res: Self)
        ensures
            res == *self,
    {
        Monster {
            name: self.name.clone(),
            id: self.id,
            npc_type: self.npc_type,
            ac: self.ac,
            hp: self.hp,
            symbol: self.symbol,
            row: self.row,
            col: self.col,
            color: self.color,
            hit_bonus: self.hit_bonus,
            dmg: self.dmg,
            dmg_dice: self.dmg_dice,
            dmg_bonus: self.dmg_bonus,
            special_dmg: self.special_dmg.clone(),
            score: self.score,
            gender: self.gender,
            anchor: self.anchor,
            aware_of_player: self.aware_of_player,
            hostile: self.hostile,
            voice_line: self.voice_line.clone(),
            minions: self.minions,
            boss: self.boss,
        }
    }
}

/// The figures a kind of creature starts with.
pub struct Stats {
    pub name: Seq<char>,
    pub npc_type: NPCType,
    pub ac: u8,
    pub symbol: char,
    pub color: Rgb,
    pub hit_bonus: i8,
    pub dmg: u8,
    pub dmg_dice: u8,
    pub dmg_bonus: u8,
    pub score: u8,
}

/// What can differ between creatures of one kind.
pub struct Traits {
    pub special_dmg: Seq<char>,
    pub gender: u8,
    pub anchor: Coord,
    pub aware_of_player: bool,
    pub hostile: bool,
    pub voice_line: Seq<char>,
    pub minions: u8,
    pub boss: usize,
}

/// The traits of a creature as `Monster::new` makes it: hostile, unaware of
/// the player, with no anchor, voice, minions or boss.
pub open spec fn plain_traits() -> Traits {
    Traits {
        special_dmg: ""@,
        gender: 0,
        anchor: (0, 0),
        aware_of_player: false,
        hostile: true,
        voice_line: ""@,
        minions: 0,
        boss: 0,
    }
}

/// Whether `m` is the creature with the given identifier, stamina, place,
/// figures and traits.
pub open spec fn monster_is(
    m: Monster,
    id: usize,
    hp: u8,
    row: usize,
    col: usize,
    s: Stats,
    t: Traits,
) -> bool {
    &&& m.name@ == s.name
    &&& m.id == id
    &&& m.npc_type == s.npc_type
    &&& m.ac == s.ac
    &&& m.hp == hp
    &&& m.symbol == s.symbol
    &&& m.row == row
    &&& m.col == col
    &&& m.color == s.color
    &&& m.hit_bonus == s.hit_bonus
    &&& m.dmg == s.dmg
    &&& m.dmg_dice == s.dmg_dice
    &&& m.dmg_bonus == s.dmg_bonus
    &&& m.special_dmg@ == t.special_dmg
    &&& m.score == s.score
    &&& m.gender == t.gender
    &&& m.anchor == t.anchor
    &&& m.aware_of_player == t.aware_of_player
    &&& m.hostile == t.hostile
    &&& m.voice_line@ == t.voice_line
    &&& m.minions == t.minions
    &&& m.boss == t.boss
}

/// A creature as `Monster::new` makes it.
pub open spec fn fresh_monster(m: Monster, id: usize, hp: u8, row: usize, col: usize, s: Stats) -> bool {
    monster_is(m, id, hp, row, col, s, plain_traits())
}

impl Monster {
    /// A creature with the given figures.
    pub fn new(
        name: String,
        id: usize,
        npc_type: NPCType,
        ac: u8,
        hp: u8,
        symbol: char,
        row: usize,
        col: usize,
        color: Rgb,
        hit_bonus: i8,
        dmg: u8,
        dmg_dice: u8,
        dmg_bonus: u8,
        score: u8,
    ) -> (res: Monster)
        ensures
            fresh_monster(
                res,
                id,
                hp,
                row,
                col,
                (Stats {
                    name: name@,
                    npc_type,
                    ac,
                    symbol,
                    color,
                    hit_bonus,
                    dmg,
                    dmg_dice,
                    dmg_bonus,
                    score,
                }),
            ),
    {
        Monster {
            name,
            id,
            npc_type,
            ac,
            hp,
            symbol,
            row,
            col,
            color,
            hit_bonus,
            dmg,
            dmg_dice,
            dmg_bonus,
            special_dmg: String::from_str(""),
            score,
            gender: 0,
            anchor: (0, 0),
            aware_of_player: false,
            hostile: true,
            voice_line: String::from_str(""),
            minions: 0,
            boss: 0,
        }
    }
}

/// The figures of each kind of creature.
pub open spec fn stats_of(npc_type: NPCType) -> Stats {
    match npc_type {
        NPCType::Merfolk => Stats {
            name: "merperson"@,
            npc_type,
            ac: 13,
            symbol: 'y',
            color: YELLOW_ORANGE,
            hit_bonus: 5,
            dmg: 1,
            dmg_dice: 1,
            dmg_bonus: 0,
            score: 10,
        },
        NPCType::Skeleton => Stats {
            name: "skeletal pirate"@,
            npc_type,
            ac: 13,
            symbol: 'Z',
            color: WHITE,
            hit_bonus: 4,
            dmg: 0,
            dmg_dice: 0,
            dmg_bonus: 0,
            score: 5,
        },
        NPCType::UndeadCaptain => Stats {
            name: "undead pirate captain"@,
            npc_type,
            ac: 14,
            symbol: 'Z',
            color: BRIGHT_RED,
            hit_bonus: 5,
            dmg: 8,
            dmg_dice: 1,
            dmg_bonus: 0,
            score: 15,
        },
        NPCType::MaroonedPirate => Stats {
            name: "marooned pirate"@,
            npc_type,
            ac: 14,
            symbol: '@',
            color: GREY,
            hit_bonus: 5,
            dmg: 6,
            dmg_dice: 1,
            dmg_bonus: 0,
            score: 10,
        },
        NPCType::Castaway => Stats {
            name: "castaway"@,
            npc_type,
            ac: 10,
            symbol: '@',
            color: GREY,
            hit_bonus: 3,
            dmg: 6,
            dmg_dice: 1,
            dmg_bonus: 0,
            score: 0,
        },
        NPCType::Snake => Stats {
            name: "snake"@,
            npc_type,
            ac: 14,
            symbol: 'S',
            color: GREEN,
            hit_bonus: 4,
            dmg: 4,
            dmg_dice: 1,
            dmg_bonus: 0,
            score: 10,
        },
        NPCType::Shark => Stats {
            name: "shark"@,
            npc_type,
            ac: 12,
            symbol: '^',
            color: GREY,
            hit_bonus: 4,
            dmg: 8,
            dmg_dice: 1,
            dmg_bonus: 2,
            score: 10,
        },
        NPCType::Panther => Stats {
            name: "panther"@,
            npc_type,
            ac: 12,
            symbol: 'f',
            color: BLUE,
            hit_bonus: 5,
            dmg: 12,
            dmg_dice: 1,
            dmg_bonus: 2,
            score: 10,
        },
        NPCType::Boar => Stats {
            name: "wild boar"@,
            npc_type,
            ac: 12,
            symbol: 'b',
            color: DARK_BROWN,
            hit_bonus: 4,
            dmg: 6,
            dmg_dice: 1,
            dmg_bonus: 2,
            score: 5,
        },
    }
}

/// The gender that goes with a draw from a hundred: a third each.
pub open spec fn gender_for(draw: u8) -> u8 {
    if draw < 33 { 1 } else if draw < 66 { 2 } else { 0 }
}

/// The colour of a snake that goes with a draw from a hundred: a third each.
pub open spec fn snake_colour_for(draw: u8) -> Rgb {
    if draw < 33 { BRIGHT_RED } else if draw < 66 { GOLD } else { GREEN }
}

/// The name of one of the merfolk that goes with a draw from a hundred.
pub open spec fn merfolk_name_for(draw: u8) -> Seq<char> {
    if draw < 33 { "mermaid"@ } else if draw < 66 { "merman"@ } else { "merperson"@ }
}

/// The tracker `after` is `before` with one more creature, which stands on
/// `(row, col)` and has the next identifier.
pub open spec fn enlisted(before: NPCTracker, after: NPCTracker, row: usize, col: usize) -> bool {
    &&& after.npc_id == before.npc_id + 1
    &&& after.npc_list@.contains_key(after.npc_id)
    &&& after.npc_list@ == before.npc_list@.insert(after.npc_id, after.npc_list@[after.npc_id])
    &&& after.loc_index@ == before.loc_index@.insert((row, col), after.npc_id)
}

/// The creatures of one map: each under its identifier, and an index from
/// the cell a creature stands on to its identifier.
#[derive(Debug)]
pub struct NPCTracker {
    pub npc_id: usize,
    pub npc_list: Table<usize, Monster>,
    pub loc_index: Table<Coord, usize>,
}

impl NPCTracker {
    /// A tracker without creatures.
    pub fn new() -> (res: NPCTracker)
        ensures
            res.npc_id == 0,
            res.npc_list@ == Map::<usize, Monster>::empty(),
            res.loc_index@ == Map::<Coord, usize>::empty(),
    {
        NPCTracker { npc_id: 0, npc_list: Table::new(), loc_index: Table::new() }
    }

    /// Whether a creature stands on `(row, col)`.
    pub fn is_npc_at(&self, row: usize, col: usize) -> (res: bool)
        ensures
            res == self.loc_index@.contains_key((row, col)),
    {
        self.loc_index.contains_key(&(row, col))
    }

    /// The identifiers of all creatures, oldest entry first.
    pub fn all_npc_ids(&self) -> (res: Vec<usize>)
        ensures
            res@ == self.npc_list.keys(),
    {
        self.npc_list.keys_vec()
    }

    /// Whether the index knows a creature at `loc` that the list knows too.
    pub open spec fn tracked_at(&self, loc: Coord) -> bool {
        self.loc_index@.contains_key(loc) && self.npc_list@.contains_key(self.loc_index@[loc])
    }

    /// The creature that the index has at `loc`.
    pub open spec fn monster_at(&self, loc: Coord) -> Monster {
        self.npc_list@[self.loc_index@[loc]]
    }

    /// Glyph and colour of the creature on `(row, col)`.
    pub fn tile_info(&self, row: usize, col: usize) -> (res: (char, Rgb))
        requires
            self.tracked_at((row, col)),
        ensures
            res == (self.monster_at((row, col)).symbol, self.monster_at((row, col)).color),
    {
        let id = self.loc_index.get(&(row, col)).unwrap();
        let m = self.npc_list.get(id).unwrap();
        (m.symbol, m.color)
    }

    /// A copy of the creature with identifier `id`, if there is one.
    pub fn npc_with_id(&mut self, id: usize) -> (res: Option<Monster>)
        ensures
            *final(self) == *old(self),
            res == if old(self).npc_list@.contains_key(id) {
                Some(old(self).npc_list@[id])
            } else {
                None::<Monster>
            },
    {
        match self.npc_list.get(&id) {
            Some(m) => Some(m.clone()),
            None => None,
        }
    }

    /// A copy of the creature on `(row, col)`, if the index has one there.
    pub fn npc_at(&mut self, row: usize, col: usize) -> (res: Option<Monster>)
        requires
            old(self).loc_index@.contains_key((row, col)) ==> old(self).tracked_at((row, col)),
        ensures
            *final(self) == *old(self),
            res == if old(self).loc_index@.contains_key((row, col)) {
                Some(old(self).monster_at((row, col)))
            } else {
                None::<Monster>
            },
    {
        match self.loc_index.get(&(row, col)) {
            Some(id) => {
                let m = self.npc_list.get(id).unwrap();
                Some(m.clone())
            },
            None => None,
        }
    }

    /// Records the creature `m` under its identifier. If it has left
    /// `(prev_row, prev_col)`, the index forgets that cell and learns the new one.
    pub fn update(&mut self, m: Monster, prev_row: usize, prev_col: usize)
        ensures
            final(self).npc_id == old(self).npc_id,
            final(self).npc_list@ == old(self).npc_list@.insert(m.id, m),
            final(self).loc_index@ == if prev_row != m.row || prev_col != m.col {
                old(self).loc_index@.remove((prev_row, prev_col)).insert((m.row, m.col), m.id)
            } else {
                old(self).loc_index@
            },
    {
        let id: usize = m.id;
        if prev_row != m.row || prev_col != m.col {
            let loc: Coord = (m.row, m.col);
            self.loc_index.remove(&(prev_row, prev_col));
            self.loc_index.insert(loc, id);
        }
        self.npc_list.insert(id, m);
    }

    /// Forgets the creature `id` and whatever the index has at `(row, col)`.
    pub fn remove(&mut self, id: usize, row: usize, col: usize)
        ensures
            final(self).npc_id == old(self).npc_id,
            final(self).npc_list@ == old(self).npc_list@.remove(id),
            final(self).loc_index@ == old(self).loc_index@.remove((row, col)),
    {
        self.npc_list.remove(&id);
        self.loc_index.remove(&(row, col));
    }

    /// Tells the boss `boss_id`, if it still lives, that one of its minions
    /// is gone. A boss without minions stays without.
    pub fn minion_killed(&mut self, boss_id: usize)
        ensures
            final(self).npc_id == old(self).npc_id,
            final(self).loc_index@ == old(self).loc_index@,
            final(self).npc_list@ == if old(self).npc_list@.contains_key(boss_id) {
                let boss = old(self).npc_list@[boss_id];
                old(self).npc_list@.insert(
                    boss_id,
                    (Monster {
                        minions: if boss.minions > 0 { (boss.minions - 1) as u8 } else { 0 },
                        ..boss
                    }),
                )
            } else {
                old(self).npc_list@
            },
    {
        let found = match self.npc_list.get(&boss_id) {
            Some(b) => Some(b.clone()),
            None => None,
        };
        match found {
            Some(mut boss) => {
                if boss.minions > 0 {
                    boss.minions = boss.minions - 1;
                }
                self.npc_list.insert(boss_id, boss);
            },
            None => {
                assert(self.npc_list@ =~= old(self).npc_list@);
            },
        }
    }

    /// The gender that goes with a draw from a hundred.
    pub fn gender_from(draw: u8) -> (res: u8)
        ensures
            res == gender_for(draw),
    {
        if draw < 33 { 1 } else if draw < 66 { 2 } else { 0 }
    }

    /// Takes the creature `m` into the lists, on the cell `(row, col)`.
    fn enlist(&mut self, m: Monster, row: usize, col: usize)
        requires
            m.id == old(self).npc_id,
        ensures
            final(self).npc_id == old(self).npc_id,
            final(self).npc_list@ == old(self).npc_list@.insert(m.id, m),
            final(self).loc_index@ == old(self).loc_index@.insert((row, col), m.id),
    {
        let id: usize = m.id;
        self.npc_list.insert(id, m);
        self.loc_index.insert((row, col), id);
    }

    /// One of the merfolk comes to `(row, col)`, on the watch for sailors.
    pub fn new_merperson(&mut self, row: usize, col: usize)
        requires
            old(self).npc_id < usize::MAX,
        ensures
            enlisted(*old(self), *final(self), row, col),
            exists|draw: u8|
                draw < 100 && ({
                    let m = final(self).npc_list@[final(self).npc_id];
                    &&& monster_is(
                        m,
                        final(self).npc_id,
                        m.hp,
                        row,
                        col,
                        (Stats {
                            name: #[trigger] merfolk_name_for(draw),
                            ..stats_of(NPCType::Merfolk)
                        }),
                        (Traits {
                            aware_of_player: true,
                            gender: gender_for(draw),
                            ..plain_traits()
                        }),
                    )
                    &&& 2 <= m.hp <= 16
                }),
    {
        self.npc_id += 1;
        let id: usize = self.npc_id;
        let hp: u8 = roll(8, 2, 0);
        let draw: u8 = random_below(100);
        let name = if draw < 33 {
            String::from_str("mermaid")
        } else if draw < 66 {
            String::from_str("merman")
        } else {
            String::from_str("merperson")
        };
        let mut m = Monster::new(
            name,
            id,
            NPCType::Merfolk,
            13,
            hp,
            'y',
            row,
            col,
            YELLOW_ORANGE,
            5,
            1,
            1,
            0,
            10,
        );
        m.aware_of_player = true;
        m.gender = NPCTracker::gender_from(draw);
        self.enlist(m, row, col);
        proof {
            assert(merfolk_name_for(draw) == self.npc_list@[self.npc_id].name@);
        }
    }

    /// A skeleton rises on `(row, col)` for the boss `boss_id`.
    pub fn new_skeleton(&mut self, row: usize, col: usize, boss_id: usize)
        requires
            old(self).npc_id < usize::MAX,
        ensures
            enlisted(*old(self), *final(self), row, col),
            ({
                let m = final(self).npc_list@[final(self).npc_id];
                &&& monster_is(
                    m,
                    final(self).npc_id,
                    m.hp,
                    row,
                    col,
                    stats_of(NPCType::Skeleton),
                    (Traits { boss: boss_id, ..plain_traits() }),
                )
                &&& 3 <= m.hp <= 13
            }),
    {
        self.npc_id += 1;
        let id: usize = self.npc_id;
        let hp: u8 = roll(6, 2, 1);
        let mut s = Monster::new(
            String::from_str("skeletal pirate"),
            id,
            NPCType::Skeleton,
            13,
            hp,
            'Z',
            row,
            col,
            WHITE,
            4,
            0,
            0,
            0,
            5,
        );
        s.boss = boss_id;
        self.enlist(s, row, col);
    }

    /// An undead captain comes to `(row, col)` with `initial_minion_count`
    /// minions to its name; the answer is its identifier.
    pub fn new_undead_boss(&mut self, row: usize, col: usize, initial_minion_count: u8) -> (id:
        usize)
        requires
            old(self).npc_id < usize::MAX,
        ensures
            id == final(self).npc_id,
            enlisted(*old(self), *final(self), row, col),
            ({
                let m = final(self).npc_list@[final(self).npc_id];
                &&& monster_is(
                    m,
                    final(self).npc_id,
                    m.hp,
                    row,
                    col,
                    stats_of(NPCType::UndeadCaptain),
                    (Traits { minions: initial_minion_count, ..plain_traits() }),
                )
                &&& 4 <= m.hp <= 24
            }),
    {
        self.npc_id += 1;
        let id: usize = self.npc_id;
        let hp: u8 = roll(6, 4, 0);
        let mut s = Monster::new(
            String::from_str("undead pirate captain"),
            id,
            NPCType::UndeadCaptain,
            14,
            hp,
            'Z',
            row,
            col,
            BRIGHT_RED,
            5,
            8,
            1,
            0,
            15,
        );
        s.minions = initial_minion_count;
        self.enlist(s, row, col);
        id
    }

    /// A marooned pirate comes to `(row, col)`, and will not stray far from `anchor`.
    pub fn new_pirate(&mut self, row: usize, col: usize, anchor: Coord)
        requires
            old(self).npc_id < usize::MAX,
        ensures
            enlisted(*old(self), *final(self), row, col),
            ({
                let m = final(self).npc_list@[final(self).npc_id];
                &&& monster_is(
                    m,
                    final(self).npc_id,
                    m.hp,
                    row,
                    col,
                    stats_of(NPCType::MaroonedPirate),
                    (Traits { anchor, gender: m.gender, ..plain_traits() }),
                )
                &&& 2 <= m.hp <= 16
                &&& m.gender <= 2
            }),
    {
        self.npc_id += 1;
        let id: usize = self.npc_id;
        let hp: u8 = roll(8, 2, 0);
        let mut p = Monster::new(
            String::from_str("marooned pirate"),
            id,
            NPCType::MaroonedPirate,
            14,
            hp,
            '@',
            row,
            col,
            GREY,
            5,
            6,
            1,
            0,
            10,
        );
        p.anchor = anchor;
        p.gender = NPCTracker::gender_from(random_below(100));
        self.enlist(p, row, col);
    }

    /// A castaway comes to `(row, col)`: peaceful, not straying far from
    /// `anchor`, and with one thing to say.
    pub fn new_castaway(&mut self, row: usize, col: usize, anchor: Coord, voice_line: String)
        requires
            old(self).npc_id < usize::MAX,
        ensures
            enlisted(*old(self), *final(self), row, col),
            ({
                let m = final(self).npc_list@[final(self).npc_id];
                &&& monster_is(
                    m,
                    final(self).npc_id,
                    m.hp,
                    row,
                    col,
                    stats_of(NPCType::Castaway),
                    (Traits {
                        anchor,
                        gender: m.gender,
                        hostile: false,
                        voice_line: voice_line@,
                        ..plain_traits()
                    }),
                )
                &&& 1 <= m.hp <= 8
                &&& m.gender <= 2
            }),
    {
        self.npc_id += 1;
        let id: usize = self.npc_id;
        let hp: u8 = roll(8, 1, 0);
        let mut c = Monster::new(
            String::from_str("castaway"),
            id,
            NPCType::Castaway,
            10,
            hp,
            '@',
            row,
            col,
            GREY,
            3,
            6,
            1,
            0,
            0,
        );
        c.anchor = anchor;
        c.voice_line = voice_line;
        c.gender = NPCTracker::gender_from(random_below(100));
        c.hostile = false;
        self.enlist(c, row, col);
    }

    /// The colour of a snake that goes with a draw from a hundred.
    pub fn snake_colour_from(draw: u8) -> (res: Rgb)
        ensures
            res == snake_colour_for(draw),
    {
        if draw < 33 { BRIGHT_RED } else if draw < 66 { GOLD } else { GREEN }
    }

    /// A snake comes to `(row, col)`: red, golden or green, and poisonous.
    pub fn new_snake(&mut self, row: usize, col: usize)
        requires
            old(self).npc_id < usize::MAX,
        ensures
            enlisted(*old(self), *final(self), row, col),
            exists|draw: u8|
                draw < 100 && ({
                    let m = final(self).npc_list@[final(self).npc_id];
                    &&& monster_is(
                        m,
                        final(self).npc_id,
                        m.hp,
                        row,
                        col,
                        (Stats {
                            color: #[trigger] snake_colour_for(draw),
                            ..stats_of(NPCType::Snake)
                        }),
                        (Traits { special_dmg: "poison"@, ..plain_traits() }),
                    )
                    &&& 2 <= m.hp <= 12
                }),
    {
        self.npc_id += 1;
        let id: usize = self.npc_id;
        let hp: u8 = roll(6, 2, 0);
        let draw: u8 = random_below(100);
        let colour = NPCTracker::snake_colour_from(draw);
        let mut s = Monster::new(
            String::from_str("snake"),
            id,
            NPCType::Snake,
            14,
            hp,
            'S',
            row,
            col,
            colour,
            4,
            4,
            1,
            0,
            10,
        );
        s.special_dmg = String::from_str("poison");
        self.enlist(s, row, col);
        proof {
            assert(snake_colour_for(draw) == self.npc_list@[self.npc_id].color);
        }
    }

    /// A shark comes to `(row, col)`.
    pub fn new_shark(&mut self, row: usize, col: usize)
        requires
            old(self).npc_id < usize::MAX,
        ensures
            enlisted(*old(self), *final(self), row, col),
            ({
                let m = final(self).npc_list@[final(self).npc_id];
                &&& fresh_monster(m, final(self).npc_id, m.hp, row, col, stats_of(NPCType::Shark))
                &&& 3 <= m.hp <= 18
            }),
    {
        self.npc_id += 1;
        let id: usize = self.npc_id;
        let hp: u8 = roll(6, 3, 0);
        let s = Monster::new(
            String::from_str("shark"),
            id,
            NPCType::Shark,
            12,
            hp,
            '^',
            row,
            col,
            GREY,
            4,
            8,
            1,
            2,
            10,
        );
        self.enlist(s, row, col);
    }

    /// A panther comes to `(row, col)`, always on the hunt.
    pub fn new_panther(&mut self, row: usize, col: usize)
        requires
            old(self).npc_id < usize::MAX,
        ensures
            enlisted(*old(self), *final(self), row, col),
            ({
                let m = final(self).npc_list@[final(self).npc_id];
                &&& monster_is(
                    m,
                    final(self).npc_id,
                    m.hp,
                    row,
                    col,
                    stats_of(NPCType::Panther),
                    (Traits { aware_of_player: true, ..plain_traits() }),
                )
                &&& 4 <= m.hp <= 32
            }),
    {
        self.npc_id += 1;
        let id: usize = self.npc_id;
        let hp: u8 = roll(8, 4, 0);
        let mut p = Monster::new(
            String::from_str("panther"),
            id,
            NPCType::Panther,
            12,
            hp,
            'f',
            row,
            col,
            BLUE,
            5,
            12,
            1,
            2,
            10,
        );
        p.aware_of_player = true;
        self.enlist(p, row, col);
    }

    /// A wild boar comes to `(row, col)`.
    pub fn new_boar(&mut self, row: usize, col: usize)
        requires
            old(self).npc_id < usize::MAX,
        ensures
            enlisted(*old(self), *final(self), row, col),
            ({
                let m = final(self).npc_list@[final(self).npc_id];
                &&& fresh_monster(m, final(self).npc_id, m.hp, row, col, stats_of(NPCType::Boar))
                &&& 2 <= m.hp <= 10
            }),
    {
        self.npc_id += 1;
        let id: usize = self.npc_id;
        let hp: u8 = roll(5, 2, 0);
        let b = Monster::new(
            String::from_str("wild boar"),
            id,
            NPCType::Boar,
            12,
            hp,
            'b',
            row,
            col,
            DARK_BROWN,
            4,
            6,
            1,
            2,
            5,
        );
        self.enlist(b, row, col);
    }
}

} // verus!
