use std::collections::HashSet;

use yarrl::items::{
    fetish_name_for, make_item, note_text_for, Draws, Inventory, Item, ItemType, ItemsTable,
    TileInfo,
};

fn draws() -> Draws {
    Draws { fuel: 0, fetish: 0, stat: 0 }
}

fn from_catalogue(name: &str) -> Item {
    Item::get_item(name).expect("the catalogue has it")
}

fn torch(fuel: u16) -> Item {
    make_item("torch", Draws { fuel, fetish: 0, stat: 0 }).expect("the catalogue has it")
}

#[test]
fn new_item_is_plain() {
    let i = Item::new("parrot", ItemType::Food, 2, true, 'p', (1, 2, 3));
    assert_eq!(i.name, "parrot");
    assert_eq!(i.item_type, ItemType::Food);
    assert_eq!((i.weight, i.symbol, i.color, i.stackable), (2, 'p', (1, 2, 3), true));
    assert_eq!((i.prev_slot, i.dmg, i.dmg_dice, i.bonus, i.range, i.armour_value), ('\0', 1, 1, 0, 0, 0));
    assert!(!i.equiped && !i.loaded && !i.hidden && !i.activated);
    assert_eq!((i.nw_corner, i.x_coord, i.of_map_id, i.fuel, i.stat_bonus), ((0, 0), (0, 0), 0, 0, (0, 0)));
    assert_eq!(i.get_tile_info(), ((1, 2, 3), 'p'));
    assert!(i.has_same_name(&Item::new("parrot", ItemType::Coin, 9, false, 'q', (0, 0, 0))));
    assert!(i == Item::new("parrot", ItemType::Coin, 9, false, 'q', (0, 0, 0)));
    assert!(i != Item::new("carrot", ItemType::Food, 2, true, 'p', (1, 2, 3)));
    assert!(!i.has_same_name(&Item::new("carrot", ItemType::Food, 2, true, 'p', (1, 2, 3))));
}

#[test]
fn articles_of_items() {
    let egg = Item::new("egg", ItemType::Food, 1, true, '%', (0, 0, 0));
    let yam = Item::new("yam", ItemType::Food, 1, true, '%', (0, 0, 0));
    let rum = Item::new("rum", ItemType::Drink, 1, true, '!', (0, 0, 0));
    let nameless = Item::new("", ItemType::Drink, 1, true, '!', (0, 0, 0));
    let chest = Item::get_macguffin("Kidd");
    assert_eq!(egg.get_indefinite_article(), "an");
    assert_eq!(yam.get_indefinite_article(), "an");
    assert_eq!(rum.get_indefinite_article(), "a");
    assert_eq!(nameless.get_indefinite_article(), "a");
    assert_eq!(chest.get_indefinite_article(), "");
    assert_eq!(rum.get_definite_article(), "the");
    assert_eq!(chest.get_definite_article(), "");
}

#[test]
fn what_can_be_worn_or_wielded() {
    let kinds = [
        (ItemType::Weapon, true),
        (ItemType::Coat, true),
        (ItemType::Hat, true),
        (ItemType::Shoes, false),
        (ItemType::Drink, false),
        (ItemType::Firearm, true),
        (ItemType::Bullet, false),
        (ItemType::Coin, false),
        (ItemType::TreasureMap, false),
        (ItemType::Food, false),
        (ItemType::EyePatch, true),
        (ItemType::Note, false),
        (ItemType::MacGuffin, false),
        (ItemType::Light, false),
        (ItemType::Fuel, false),
        (ItemType::Fetish, true),
    ];
    for (kind, expected) in kinds {
        assert_eq!(Item::new("x", kind, 0, false, 'x', (0, 0, 0)).equipable(), expected);
    }
}

#[test]
fn special_items() {
    let map = Item::get_map((3, 4), (10, 12), 2);
    assert_eq!((map.name.as_str(), map.item_type, map.symbol), ("treasure map", ItemType::TreasureMap, '?'));
    assert_eq!((map.nw_corner, map.x_coord, map.of_map_id), ((3, 4), (10, 12), 2));
    assert_eq!((map.weight, map.stackable, map.color), (0, false, (255, 255, 255)));
    let chest = Item::get_macguffin("Anne Bonny");
    assert_eq!((chest.name.as_str(), chest.item_type, chest.symbol), ("Anne Bonny's chest", ItemType::MacGuffin, '='));
    assert!(chest.hidden);
    assert_eq!(chest.color, (255, 215, 0));
    let note = Item::get_note(7);
    assert_eq!((note.name.as_str(), note.item_type, note.bonus), ("scrap of paper", ItemType::Note, 7));
    assert!(!note.hidden);
}

#[test]
fn full_names_tell_of_use() {
    let mut cutlass = from_catalogue("rusty cutlass");
    assert_eq!(cutlass.get_full_name(), "rusty cutlass");
    cutlass.equiped = true;
    assert_eq!(cutlass.get_full_name(), "rusty cutlass (in hand)");
    let mut pistol = from_catalogue("flintlock pistol");
    pistol.equiped = true;
    assert_eq!(pistol.get_full_name(), "flintlock pistol (in hand)");
    let mut hat = from_catalogue("battered tricorn");
    hat.equiped = true;
    assert_eq!(hat.get_full_name(), "battered tricorn (being worn)");
    let mut patch = from_catalogue("magic eye patch");
    patch.equiped = true;
    assert_eq!(patch.get_full_name(), "magic eye patch (being worn)");
    let mut fetish = make_item("fetish", Draws { fuel: 0, fetish: 3, stat: 1 }).unwrap();
    fetish.equiped = true;
    assert_eq!(fetish.get_full_name(), "bone fetish (active)");
    let mut lantern = from_catalogue("lantern");
    assert_eq!(lantern.get_full_name(), "lantern");
    lantern.activated = true;
    assert_eq!(lantern.get_full_name(), "lantern (lit)");
    let mut rum = from_catalogue("draught of rum");
    rum.equiped = true;
    assert_eq!(rum.get_full_name(), "draught of rum");
}

#[test]
fn catalogue_entries() {
    let rum = make_item("draught of rum", draws()).unwrap();
    assert_eq!((rum.item_type, rum.weight, rum.stackable, rum.symbol, rum.bonus), (ItemType::Drink, 1, true, '!', 15));
    assert_eq!(rum.color, (150, 75, 0));
    let cutlass = make_item("rusty cutlass", draws()).unwrap();
    assert_eq!((cutlass.item_type, cutlass.weight, cutlass.stackable, cutlass.dmg, cutlass.dmg_dice), (ItemType::Weapon, 3, false, 5, 1));
    let tricorn = make_item("battered tricorn", draws()).unwrap();
    assert_eq!((tricorn.item_type, tricorn.armour_value, tricorn.symbol), (ItemType::Hat, 1, '['));
    let jerkin = make_item("leather jerkin", draws()).unwrap();
    assert_eq!((jerkin.item_type, jerkin.weight, jerkin.armour_value), (ItemType::Coat, 2, 1));
    let overcoat = make_item("overcoat", draws()).unwrap();
    assert_eq!((overcoat.item_type, overcoat.weight, overcoat.armour_value, overcoat.color), (ItemType::Coat, 3, 2, (0, 0, 200)));
    let boots = make_item("stout boots", draws()).unwrap();
    assert_eq!((boots.item_type, boots.weight, boots.armour_value), (ItemType::Shoes, 2, 2));
    let patch = make_item("magic eye patch", draws()).unwrap();
    assert_eq!((patch.item_type, patch.weight, patch.armour_value, patch.color), (ItemType::EyePatch, 0, 0, (208, 28, 31)));
    let pistol = make_item("flintlock pistol", draws()).unwrap();
    assert_eq!((pistol.item_type, pistol.loaded, pistol.dmg, pistol.dmg_dice, pistol.range), (ItemType::Firearm, true, 6, 2, 6));
    let corroded = make_item("corroded flintlock", draws()).unwrap();
    assert_eq!((corroded.item_type, corroded.loaded, corroded.dmg, corroded.dmg_dice, corroded.range), (ItemType::Firearm, false, 5, 2, 6));
    let ball = make_item("lead ball", draws()).unwrap();
    assert_eq!((ball.item_type, ball.stackable, ball.symbol, ball.color), (ItemType::Bullet, true, '*', (136, 136, 136)));
    let doubloon = make_item("doubloon", draws()).unwrap();
    assert_eq!((doubloon.item_type, doubloon.stackable, doubloon.symbol), (ItemType::Coin, true, '$'));
    assert_eq!(make_item("coconut", draws()).unwrap().bonus, 7);
    assert_eq!(make_item("banana", draws()).unwrap().bonus, 5);
    assert_eq!(make_item("salted pork", draws()).unwrap().bonus, 3);
    assert_eq!(make_item("banana", draws()).unwrap().symbol, '(');
    let lantern = make_item("lantern", Draws { fuel: 222, fetish: 0, stat: 0 }).unwrap();
    assert_eq!((lantern.item_type, lantern.stackable, lantern.fuel), (ItemType::Light, false, 222));
    let torch = make_item("torch", Draws { fuel: 30, fetish: 0, stat: 0 }).unwrap();
    assert_eq!((torch.item_type, torch.stackable, torch.fuel, torch.color), (ItemType::Light, true, 30, (150, 75, 0)));
    let oil = make_item("flask of oil", draws()).unwrap();
    assert_eq!((oil.item_type, oil.stackable, oil.symbol), (ItemType::Fuel, true, '!'));
    let fetish = make_item("fetish", Draws { fuel: 0, fetish: 4, stat: 3 }).unwrap();
    assert_eq!((fetish.name.as_str(), fetish.item_type, fetish.stat_bonus, fetish.symbol), ("seashell fetish", ItemType::Fetish, (3, 2), ';'));
    assert_eq!(fetish.color, (255, 159, 0));
    assert!(make_item("kraken", draws()).is_none());
    assert!(make_item("", draws()).is_none());
}

#[test]
fn chance_stays_within_its_bounds_in_the_catalogue() {
    for _ in 0..200 {
        let lantern = from_catalogue("lantern");
        assert!((100..300).contains(&lantern.fuel));
        let torch = from_catalogue("torch");
        assert!((25..100).contains(&torch.fuel));
        let fetish = from_catalogue("fetish");
        assert!(fetish.name.ends_with(" fetish") && fetish.name != "scrimshaw fetish");
        assert!(fetish.stat_bonus.0 < 4 && fetish.stat_bonus.1 == 2);
        assert_eq!(from_catalogue("doubloon").fuel, 0);
    }
    assert!(Item::get_item("kraken").is_none());
}

#[test]
fn names_of_fetishes_and_texts_of_notes() {
    let names: Vec<String> = (0..8).map(fetish_name_for).collect();
    assert_eq!(
        names,
        vec![
            "ugly fetish",
            "smelly fetish",
            "cloth fetish",
            "bone fetish",
            "seashell fetish",
            "ivory fetish",
            "wood fetish",
            "scrimshaw fetish"
        ]
    );
    assert_eq!(note_text_for(0, "Fancy"), "A ship's manifest from the Fancy.");
    assert_eq!(note_text_for(1, "Fancy"), "A love letter addressed to the bosun of the Fancy.");
    assert_eq!(note_text_for(2, "Fancy"), "'Wanted for piracy, the crew of the Fancy.'");
    assert_eq!(note_text_for(3, "Fancy"), "An invoice for 10 barrels of beer for the Fancy.");
    for _ in 0..50 {
        let text = Item::get_note_text("Rover");
        assert!((0..4).any(|r| note_text_for(r, "Rover") == text));
    }
}

#[test]
fn inventory_fills_slots_in_turn_and_stacks() {
    let mut inv = Inventory::new();
    assert_eq!(inv.next_slot, 'a');
    assert!(inv.get_menu().is_empty());
    inv.add(from_catalogue("rusty cutlass"));
    inv.add(from_catalogue("leather jerkin"));
    inv.add(from_catalogue("draught of rum"));
    inv.add(from_catalogue("draught of rum"));
    inv.add(from_catalogue("draught of rum"));
    assert_eq!(inv.next_slot, 'd');
    assert_eq!(inv.count_in_slot('a'), 1);
    assert_eq!(inv.count_in_slot('c'), 3);
    assert_eq!(inv.count_in_slot('d'), 0);
    assert_eq!(inv.item_type_in_slot('b'), Some(ItemType::Coat));
    assert_eq!(inv.item_type_in_slot('z'), None);
    assert_eq!(inv.peek_at('a').map(|i| i.name), Some(String::from("rusty cutlass")));
    assert!(inv.peek_at('q').is_none());
    assert_eq!(inv.count_of_item("draught of rum"), Some((3, 'c')));
    assert_eq!(inv.count_of_item("doubloon"), None);
    assert_eq!(inv.get_menu(), vec!["a) a rusty cutlass", "b) a leather jerkin", "c) draught of rum x3"]);
}

#[test]
fn items_that_do_not_stack_get_slots_of_their_own() {
    let mut inv = Inventory::new();
    inv.add(from_catalogue("rusty cutlass"));
    inv.add(from_catalogue("rusty cutlass"));
    assert_eq!((inv.count_in_slot('a'), inv.count_in_slot('b'), inv.next_slot), (1, 1, 'c'));
}

#[test]
fn removing_frees_slots_and_items_remember_theirs() {
    let mut inv = Inventory::new();
    inv.add(from_catalogue("rusty cutlass"));
    inv.add(from_catalogue("doubloon"));
    inv.add(from_catalogue("doubloon"));
    inv.add(from_catalogue("doubloon"));
    let two = inv.remove_count('b', 2);
    assert_eq!(two.len(), 2);
    assert!(two.iter().all(|i| i.name == "doubloon" && i.prev_slot == 'b'));
    assert_eq!(inv.count_in_slot('b'), 1);
    let rest = inv.remove_count('b', 9);
    assert_eq!(rest.len(), 1);
    assert_eq!(inv.count_in_slot('b'), 0);
    assert_eq!(inv.next_slot, 'c');
    let cutlass = inv.remove('a');
    assert_eq!((cutlass.name.as_str(), cutlass.prev_slot), ("rusty cutlass", 'a'));
    assert!(inv.get_menu().is_empty());
    inv.add(from_catalogue("overcoat"));
    assert_eq!(inv.item_type_in_slot('c'), Some(ItemType::Coat));
    inv.add(cutlass);
    assert_eq!(inv.item_type_in_slot('a'), Some(ItemType::Weapon));
    assert_eq!(inv.get_menu(), vec!["a) a rusty cutlass", "c) a overcoat"]);
}

#[test]
fn full_inventory_has_no_next_slot_until_one_is_freed() {
    let mut inv = Inventory::new();
    for _ in 0..25 {
        inv.add(from_catalogue("rusty cutlass"));
    }
    assert_eq!(inv.next_slot, 'z');
    inv.add(from_catalogue("rusty cutlass"));
    assert_eq!(inv.next_slot, '\0');
    assert_eq!(inv.get_menu().len(), 26);
    let freed = inv.remove('m');
    assert_eq!(inv.next_slot, 'm');
    assert_eq!(freed.prev_slot, 'm');
    inv.remove('c');
    assert_eq!(inv.next_slot, 'm');
    let mut hat = from_catalogue("battered tricorn");
    hat.prev_slot = 'x';
    inv.add(hat);
    assert_eq!(inv.item_type_in_slot('m'), Some(ItemType::Hat));
    assert_eq!(inv.next_slot, 'c');
}

#[test]
fn next_slot_goes_round_after_z() {
    let mut inv = Inventory::new();
    for _ in 0..26 {
        inv.add(from_catalogue("rusty cutlass"));
    }
    inv.remove('b');
    inv.remove('y');
    assert_eq!(inv.next_slot, 'b');
    inv.next_slot = 'x';
    inv.set_next_slot();
    assert_eq!(inv.next_slot, 'y');
    inv.add(from_catalogue("overcoat"));
    assert_eq!(inv.item_type_in_slot('y'), Some(ItemType::Coat));
    assert_eq!(inv.next_slot, 'b');
}

#[test]
fn stack_stops_growing_at_what_a_byte_holds() {
    let mut inv = Inventory::new();
    for _ in 0..300 {
        inv.add(from_catalogue("lead ball"));
    }
    assert_eq!(inv.count_in_slot('a'), 255);
    assert_eq!(inv.count_in_slot('b'), 0);
}

#[test]
fn putting_on_and_off() {
    let mut inv = Inventory::new();
    inv.add(from_catalogue("rusty cutlass"));
    inv.add(from_catalogue("rusty cutlass"));
    inv.add(from_catalogue("draught of rum"));
    inv.add(from_catalogue("battered tricorn"));
    assert_eq!(inv.toggle_slot('q'), (String::from("You do not have that item!"), false));
    assert_eq!(inv.toggle_slot('c'), (String::from("You cannot equip or use that!"), false));
    assert!(inv.get_equiped_weapon().is_none());
    assert!(!inv.type_already_equiped(ItemType::Weapon));
    assert_eq!(inv.toggle_slot('a'), (String::from("You equip the rusty cutlass."), true));
    assert!(inv.type_already_equiped(ItemType::Weapon));
    assert_eq!(inv.get_equiped_weapon().map(|w| w.equiped), Some(true));
    assert_eq!(inv.toggle_slot('b'), (String::from("You are already holding a weapon."), false));
    assert_eq!(inv.toggle_slot('d'), (String::from("You equip the battered tricorn."), true));
    assert_eq!(inv.total_armour_value(), 1);
    assert_eq!(inv.get_menu()[0], "a) a rusty cutlass (in hand)");
    assert_eq!(inv.toggle_slot('a'), (String::from("You unequip the rusty cutlass."), true));
    assert_eq!(inv.toggle_slot('b'), (String::from("You equip the rusty cutlass."), true));
    assert_eq!(inv.toggle_slot('d'), (String::from("You unequip the battered tricorn."), true));
    assert_eq!(inv.total_armour_value(), 0);
}

#[test]
fn one_of_each_kind_at_a_time() {
    let cases = [
        ("flintlock pistol", "You are already holding a gun."),
        ("battered tricorn", "You are already wearing a hat."),
        ("overcoat", "You are already wearing a coat."),
        ("magic eye patch", "You are already wearing an eye patch."),
        ("fetish", "Ye can benefit from just one fetish at a time."),
    ];
    for (name, message) in cases {
        let mut inv = Inventory::new();
        inv.add(from_catalogue(name));
        inv.add(from_catalogue(name));
        assert!(inv.toggle_slot('a').1);
        assert_eq!(inv.toggle_slot('b'), (String::from(message), false));
    }
}

#[test]
fn armour_adds_up_over_what_is_worn() {
    let mut inv = Inventory::new();
    inv.add(from_catalogue("overcoat"));
    inv.add(from_catalogue("battered tricorn"));
    inv.add(from_catalogue("leather jerkin"));
    assert_eq!(inv.total_armour_value(), 0);
    inv.toggle_slot('a');
    inv.toggle_slot('b');
    assert_eq!(inv.total_armour_value(), 3);
    let mut heavy = Inventory::new();
    for _ in 0..3 {
        let mut plate = Item::new("plate", ItemType::Shoes, 9, false, '[', (0, 0, 0));
        plate.armour_value = 100;
        plate.equiped = true;
        heavy.add(plate);
    }
    assert_eq!(heavy.total_armour_value(), 127);
}

#[test]
fn eye_patch_counts_when_worn() {
    let mut inv = Inventory::new();
    inv.add(from_catalogue("magic eye patch"));
    assert!(!inv.equiped_magic_eye_patch());
    inv.toggle_slot('a');
    assert!(inv.equiped_magic_eye_patch());
}

#[test]
fn firearm_in_hand_is_fired_and_loaded() {
    let mut inv = Inventory::new();
    inv.add(from_catalogue("flintlock pistol"));
    inv.firearm_fired();
    assert_eq!(inv.peek_at('a').map(|g| g.loaded), Some(true));
    assert!(inv.get_equiped_firearm().is_none());
    inv.toggle_slot('a');
    assert_eq!(inv.get_equiped_firearm().map(|g| g.loaded), Some(true));
    inv.firearm_fired();
    assert_eq!(inv.get_equiped_firearm().map(|g| g.loaded), Some(false));
    inv.reload_firearm();
    assert_eq!(inv.get_equiped_firearm().map(|g| g.loaded), Some(true));
}

#[test]
fn bullets_are_used_one_by_one() {
    let mut inv = Inventory::new();
    inv.add(from_catalogue("rusty cutlass"));
    assert!(!inv.find_ammo());
    inv.add(from_catalogue("lead ball"));
    inv.add(from_catalogue("lead ball"));
    assert!(inv.find_ammo());
    assert_eq!(inv.count_in_slot('b'), 1);
    assert!(inv.find_ammo());
    assert_eq!(inv.count_in_slot('b'), 0);
    assert!(!inv.find_ammo());
    assert_eq!(inv.count_in_slot('a'), 1);
}

#[test]
fn lights_are_lit_and_put_out() {
    let mut inv = Inventory::new();
    let mut lantern = from_catalogue("lantern");
    lantern.fuel = 2;
    inv.add(lantern);
    assert!(!inv.active_light_source());
    assert_eq!(inv.toggle_slot('a'), (String::from("You ignite the lantern."), true));
    assert!(inv.active_light_source());
    assert_eq!(inv.get_menu(), vec!["a) a lantern (lit)"]);
    assert_eq!(inv.toggle_slot('a'), (String::from("You extinguish the lantern."), true));
    assert!(!inv.active_light_source());
    let mut dry = Inventory::new();
    let mut lantern = from_catalogue("lantern");
    lantern.fuel = 0;
    dry.add(lantern);
    assert_eq!(dry.toggle_slot('a'), (String::from("Your lantern is out of fuel."), false));
    assert!(!dry.active_light_source());
}

#[test]
fn one_torch_is_lit_from_a_stack() {
    let mut inv = Inventory::new();
    inv.add(torch(40));
    inv.add(torch(40));
    inv.add(torch(40));
    assert_eq!(inv.count_in_slot('a'), 3);
    assert_eq!(inv.toggle_slot('a'), (String::from("You light the torch."), true));
    assert_eq!(inv.count_in_slot('a'), 2);
    assert_eq!(inv.count_in_slot('b'), 1);
    let lit = inv.peek_at('b').unwrap();
    assert!(lit.activated && !lit.stackable && lit.prev_slot == 'a');
    assert!(!inv.peek_at('a').unwrap().activated);
    assert!(inv.active_light_source());
    assert_eq!(inv.next_slot, 'c');
    assert_eq!(inv.get_menu(), vec!["a) torch x2", "b) a torch (lit)"]);
}

#[test]
fn lights_burn_down_and_spent_torches_are_thrown_away() {
    let mut inv = Inventory::new();
    let mut lantern = from_catalogue("lantern");
    lantern.fuel = 2;
    lantern.activated = true;
    inv.add(lantern);
    let mut lit_torch = torch(1);
    lit_torch.activated = true;
    lit_torch.stackable = false;
    inv.add(lit_torch);
    inv.add(torch(50));
    inv.add(from_catalogue("rusty cutlass"));
    let out = inv.check_fueled_items().unwrap();
    assert_eq!(out.len(), 1);
    assert_eq!((out[0].name.as_str(), out[0].fuel, out[0].activated), ("torch", 0, false));
    assert_eq!(inv.count_in_slot('b'), 0);
    assert_eq!(inv.peek_at('a').map(|l| (l.fuel, l.activated)), Some((1, true)));
    assert_eq!(inv.peek_at('c').map(|t| (t.fuel, t.activated)), Some((50, false)));
    let out = inv.check_fueled_items().unwrap();
    assert_eq!(out.len(), 1);
    assert_eq!((out[0].name.as_str(), out[0].fuel, out[0].activated), ("lantern", 0, false));
    assert_eq!(inv.count_in_slot('a'), 1);
    assert!(!inv.active_light_source());
    assert!(inv.check_fueled_items().unwrap().is_empty());
    assert_eq!(inv.get_menu(), vec!["a) a lantern", "c) a torch", "d) a rusty cutlass"]);
}

#[test]
fn menu_goes_by_the_letters_of_the_slots() {
    let mut inv = Inventory::new();
    let mut late = from_catalogue("banana");
    late.prev_slot = 'k';
    inv.add(late);
    let mut early = from_catalogue("coconut");
    early.prev_slot = 'c';
    inv.add(early);
    inv.add(from_catalogue("doubloon"));
    for _ in 0..11 {
        inv.add(from_catalogue("doubloon"));
    }
    assert_eq!(inv.get_menu(), vec!["a) doubloon x12", "c) a coconut", "k) a banana"]);
}

fn coin(name: &str, hidden: bool) -> Item {
    let mut c = Item::new(name, ItemType::Coin, 1, true, '$', (255, 215, 0));
    c.hidden = hidden;
    c
}

#[test]
fn piles_on_the_ground() {
    let mut ground = ItemsTable::new();
    assert_eq!(ground.count_at(1, 1), 0);
    assert!(!ground.any_hidden(&(1, 1)) && !ground.macguffin_here(&(1, 1)));
    ground.add(1, 1, coin("first", false));
    ground.add(1, 1, coin("second", true));
    ground.add(1, 1, coin("third", false));
    ground.add(2, 2, Item::get_macguffin("Kidd"));
    assert_eq!(ground.count_at(1, 1), 2);
    assert_eq!(ground.count_visible((1, 1)), 2);
    assert_eq!(ground.count_at(2, 2), 0);
    assert_eq!(ground.peek_top(1, 1).name, "third");
    assert_eq!(ground.top_visible(1, 1).map(|i| i.name.clone()), Some(String::from("third")));
    assert!(ground.top_visible(2, 2).is_none());
    assert!(ground.any_hidden(&(1, 1)) && ground.any_hidden(&(2, 2)));
    assert!(ground.macguffin_here(&(2, 2)) && !ground.macguffin_here(&(1, 1)));
    assert_eq!(ground.get_menu(1, 1), vec!["a) third", "b) second", "c) first"]);
    ground.reveal_hidden(&(1, 1));
    ground.reveal_hidden(&(5, 5));
    assert_eq!(ground.count_at(1, 1), 3);
    assert!(!ground.any_hidden(&(1, 1)) && ground.any_hidden(&(2, 2)));
    assert_eq!(ground.get_menu(1, 1), vec!["a) third", "b) second", "c) first"]);
    assert_eq!(ground.get_at(1, 1).name, "third");
    assert_eq!(ground.get_at(1, 1).name, "second");
    assert_eq!(ground.count_at(1, 1), 1);
    assert_eq!(ground.get_at(1, 1).name, "first");
    assert!(ground.get_menu(1, 1).is_empty());
    assert_eq!(ground.count_at(5, 5), 0);
}

#[test]
fn taking_several_from_a_pile() {
    let mut ground = ItemsTable::new();
    for name in ["e", "d", "c", "b", "a"] {
        ground.add(0, 0, coin(name, false));
    }
    let slots: HashSet<u8> = [0u8, 3, 1, 200].into_iter().collect();
    let taken: Vec<String> = ground.get_many_at(0, 0, &slots).into_iter().map(|i| i.name).collect();
    assert_eq!(taken, vec!["d", "b", "a"]);
    assert_eq!(ground.get_menu(0, 0), vec!["a) c", "b) e"]);
    let none: HashSet<u8> = HashSet::new();
    assert!(ground.get_many_at(0, 0, &none).is_empty());
    assert_eq!(ground.count_at(0, 0), 2);
}

#[test]
fn many_items_on_one_cell_are_counted_by_the_byte() {
    let mut ground = ItemsTable::new();
    for _ in 0..258 {
        ground.add(3, 3, coin("doubloon", false));
    }
    assert_eq!(ground.count_visible((3, 3)), 258);
    assert_eq!(ground.count_at(3, 3), 2);
}
