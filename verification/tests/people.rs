use yarrl::actor::{sort_stats, Monster, NPCTracker, NPCType, PirateType, Player};
use yarrl::display::SidebarInfo;
use yarrl::game::{
    ability_check_passes, attack_player, calc_bullet_ch, claims_rank, do_ability_check,
    gen_save_filename, get_move_tuple, is_putting_on_airs, player_takes_dmg, pluralize,
    sq_is_open, ExitReason, GameState,
};
use yarrl::items::ItemType;
use yarrl::map::Tile;
use yarrl::ship::{Ship, ShipsTable};
use yarrl::table::Table;
use yarrl::weather::Weather;

#[test]
fn modifier_is_half_the_score_less_five() {
    assert_eq!(Player::mod_for_stat(10), 0);
    assert_eq!(Player::mod_for_stat(11), 0);
    assert_eq!(Player::mod_for_stat(9), -1);
    assert_eq!(Player::mod_for_stat(0), -5);
    assert_eq!(Player::mod_for_stat(18), 4);
    assert_eq!(Player::mod_for_stat(20), 5);
    assert_eq!(Player::mod_for_stat(255), 122);
}

#[test]
fn four_numbers_the_greatest_first() {
    assert_eq!(sort_stats(1, 2, 3, 4), vec![4, 3, 2, 1]);
    assert_eq!(sort_stats(4, 3, 2, 1), vec![4, 3, 2, 1]);
    assert_eq!(sort_stats(2, 4, 1, 3), vec![4, 3, 2, 1]);
    assert_eq!(sort_stats(3, 1, 4, 2), vec![4, 3, 2, 1]);
    assert_eq!(sort_stats(7, 7, 9, 7), vec![9, 7, 7, 7]);
    assert_eq!(sort_stats(0, 255, 0, 255), vec![255, 255, 0, 0]);
    for _ in 0..100 {
        let stats = Player::roll_stats(2);
        assert_eq!(stats.len(), 4);
        assert!(stats.windows(2).all(|w| w[0] >= w[1]));
        assert!(stats.iter().all(|s| (5..=20).contains(s)));
    }
}

#[test]
fn swab_starts_with_cutlass_jerkin_and_rum() {
    for _ in 0..50 {
        let p = Player::new_swab(String::from("Anne"));
        assert_eq!(p.name, "Anne");
        assert_eq!(p.p_type, PirateType::Swab);
        assert_eq!(p.prof_bonus, 3);
        assert!(p.dexterity >= p.verve && p.verve >= p.strength && p.strength >= p.constitution);
        assert!((5..=20).contains(&p.dexterity) && (5..=20).contains(&p.constitution));
        assert_eq!(p.max_stamina, p.curr_stamina);
        let con = Player::mod_for_stat(p.constitution) as i32;
        assert!((12 + con..=40 + con).contains(&(p.max_stamina as i32)));
        assert_eq!(p.ac as i32, 11 + Player::mod_for_stat(p.dexterity) as i32);
        assert_eq!((p.row, p.col, p.on_ship, p.score, p.drunkeness), (0, 0, false, 0, 0));
        assert_eq!(
            p.inventory.get_menu(),
            vec!["a) a rusty cutlass (in hand)", "b) a leather jerkin (being worn)", "c) draught of rum x3"]
        );
    }
}

#[test]
fn seadog_starts_with_pistol_coat_hat_and_bullets() {
    for _ in 0..50 {
        let p = Player::new_seadog(String::from("Mary"));
        assert_eq!(p.p_type, PirateType::Seadog);
        assert_eq!(p.prof_bonus, 4);
        assert!(p.constitution >= p.strength && p.strength >= p.dexterity && p.dexterity >= p.verve);
        assert!((3..=18).contains(&p.constitution) && (3..=18).contains(&p.verve));
        let con = Player::mod_for_stat(p.constitution) as i32;
        assert!((14 + con..=56 + con).contains(&(p.max_stamina as i32)));
        assert_eq!(p.ac as i32, 13 + Player::mod_for_stat(p.dexterity) as i32);
        assert_eq!(
            p.inventory.get_menu(),
            vec![
                "a) a rusty cutlass (in hand)",
                "b) a flintlock pistol (in hand)",
                "c) a overcoat (being worn)",
                "d) a battered tricorn (being worn)",
                "e) draught of rum x3",
                "f) lead ball x12"
            ]
        );
        assert_eq!(p.inventory.item_type_in_slot('f'), Some(ItemType::Bullet));
    }
}

#[test]
fn stamina_comes_back_up_to_the_most() {
    let mut p = Player::new_swab(String::from("Anne"));
    p.max_stamina = 20;
    p.curr_stamina = 5;
    p.add_stamina(10);
    assert_eq!(p.curr_stamina, 15);
    p.add_stamina(10);
    assert_eq!(p.curr_stamina, 20);
    p.max_stamina = 255;
    p.curr_stamina = 250;
    p.add_stamina(200);
    assert_eq!(p.curr_stamina, 255);
}

#[test]
fn armour_class_never_falls_below_nought() {
    let mut p = Player::new_swab(String::from("Anne"));
    p.dexterity = 0;
    p.inventory.toggle_slot('b');
    p.calc_ac();
    assert_eq!(p.ac, 5);
    p.inventory.toggle_slot('b');
    p.dexterity = 16;
    p.calc_ac();
    assert_eq!(p.ac, 14);
    let mut cursed = yarrl::items::Item::new("cursed rags", ItemType::Shoes, 1, false, '[', (0, 0, 0));
    cursed.armour_value = -100;
    cursed.equiped = true;
    p.inventory.add(cursed);
    p.calc_ac();
    assert_eq!(p.ac, 0);
}

#[test]
fn damage_beyond_stamina_kills() {
    let mut p = Player::new_swab(String::from("Anne"));
    p.curr_stamina = 10;
    assert!(player_takes_dmg(&mut p, 4, "shark").is_ok());
    assert_eq!(p.curr_stamina, 6);
    assert!(player_takes_dmg(&mut p, 6, "shark").is_ok());
    assert_eq!(p.curr_stamina, 0);
    p.curr_stamina = 3;
    match player_takes_dmg(&mut p, 4, "wild boar") {
        Err(ExitReason::Death(source)) => assert_eq!(source, "wild boar"),
        _ => panic!("the player should be dead"),
    }
    assert_eq!(p.curr_stamina, 3);
}

#[test]
fn new_monster_is_hostile_and_unaware() {
    let m = Monster::new(String::from("kraken"), 7, NPCType::Shark, 15, 40, 'K', 3, 4, (1, 2, 3), 6, 10, 2, 3, 50);
    assert_eq!((m.name.as_str(), m.id, m.ac, m.hp, m.symbol, m.row, m.col), ("kraken", 7, 15, 40, 'K', 3, 4));
    assert_eq!((m.color, m.hit_bonus, m.dmg, m.dmg_dice, m.dmg_bonus, m.score), ((1, 2, 3), 6, 10, 2, 3, 50));
    assert!(m.npc_type == NPCType::Shark && m.hostile && !m.aware_of_player);
    assert_eq!((m.special_dmg.as_str(), m.voice_line.as_str(), m.gender, m.anchor, m.minions, m.boss), ("", "", 0, (0, 0), 0, 0));
    let copy = m.clone();
    assert_eq!((copy.name, copy.id, copy.hp), (m.name, m.id, m.hp));
}

#[test]
fn creatures_are_listed_and_found_by_place() {
    let mut npcs = NPCTracker::new();
    assert!(npcs.all_npc_ids().is_empty());
    assert!(!npcs.is_npc_at(1, 1));
    npcs.new_shark(1, 1);
    npcs.new_boar(2, 2);
    npcs.new_panther(3, 3);
    assert_eq!(npcs.all_npc_ids(), vec![1, 2, 3]);
    assert!(npcs.is_npc_at(1, 1) && npcs.is_npc_at(2, 2) && !npcs.is_npc_at(1, 2));
    assert_eq!(npcs.tile_info(1, 1), ('^', (136, 136, 136)));
    assert_eq!(npcs.tile_info(2, 2), ('b', (101, 67, 33)));
    assert_eq!(npcs.tile_info(3, 3), ('f', (0, 0, 200)));
    let shark = npcs.npc_with_id(1).unwrap();
    assert_eq!((shark.name.as_str(), shark.ac, shark.hit_bonus, shark.dmg, shark.dmg_dice, shark.dmg_bonus, shark.score), ("shark", 12, 4, 8, 1, 2, 10));
    assert!((3..=18).contains(&shark.hp) && shark.hostile && !shark.aware_of_player);
    let boar = npcs.npc_at(2, 2).unwrap();
    assert_eq!((boar.name.as_str(), boar.id, boar.ac, boar.dmg, boar.score), ("wild boar", 2, 12, 6, 5));
    assert!((2..=10).contains(&boar.hp) && boar.npc_type == NPCType::Boar);
    let panther = npcs.npc_at(3, 3).unwrap();
    assert!(panther.aware_of_player && (4..=32).contains(&panther.hp) && panther.dmg == 12);
    assert!(npcs.npc_with_id(9).is_none());
    assert!(npcs.npc_at(9, 9).is_none());
}

#[test]
fn creatures_move_and_leave() {
    let mut npcs = NPCTracker::new();
    npcs.new_shark(1, 1);
    let mut shark = npcs.npc_at(1, 1).unwrap();
    shark.row = 1;
    shark.col = 2;
    shark.hp = 1;
    npcs.update(shark, 1, 1);
    assert!(!npcs.is_npc_at(1, 1) && npcs.is_npc_at(1, 2));
    assert_eq!(npcs.npc_at(1, 2).map(|m| (m.id, m.hp)), Some((1, 1)));
    let mut same_place = npcs.npc_at(1, 2).unwrap();
    same_place.hp = 9;
    npcs.update(same_place, 1, 2);
    assert_eq!(npcs.npc_with_id(1).map(|m| m.hp), Some(9));
    assert!(npcs.is_npc_at(1, 2));
    npcs.remove(1, 1, 2);
    assert!(!npcs.is_npc_at(1, 2) && npcs.npc_with_id(1).is_none());
    assert!(npcs.all_npc_ids().is_empty());
    npcs.new_boar(0, 0);
    assert_eq!(npcs.all_npc_ids(), vec![2]);
}

#[test]
fn bosses_and_their_minions() {
    let mut npcs = NPCTracker::new();
    let boss = npcs.new_undead_boss(5, 5, 2);
    assert_eq!(boss, 1);
    npcs.new_skeleton(5, 6, boss);
    let captain = npcs.npc_with_id(boss).unwrap();
    assert_eq!((captain.name.as_str(), captain.minions, captain.ac, captain.symbol, captain.color), ("undead pirate captain", 2, 14, 'Z', (208, 28, 31)));
    assert!((4..=24).contains(&captain.hp) && captain.npc_type == NPCType::UndeadCaptain);
    let skeleton = npcs.npc_at(5, 6).unwrap();
    assert_eq!((skeleton.name.as_str(), skeleton.boss, skeleton.ac, skeleton.dmg, skeleton.score), ("skeletal pirate", 1, 13, 0, 5));
    assert!((3..=13).contains(&skeleton.hp));
    npcs.minion_killed(boss);
    assert_eq!(npcs.npc_with_id(boss).map(|m| m.minions), Some(1));
    npcs.minion_killed(boss);
    npcs.minion_killed(boss);
    assert_eq!(npcs.npc_with_id(boss).map(|m| m.minions), Some(0));
    npcs.minion_killed(77);
    assert_eq!(npcs.all_npc_ids(), vec![1, 2]);
}

#[test]
fn creatures_that_chance_has_a_hand_in() {
    assert_eq!(NPCTracker::gender_from(0), 1);
    assert_eq!(NPCTracker::gender_from(32), 1);
    assert_eq!(NPCTracker::gender_from(33), 2);
    assert_eq!(NPCTracker::gender_from(65), 2);
    assert_eq!(NPCTracker::gender_from(66), 0);
    assert_eq!(NPCTracker::gender_from(99), 0);
    assert_eq!(NPCTracker::snake_colour_from(10), (208, 28, 31));
    assert_eq!(NPCTracker::snake_colour_from(50), (255, 215, 0));
    assert_eq!(NPCTracker::snake_colour_from(90), (144, 238, 144));
    for _ in 0..60 {
        let mut npcs = NPCTracker::new();
        npcs.new_merperson(1, 1);
        npcs.new_pirate(2, 2, (7, 7));
        npcs.new_castaway(3, 3, (8, 8), String::from("Ahoy!"));
        npcs.new_snake(4, 4);
        let mer = npcs.npc_at(1, 1).unwrap();
        assert!(mer.aware_of_player && mer.npc_type == NPCType::Merfolk && (2..=16).contains(&mer.hp));
        let expected = ["merperson", "mermaid", "merman"][mer.gender as usize];
        assert_eq!(mer.name, expected);
        assert_eq!((mer.symbol, mer.color, mer.ac, mer.score), ('y', (255, 159, 0), 13, 10));
        let pirate = npcs.npc_at(2, 2).unwrap();
        assert_eq!((pirate.name.as_str(), pirate.anchor, pirate.symbol, pirate.ac, pirate.dmg), ("marooned pirate", (7, 7), '@', 14, 6));
        assert!(pirate.gender <= 2 && pirate.hostile && (2..=16).contains(&pirate.hp));
        let castaway = npcs.npc_at(3, 3).unwrap();
        assert_eq!((castaway.name.as_str(), castaway.anchor, castaway.voice_line.as_str(), castaway.score), ("castaway", (8, 8), "Ahoy!", 0));
        assert!(!castaway.hostile && castaway.gender <= 2 && (1..=8).contains(&castaway.hp));
        let snake = npcs.npc_at(4, 4).unwrap();
        assert_eq!((snake.name.as_str(), snake.special_dmg.as_str(), snake.symbol, snake.dmg), ("snake", "poison", 'S', 4));
        assert!([(208, 28, 31), (255, 215, 0), (144, 238, 144)].contains(&snake.color));
        assert!((2..=12).contains(&snake.hp));
        assert_eq!(npcs.all_npc_ids(), vec![1, 2, 3, 4]);
    }
}

#[test]
fn sidebar_holds_what_it_is_given() {
    let s = SidebarInfo::new(String::from("Anne"), 12, 7, 20, -1, 3, 99, true, false, 4);
    assert_eq!((s.name.as_str(), s.ac, s.curr_hp, s.max_hp, s.wheel, s.bearing), ("Anne", 12, 7, 20, -1, 3));
    assert_eq!((s.turn, s.charmed, s.poisoned, s.drunkeness), (99, true, false, 4));
}

fn new_game() -> GameState {
    let mut state = GameState::new_pirate(String::from("Anne"), PirateType::Swab);
    state.map = vec![vec![Tile::Sand; 8]; 8];
    state
}

#[test]
fn new_game_starts_at_turn_nought() {
    let state = GameState::new_pirate(String::from("Mary"), PirateType::Seadog);
    assert_eq!(state.player.name, "Mary");
    assert_eq!(state.player.p_type, PirateType::Seadog);
    assert_eq!((state.turn, state.map_id, state.vision_radius, state.note_count), (0, 0, 3, 0));
    assert!(state.map.is_empty() && state.msg_buff.is_empty() && state.msg_history.is_empty());
    assert!(state.npcs.all_npc_ids().is_empty());
    assert_eq!((state.world_seen.len(), state.weather.clouds.len(), state.notes.len()), (0, 0, 0));
    let swab = GameState::new_pirate(String::from("Anne"), PirateType::Swab);
    assert_eq!(swab.player.p_type, PirateType::Swab);
}

#[test]
fn messages_are_buffered_and_repeats_counted() {
    let mut state = new_game();
    state.write_msg_buff("Ahoy!");
    state.write_msg_buff("Ahoy!");
    state.write_msg_buff("");
    state.write_msg_buff("Avast!");
    state.write_msg_buff("Ahoy!");
    let buffered: Vec<&str> = state.msg_buff.iter().map(|s| s.as_str()).collect();
    assert_eq!(buffered, vec!["Ahoy!", "Ahoy!", "", "Avast!", "Ahoy!"]);
    let history: Vec<(&str, u32)> = state.msg_history.iter().map(|(s, n)| (s.as_str(), *n)).collect();
    assert_eq!(history, vec![("Ahoy!", 1), ("Avast!", 1), ("Ahoy!", 2)]);
}

#[test]
fn history_keeps_the_latest_fifty() {
    let mut state = new_game();
    for i in 0..60 {
        state.write_msg_buff(&format!("message {}", i));
    }
    assert_eq!(state.msg_buff.len(), 60);
    assert_eq!(state.msg_history.len(), 50);
    assert_eq!(state.msg_history[0].0, "message 59");
    assert_eq!(state.msg_history[49].0, "message 10");
}

#[test]
fn sight_goes_by_the_hour_and_by_the_light() {
    let cases = [
        (0u32, 99u8),
        (799, 99),
        (800, 9),
        (999, 9),
        (1000, 7),
        (1199, 7),
        (1200, 5),
        (1599, 5),
        (1600, 7),
        (1699, 7),
        (1700, 9),
        (1799, 9),
        (1800, 99),
        (2400, 99),
        (3200, 9),
    ];
    for (turn, radius) in cases {
        let mut state = new_game();
        state.turn = turn;
        state.vision_radius = 0;
        state.calc_vision_radius();
        assert_eq!(state.vision_radius, radius, "turn {}", turn);
        assert!(state.msg_buff.is_empty());
    }
    let mut lit = new_game();
    let mut lantern = yarrl::items::Item::new("lantern", ItemType::Light, 1, false, '(', (0, 0, 0));
    lantern.activated = true;
    lit.player.inventory.add(lantern);
    lit.turn = 1300;
    lit.calc_vision_radius();
    assert_eq!(lit.vision_radius, 7);
    lit.turn = 100;
    lit.calc_vision_radius();
    assert_eq!(lit.vision_radius, 101);
}

#[test]
fn dusk_and_dawn_are_announced() {
    let mut state = new_game();
    state.turn = 800;
    state.vision_radius = 99;
    state.calc_vision_radius();
    assert_eq!(state.msg_buff.back().map(|s| s.as_str()), Some("The sun is beginning to set."));
    state.calc_vision_radius();
    assert_eq!(state.msg_buff.len(), 1);
    state.turn = 1600;
    state.vision_radius = 5;
    state.calc_vision_radius();
    assert_eq!(state.msg_buff.back().map(|s| s.as_str()), Some("Sunrise soon."));
    assert_eq!(state.msg_buff.len(), 2);
}

#[test]
fn sidebar_shows_wheel_and_bearing_only_aboard() {
    let mut state = new_game();
    state.player.bearing = 7;
    state.player.wheel = 2;
    state.player.charmed = true;
    state.turn = 42;
    let ashore = state.curr_sidebar_info();
    assert_eq!((ashore.wheel, ashore.bearing, ashore.turn, ashore.charmed), (-1, -1, 42, true));
    assert_eq!((ashore.name.as_str(), ashore.ac, ashore.curr_hp, ashore.max_hp), ("Anne", state.player.ac, state.player.curr_stamina, state.player.max_stamina));
    state.player.on_ship = true;
    let aboard = state.curr_sidebar_info();
    assert_eq!((aboard.wheel, aboard.bearing), (2, 7));
}

#[test]
fn cell_is_open_unless_somebody_or_a_vessel_is_there() {
    let mut state = new_game();
    state.player.row = 1;
    state.player.col = 1;
    state.npcs.new_boar(2, 2);
    let mut ships: ShipsTable = Table::new();
    let mut ship = Ship::new(String::from("Fancy"));
    ship.row = 5;
    ship.col = 5;
    ship.bearing = 4;
    ship.update_loc_info();
    ships.insert((5, 5), ship);
    assert!(!sq_is_open(&state, &ships, 1, 1));
    assert!(!sq_is_open(&state, &ships, 2, 2));
    assert!(!sq_is_open(&state, &ships, 5, 5));
    assert!(!sq_is_open(&state, &ships, 5, 6));
    assert!(!sq_is_open(&state, &ships, 5, 4));
    assert!(sq_is_open(&state, &ships, 4, 5));
    assert!(sq_is_open(&state, &ships, 6, 6));
    assert!(sq_is_open(&state, &ships, 0, 0));
    assert!(sq_is_open(&state, &ships, 5, 7));
    let none: ShipsTable = Table::new();
    assert!(sq_is_open(&state, &none, 5, 5));
    state.weather = Weather::new();
    assert!(sq_is_open(&state, &none, 700, 700));
}

#[test]
fn steps_for_the_points_of_the_compass() {
    assert_eq!(get_move_tuple("N"), (-1, 0));
    assert_eq!(get_move_tuple("S"), (1, 0));
    assert_eq!(get_move_tuple("W"), (0, -1));
    assert_eq!(get_move_tuple("E"), (0, 1));
    assert_eq!(get_move_tuple("NW"), (-1, -1));
    assert_eq!(get_move_tuple("NE"), (-1, 1));
    assert_eq!(get_move_tuple("SW"), (1, -1));
    assert_eq!(get_move_tuple("SE"), (1, 1));
    assert_eq!(get_move_tuple("up"), (1, 1));
    assert_eq!(get_move_tuple(""), (1, 1));
}

#[test]
fn checks_of_ability() {
    assert!(ability_check_passes(10, 2, 13, 1));
    assert!(!ability_check_passes(10, 2, 13, 0));
    assert!(ability_check_passes(20, -5, 15, 0));
    assert!(!ability_check_passes(1, -5, 0, 0));
    assert!(ability_check_passes(1, 127, 200, 127));
    assert!(!ability_check_passes(20, 0, 200, 0));
    for _ in 0..100 {
        assert!(do_ability_check(0, 1, 0));
        assert!(!do_ability_check(0, 21, 0));
        assert!(do_ability_check(5, 6, 0));
        assert!(!do_ability_check(-5, 16, 0));
    }
    let mut state = new_game();
    let npcs_shark = Monster::new(String::from("shark"), 1, NPCType::Shark, 12, 9, '^', 0, 0, (0, 0, 0), 4, 8, 1, 2, 10);
    state.player.ac = 5;
    assert!(attack_player(&state, &npcs_shark));
    state.player.ac = 25;
    assert!(!attack_player(&state, &npcs_shark));
}

#[test]
fn bullets_look_the_way_they_fly() {
    assert_eq!(calc_bullet_ch((0, -1)), '-');
    assert_eq!(calc_bullet_ch((0, 1)), '-');
    assert_eq!(calc_bullet_ch((1, 0)), '|');
    assert_eq!(calc_bullet_ch((-1, 0)), '|');
    assert_eq!(calc_bullet_ch((-1, -1)), '\\');
    assert_eq!(calc_bullet_ch((1, 1)), '\\');
    assert_eq!(calc_bullet_ch((-1, 1)), '/');
    assert_eq!(calc_bullet_ch((1, -1)), '/');
    assert_eq!(calc_bullet_ch((0, 0)), '/');
}

#[test]
fn plurals() {
    assert_eq!(pluralize("doubloon"), "doubloons");
    assert_eq!(pluralize("cutlass"), "cutlasses");
    assert_eq!(pluralize("box"), "boxes");
    assert_eq!(pluralize("torch"), "torches");
    assert_eq!(pluralize("draught of rum"), "draughts of rum");
    assert_eq!(pluralize("flask of oil"), "flasks of oil");
    assert_eq!(pluralize("lead ball"), "leads ball");
    assert_eq!(pluralize("glass of water"), "glasses of water");
    assert_eq!(pluralize("torch of doom"), "torchs of doom");
    assert_eq!(pluralize(""), "s");
    assert_eq!(pluralize(" rum"), "s rum");
    assert_eq!(pluralize("two  blanks"), "twos  blanks");
}

#[test]
fn those_who_call_themselves_captain() {
    assert!(is_putting_on_airs("Captain Kidd"));
    assert!(is_putting_on_airs("CAPT. Morgan"));
    assert!(is_putting_on_airs("capn crunch"));
    assert!(is_putting_on_airs("Cap'n Flint"));
    assert!(!is_putting_on_airs("Anne"));
    assert!(!is_putting_on_airs("Cap"));
    assert!(!is_putting_on_airs("The Captain"));
    assert!(!is_putting_on_airs(""));
    assert!(claims_rank("captain"));
    assert!(!claims_rank("Captain"));
}

#[test]
fn file_names_for_saved_games() {
    assert_eq!(gen_save_filename("Anne"), "Anne.yaml");
    assert_eq!(gen_save_filename("Anne Bonny"), "Anne_Bonny.yaml");
    assert_eq!(gen_save_filename("Cap'n Flint 2"), "Cap_n_Flint_2.yaml");
    assert_eq!(gen_save_filename("../etc"), "___etc.yaml");
    assert_eq!(gen_save_filename(""), ".yaml");
    assert_eq!(gen_save_filename("\u{e9}t\u{e9}"), "_t_.yaml");
}
