use std::collections::VecDeque;

use yarrl::actor::{Monster, NPCTracker, NPCType, PirateType, Player};
use yarrl::behaviour::{
    advance, chance, drunken_bonus, find_adj_empty_sq, first_open_move, fleeing_moves, next_step,
    offset, pirate_line_for, Advance,
};
use yarrl::game::{ExitReason, GameState};
use yarrl::items::Inventory;
use yarrl::map::Tile;
use yarrl::ship::{compose_name, random_name, ShipsTable};
use yarrl::table::Table;
use yarrl::util::{parse_names, sqs_adj, trim_between, NameSeeds};
use yarrl::weather::Weather;

fn game(map: Vec<Vec<Tile>>, row: usize, col: usize) -> GameState {
    GameState {
        player: Player {
            name: String::from("Anne"),
            ac: 10,
            max_stamina: 30,
            curr_stamina: 30,
            strength: 10,
            constitution: 10,
            dexterity: 10,
            verve: 10,
            prof_bonus: 2,
            row,
            col,
            inventory: Inventory::new(),
            p_type: PirateType::Swab,
            on_ship: false,
            bearing: 0,
            wheel: 0,
            score: 0,
            poisoned: false,
            charmed: false,
            drunkeness: 0,
        },
        msg_buff: VecDeque::new(),
        msg_history: VecDeque::new(),
        map,
        npcs: NPCTracker::new(),
        map_id: 0,
        turn: 1,
        world_seen: Table::new(),
        pirate_lord: String::new(),
        pirate_lord_ship: String::new(),
        player_ship: String::new(),
        starter_clue: 0,
        notes: Table::new(),
        note_count: 0,
        springs_drunk: Table::new(),
        vision_radius: 99,
        weather: Weather::new(),
    }
}

fn sea(height: usize, width: usize) -> Vec<Vec<Tile>> {
    vec![vec![Tile::DeepWater; width]; height]
}

fn creature(state: &mut GameState, kind: NPCType, row: usize, col: usize) -> Monster {
    match kind {
        NPCType::Shark => state.npcs.new_shark(row, col),
        NPCType::Boar => state.npcs.new_boar(row, col),
        NPCType::Panther => state.npcs.new_panther(row, col),
        NPCType::Snake => state.npcs.new_snake(row, col),
        NPCType::Skeleton => state.npcs.new_skeleton(row, col, 0),
        NPCType::UndeadCaptain => {
            state.npcs.new_undead_boss(row, col, 0);
        }
        NPCType::Merfolk => state.npcs.new_merperson(row, col),
        NPCType::MaroonedPirate => state.npcs.new_pirate(row, col, (row, col)),
        NPCType::Castaway => state.npcs.new_castaway(row, col, (row, col), String::from("Ahoy!")),
    }
    state.npcs.npc_at(row, col).expect("the creature was just put there")
}

fn messages(state: &GameState) -> Vec<&str> {
    state.msg_buff.iter().map(|s| s.as_str()).collect()
}

#[test]
fn shark_swims_toward_the_player() {
    let mut state = game(sea(1, 8), 0, 7);
    let ships: ShipsTable = Table::new();
    let mut shark = creature(&mut state, NPCType::Shark, 0, 0);
    for step in 1..=6 {
        assert!(shark.act(&mut state, &ships).is_ok());
        assert_eq!((shark.row, shark.col), (0, step));
    }
    assert!(messages(&state).is_empty());
    assert_eq!(state.player.curr_stamina, 30);
}

#[test]
fn shark_next_to_the_player_bites_or_misses() {
    let ships: ShipsTable = Table::new();
    let mut bites = 0;
    for _ in 0..200 {
        let mut state = game(sea(1, 8), 0, 1);
        let mut shark = creature(&mut state, NPCType::Shark, 0, 0);
        assert!(shark.act(&mut state, &ships).is_ok());
        assert_eq!((shark.row, shark.col), (0, 0));
        match messages(&state)[..] {
            ["The shark bites you!"] => {
                bites += 1;
                assert!((20..=27).contains(&state.player.curr_stamina));
            }
            ["The shark misses!"] => assert_eq!(state.player.curr_stamina, 30),
            _ => panic!("the shark should have said something"),
        }
    }
    assert!(bites > 0 && bites < 200);
}

#[test]
fn bite_that_is_too_much_kills() {
    let ships: ShipsTable = Table::new();
    let mut deaths = 0;
    for _ in 0..200 {
        let mut state = game(sea(1, 8), 0, 1);
        state.player.curr_stamina = 2;
        state.player.ac = 0;
        let mut shark = creature(&mut state, NPCType::Shark, 0, 0);
        match shark.act(&mut state, &ships) {
            Err(ExitReason::Death(source)) => {
                deaths += 1;
                assert_eq!(source, "shark");
                assert_eq!(state.player.curr_stamina, 2);
            }
            Err(_) => panic!("only death ends the game here"),
            Ok(()) => assert!(state.player.curr_stamina <= 2),
        }
    }
    assert!(deaths > 0);
}

#[test]
fn shark_far_away_stays_where_it_is() {
    let mut state = game(sea(1, 40), 0, 39);
    let ships: ShipsTable = Table::new();
    let mut shark = creature(&mut state, NPCType::Shark, 0, 0);
    assert!(shark.act(&mut state, &ships).is_ok());
    assert_eq!((shark.row, shark.col), (0, 0));
}

#[test]
fn shark_shut_in_by_another_creature_stays() {
    let mut state = game(sea(1, 8), 0, 7);
    let ships: ShipsTable = Table::new();
    let mut shark = creature(&mut state, NPCType::Shark, 0, 0);
    creature(&mut state, NPCType::Shark, 0, 1);
    assert!(matches!(advance(&shark, &state, &ships, &vec![Tile::DeepWater]), Advance::NoRoute));
    assert!(shark.act(&mut state, &ships).is_ok());
    assert_eq!((shark.row, shark.col), (0, 0));
    assert!(messages(&state).is_empty());
}

#[test]
fn next_step_of_a_route_goes_round_other_creatures() {
    let mut state = game(sea(3, 8), 1, 7);
    let ships: ShipsTable = Table::new();
    let shark = creature(&mut state, NPCType::Shark, 1, 0);
    creature(&mut state, NPCType::Shark, 1, 1);
    match advance(&shark, &state, &ships, &vec![Tile::DeepWater]) {
        Advance::To(c) => assert!(c == (0, 1) || c == (2, 1)),
        _ => panic!("there is a way round"),
    }
    let mut open = game(sea(1, 8), 0, 7);
    let alone = creature(&mut open, NPCType::Shark, 0, 0);
    assert!(matches!(advance(&alone, &open, &ships, &vec![Tile::DeepWater]), Advance::To((0, 1))));
    assert!(matches!(advance(&alone, &open, &ships, &vec![Tile::Sand]), Advance::NoRoute));
}

#[test]
fn shark_cannot_come_ashore_but_comes_as_near_as_it_can() {
    let mut map = sea(1, 8);
    map[0][6] = Tile::Sand;
    map[0][7] = Tile::Sand;
    let mut state = game(map, 0, 7);
    let ships: ShipsTable = Table::new();
    let mut shark = creature(&mut state, NPCType::Shark, 0, 0);
    for _ in 0..10 {
        assert!(shark.act(&mut state, &ships).is_ok());
    }
    assert!(shark.col == 4 || shark.col == 5);
    assert_eq!(state.player.curr_stamina, 30);
}

#[test]
fn skeleton_rests_every_third_turn() {
    let mut state = game(vec![vec![Tile::Grass; 8]], 0, 7);
    let ships: ShipsTable = Table::new();
    let mut skeleton = creature(&mut state, NPCType::Skeleton, 0, 0);
    state.turn = 3;
    assert!(skeleton.act(&mut state, &ships).is_ok());
    assert_eq!(skeleton.col, 0);
    state.turn = 4;
    assert!(skeleton.act(&mut state, &ships).is_ok());
    assert_eq!(skeleton.col, 1);
}

#[test]
fn beast_far_off_wanders_to_a_neighbouring_cell() {
    let mut state = game(vec![vec![Tile::Grass; 40]; 3], 1, 39);
    let ships: ShipsTable = Table::new();
    let mut boar = creature(&mut state, NPCType::Boar, 1, 1);
    assert!(boar.act(&mut state, &ships).is_ok());
    assert!(sqs_adj(1, 1, boar.row, boar.col));
    assert!(boar.row < 3 && boar.col < 3);
}

#[test]
fn panther_hunts_and_bites() {
    let ships: ShipsTable = Table::new();
    let mut state = game(vec![vec![Tile::Grass; 12]], 0, 11);
    let mut panther = creature(&mut state, NPCType::Panther, 0, 0);
    assert!(panther.act(&mut state, &ships).is_ok());
    assert_eq!((panther.row, panther.col), (0, 1));
    let mut seen = std::collections::HashSet::new();
    for _ in 0..200 {
        let mut state = game(vec![vec![Tile::Grass; 12]], 0, 1);
        let mut panther = creature(&mut state, NPCType::Panther, 0, 0);
        assert!(panther.act(&mut state, &ships).is_ok());
        seen.insert(messages(&state)[0].to_string());
    }
    let mut seen: Vec<String> = seen.into_iter().collect();
    seen.sort();
    assert_eq!(seen, vec!["The panther bites you!", "The panther missed!"]);
}

#[test]
fn snake_can_poison() {
    let ships: ShipsTable = Table::new();
    let mut poisoned = 0;
    for _ in 0..400 {
        let mut state = game(vec![vec![Tile::Grass; 12]], 0, 1);
        let mut snake = creature(&mut state, NPCType::Snake, 0, 0);
        snake.aware_of_player = true;
        assert!(snake.act(&mut state, &ships).is_ok());
        if state.player.poisoned {
            poisoned += 1;
            assert_eq!(messages(&state), vec!["The snake bites you!", "You are poisoned!"]);
        }
    }
    assert!(poisoned > 0);
}

#[test]
fn unaware_beast_nearby_may_notice_the_player() {
    let ships: ShipsTable = Table::new();
    let mut noticed = 0;
    for _ in 0..300 {
        let mut state = game(vec![vec![Tile::Grass; 12]; 3], 1, 6);
        let mut boar = creature(&mut state, NPCType::Boar, 1, 1);
        assert!(boar.act(&mut state, &ships).is_ok());
        assert!(sqs_adj(1, 1, boar.row, boar.col));
        if boar.aware_of_player {
            noticed += 1;
            assert_eq!(messages(&state), vec!["Something snarls."]);
        } else {
            assert!(messages(&state).is_empty());
        }
    }
    assert!(noticed > 0 && noticed < 300);
}

#[test]
fn undead_captain_raises_skeletons_beside_it() {
    let ships: ShipsTable = Table::new();
    let mut raised = 0;
    for _ in 0..300 {
        let mut state = game(vec![vec![Tile::Grass; 30]; 3], 1, 29);
        let mut boss = creature(&mut state, NPCType::UndeadCaptain, 1, 1);
        assert!(boss.act(&mut state, &ships).is_ok());
        let ids = state.npcs.all_npc_ids();
        if ids.len() == 2 {
            raised += 1;
            assert_eq!(boss.minions, 1);
            assert_eq!((boss.row, boss.col), (1, 1));
            let skeleton = state.npcs.npc_with_id(2).unwrap();
            assert_eq!(skeleton.boss, 1);
            assert!(sqs_adj(1, 1, skeleton.row, skeleton.col));
        } else {
            assert_eq!(boss.minions, 0);
        }
    }
    assert!(raised > 0 && raised < 300);
}

#[test]
fn peaceful_castaway_speaks_and_stays_about() {
    let ships: ShipsTable = Table::new();
    let mut spoke = 0;
    for _ in 0..300 {
        let mut state = game(vec![vec![Tile::Sand; 12]; 3], 1, 3);
        let mut castaway = creature(&mut state, NPCType::Castaway, 1, 1);
        assert!(castaway.act(&mut state, &ships).is_ok());
        assert_eq!(state.player.curr_stamina, 30);
        assert!((castaway.row, castaway.col) == (1, 1) || sqs_adj(1, 1, castaway.row, castaway.col));
        if !messages(&state).is_empty() {
            spoke += 1;
            assert_eq!(messages(&state), vec!["Ahoy!"]);
        }
    }
    assert!(spoke > 0 && spoke < 300);
}

#[test]
fn pirate_slashes_with_the_right_pronoun() {
    let ships: ShipsTable = Table::new();
    for _ in 0..100 {
        let mut state = game(vec![vec![Tile::Sand; 12]; 3], 1, 2);
        state.player.ac = 0;
        let mut pirate = creature(&mut state, NPCType::MaroonedPirate, 1, 1);
        let pronoun = ["their", "her", "his"][pirate.gender as usize];
        assert!(pirate.act(&mut state, &ships).is_ok());
        let first = messages(&state)[0].to_string();
        assert_eq!(first, format!("The marooned pirate slashes with {} cutlass!", pronoun));
    }
}

#[test]
fn merfolk_sing_until_the_player_is_charmed() {
    let ships: ShipsTable = Table::new();
    let mut charmed = 0;
    for _ in 0..300 {
        let mut state = game(sea(3, 12), 1, 6);
        let mut mer = creature(&mut state, NPCType::Merfolk, 1, 1);
        let name = mer.name.clone();
        assert!(mer.act(&mut state, &ships).is_ok());
        assert_eq!((mer.row, mer.col), (1, 1));
        assert_eq!(messages(&state)[0], "You hear beautiful singing.");
        if state.player.charmed {
            charmed += 1;
            assert_eq!(messages(&state)[1], format!("You are charmed by the {}'s song!", name));
        }
    }
    assert!(charmed > 0 && charmed < 300);
    let mut state = game(sea(5, 5), 2, 3);
    state.player.charmed = true;
    let mut mer = creature(&mut state, NPCType::Merfolk, 2, 2);
    assert!(mer.act(&mut state, &ships).is_ok());
    assert!([(1, 1), (1, 2), (2, 1)].contains(&(mer.row, mer.col)));
}

#[test]
fn moves_away_from_the_player() {
    assert_eq!(fleeing_moves(1, 1, 5, 5), vec![(-1, -1), (-1, 0), (0, -1)]);
    assert_eq!(fleeing_moves(5, 5, 5, 5), vec![(-1, -1), (-1, 0), (0, -1)]);
    assert_eq!(fleeing_moves(1, 9, 5, 5), vec![(-1, -1), (-1, 0), (0, 1)]);
    assert_eq!(fleeing_moves(9, 1, 5, 5), vec![(1, -1), (1, 0), (0, -1)]);
    assert_eq!(fleeing_moves(9, 9, 5, 5), vec![(1, 1), (1, 0), (0, 1)]);
    let mut state = game(sea(3, 3), 2, 2);
    state.map[0][0] = Tile::Sand;
    let mer = creature(&mut state, NPCType::Merfolk, 1, 1);
    creature(&mut state, NPCType::Shark, 0, 1);
    let water = vec![Tile::Water, Tile::DeepWater];
    let moves = fleeing_moves(1, 1, 2, 2);
    assert_eq!(first_open_move(&state, &mer, &moves, &water), Some((1, 0)));
    assert_eq!(first_open_move(&state, &mer, &vec![(-1, -1), (-1, 0)], &water), None);
    assert_eq!(first_open_move(&state, &mer, &vec![(-5, 0), (0, 9), (1, 1)], &water), Some((2, 2)));
}

#[test]
fn neighbouring_cell_that_is_free() {
    let mut state = game(sea(3, 3), 0, 0);
    let ships: ShipsTable = Table::new();
    let water = vec![Tile::DeepWater];
    for _ in 0..100 {
        let c = find_adj_empty_sq(1, 1, &state, &ships, &water);
        assert!(sqs_adj(1, 1, c.0, c.1) && c != (0, 0));
    }
    for row in state.map.iter_mut() {
        for t in row.iter_mut() {
            *t = Tile::Sand;
        }
    }
    assert_eq!(find_adj_empty_sq(1, 1, &state, &ships, &water), (1, 1));
    state.map[2][2] = Tile::DeepWater;
    assert_eq!(find_adj_empty_sq(1, 1, &state, &ships, &water), (2, 2));
    assert_eq!(find_adj_empty_sq(0, 0, &state, &ships, &water), (0, 0));
    state.player.row = 2;
    state.player.col = 2;
    assert_eq!(find_adj_empty_sq(1, 1, &state, &ships, &water), (1, 1));
}

#[test]
fn small_helpers_of_a_turn() {
    assert_eq!(offset(5, -1), Some(4));
    assert_eq!(offset(5, 1), Some(6));
    assert_eq!(offset(0, -1), None);
    assert_eq!(offset(usize::MAX, 1), None);
    assert_eq!(offset(usize::MAX, 0), Some(usize::MAX));
    assert_eq!(drunken_bonus(0), 0);
    assert_eq!(drunken_bonus(2), 0);
    assert_eq!(drunken_bonus(3), 1);
    assert_eq!(drunken_bonus(7), 1);
    assert_eq!(drunken_bonus(8), 2);
    assert_eq!(drunken_bonus(255), 51);
    assert_eq!(pirate_line_for(0), "Ye scurvy dog!");
    assert_eq!(pirate_line_for(20), "Arroint thee, barnacle!");
    assert_eq!(pirate_line_for(59), "I'll scuttle you!");
    assert_eq!(pirate_line_for(60), "To the locker with ye!");
    assert_eq!(pirate_line_for(80), "I've smelled better bilges!");
    for _ in 0..50 {
        assert!(!chance(0));
        assert!(chance(100));
    }
    let often = (0..1000).filter(|_| chance(50)).count();
    assert!(often > 300 && often < 700);
}

#[test]
fn words_are_read_from_a_file_of_names() {
    let text = "# Adjectives\nsalty \n  flirty\n\n# Nouns\n dog\nchild\n# Proper Nouns\nNeptune\n";
    let ns = parse_names(text);
    assert_eq!(ns.adjectives, vec!["salty", "flirty"]);
    assert_eq!(ns.nouns, vec!["dog", "child"]);
    assert_eq!(ns.proper_nouns, vec!["Neptune"]);
    let headless = parse_names("bold\r\n# Nouns\r\nship");
    assert_eq!(headless.adjectives, vec!["bold"]);
    assert_eq!(headless.nouns, vec!["ship"]);
    assert!(headless.proper_nouns.is_empty());
    let empty = parse_names("");
    assert!(empty.adjectives.is_empty() && empty.nouns.is_empty());
    let spaces = parse_names(" \n\t\n# Proper Nouns\n  Davy Jones  ");
    assert_eq!(spaces.proper_nouns, vec!["Davy Jones"]);
    assert_eq!(trim_between("  a b \u{a0}", 0, 7), "a b");
    assert_eq!(trim_between("abcdef", 2, 4), "cd");
    assert_eq!(trim_between("   ", 0, 3), "");
    assert_eq!(trim_between("x", 1, 1), "");
}

#[test]
fn names_of_vessels() {
    assert_eq!(compose_name("salty", "dog", false, true), "Salty Dog");
    assert_eq!(compose_name("salty", "dog", true, true), "Y.S. Salty Dog");
    assert_eq!(compose_name("salty", "dog", false, false), "Dog");
    assert_eq!(compose_name("salty", "dog", true, false), "Y.S. Dog");
    assert_eq!(compose_name("", "", false, true), " ");
    let mut ns = NameSeeds::new();
    ns.adjectives = vec![String::from("salty"), String::from("flirty")];
    ns.nouns = vec![String::from("dog"), String::from("child")];
    let plain = ["Salty Dog", "Salty Child", "Flirty Dog", "Dog", "Child"];
    for _ in 0..300 {
        let name = random_name(&ns, false);
        assert!(plain.contains(&name.as_str()), "{}", name);
        let navy = random_name(&ns, true);
        let bare = navy.strip_prefix("Y.S. ").unwrap_or(&navy);
        assert!(plain.contains(&bare), "{}", navy);
    }
}

#[test]
fn fleeing_merfolk_do_not_always_flee_the_same_way() {
    let ships: ShipsTable = Table::new();
    let mut ways = std::collections::HashSet::new();
    for _ in 0..200 {
        let mut state = game(sea(5, 5), 2, 3);
        state.player.charmed = true;
        let mut mer = creature(&mut state, NPCType::Merfolk, 2, 2);
        assert!(mer.act(&mut state, &ships).is_ok());
        ways.insert((mer.row, mer.col));
    }
    let mut ways: Vec<(usize, usize)> = ways.into_iter().collect();
    ways.sort();
    assert_eq!(ways, vec![(1, 1), (1, 2), (2, 1)]);
}

#[test]
fn next_step_of_a_route_is_its_second_cell() {
    let mut npcs = NPCTracker::new();
    assert!(matches!(next_step(&vec![], &npcs), Advance::NoRoute));
    assert!(matches!(next_step(&vec![(1, 1)], &npcs), Advance::NoRoute));
    assert!(matches!(next_step(&vec![(1, 1), (1, 2), (1, 3)], &npcs), Advance::To((1, 2))));
    npcs.new_boar(1, 3);
    assert!(matches!(next_step(&vec![(1, 1), (1, 2), (1, 3)], &npcs), Advance::To((1, 2))));
    npcs.new_boar(1, 2);
    assert!(matches!(next_step(&vec![(1, 1), (1, 2), (1, 3)], &npcs), Advance::Blocked));
}

#[test]
fn beast_that_knows_of_the_player_strikes_with_its_verb() {
    let ships: ShipsTable = Table::new();
    let mut told = std::collections::HashSet::new();
    for _ in 0..200 {
        let mut state = game(vec![vec![Tile::Grass; 12]], 0, 1);
        let mut boar = creature(&mut state, NPCType::Boar, 0, 0);
        boar.aware_of_player = true;
        let before = state.player.curr_stamina;
        assert!(boar.act(&mut state, &ships).is_ok());
        assert_eq!((boar.row, boar.col), (0, 0));
        let said = messages(&state);
        assert_eq!(said.len(), 1);
        if said[0] == "The wild boar gores you!" {
            let lost = before - state.player.curr_stamina;
            assert!((3..=8).contains(&lost));
        } else {
            assert_eq!(said[0], "The wild boar missed!");
            assert_eq!(state.player.curr_stamina, before);
        }
        told.insert(said[0].to_string());
    }
    assert_eq!(told.len(), 2);
}

#[test]
fn pirate_keeps_near_its_anchor() {
    let ships: ShipsTable = Table::new();
    let mut state = game(vec![vec![Tile::Sand; 20]], 0, 19);
    let mut pirate = creature(&mut state, NPCType::MaroonedPirate, 0, 5);
    pirate.aware_of_player = true;
    pirate.anchor = (0, 0);
    for _ in 0..6 {
        assert!(pirate.act(&mut state, &ships).is_ok());
    }
    assert_eq!((pirate.row, pirate.col), (0, 8));
    assert!(messages(&state).is_empty());
}
