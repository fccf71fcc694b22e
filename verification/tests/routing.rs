use std::collections::VecDeque;

use yarrl::actor::{NPCTracker, PirateType, Player};
use yarrl::game::GameState;
use yarrl::items::Inventory;
use yarrl::map::Tile;
use yarrl::pathfinding::{astar, find_nearest_reachable, find_path, passable_by_me};
use yarrl::ship::ShipsTable;
use yarrl::table::Table;
use yarrl::util::sqs_adj;
use yarrl::weather::Weather;

fn player_at(row: usize, col: usize) -> Player {
    Player {
        name: String::from("Anne"),
        ac: 10,
        max_stamina: 10,
        curr_stamina: 10,
        strength: 10,
        constitution: 10,
        dexterity: 10,
        verve: 10,
        prof_bonus: 2,
        row,
        col,
        inventory: Inventory::new(),
        p_type: PirateType::Swab,
        on_ship: false,
        bearing: 0,
        wheel: 0,
        score: 0,
        poisoned: false,
        charmed: false,
        drunkeness: 0,
    }
}

fn state_with(map: Vec<Vec<Tile>>, row: usize, col: usize) -> GameState {
    GameState {
        player: player_at(row, col),
        msg_buff: VecDeque::new(),
        msg_history: VecDeque::new(),
        map,
        npcs: NPCTracker::new(),
        map_id: 0,
        turn: 0,
        world_seen: Table::new(),
        pirate_lord: String::new(),
        pirate_lord_ship: String::new(),
        player_ship: String::new(),
        starter_clue: 0,
        notes: Table::new(),
        note_count: 0,
        springs_drunk: Table::new(),
        vision_radius: 99,
        weather: Weather::new(),
    }
}

fn open_grid(height: usize, width: usize, tile: Tile) -> Vec<Vec<Tile>> {
    vec![vec![tile; width]; height]
}

fn land() -> Vec<Tile> {
    vec![Tile::Grass, Tile::Sand, Tile::Dirt]
}

fn check_route(path: &Vec<(usize, usize)>, map: &Vec<Vec<Tile>>, valid: &Vec<Tile>) {
    for w in path.windows(2) {
        assert!(sqs_adj(w[0].0, w[0].1, w[1].0, w[1].1));
    }
    for c in path.iter().skip(1) {
        assert!(passable_by_me(&map[c.0][c.1], valid));
    }
}

#[test]
fn straight_route_on_open_ground() {
    let state = state_with(open_grid(5, 5, Tile::Grass), 4, 4);
    let ships: ShipsTable = Table::new();
    let path = find_path(&state, 0, 0, 0, 3, &land(), &ships);
    assert_eq!(path.first(), Some(&(0, 0)));
    assert_eq!(path.last(), Some(&(0, 3)));
    check_route(&path, &state.map, &land());
}

#[test]
fn route_to_own_cell_is_that_cell() {
    let state = state_with(open_grid(5, 5, Tile::Grass), 4, 4);
    let ships: ShipsTable = Table::new();
    let path = find_path(&state, 2, 2, 2, 2, &land(), &ships);
    assert_eq!(path, vec![(2, 2)]);
    let path = astar(&state, 1, 3, 1, 3, &land(), &ships);
    assert_eq!(path, vec![(1, 3)]);
}

#[test]
fn no_route_between_separate_regions() {
    let mut map = open_grid(5, 7, Tile::Grass);
    for row in map.iter_mut() {
        row[3] = Tile::Wall;
    }
    let state = state_with(map, 4, 0);
    let ships: ShipsTable = Table::new();
    let path = find_path(&state, 0, 0, 0, 6, &land(), &ships);
    assert!(path.is_empty());
}

#[test]
fn route_goes_round_a_wall() {
    let mut map = open_grid(5, 5, Tile::Grass);
    map[0][2] = Tile::Wall;
    map[1][2] = Tile::Wall;
    map[2][2] = Tile::Wall;
    map[3][2] = Tile::Wall;
    let state = state_with(map, 0, 4);
    let ships: ShipsTable = Table::new();
    let path = find_path(&state, 0, 0, 0, 3, &land(), &ships);
    assert_eq!(path.first(), Some(&(0, 0)));
    assert_eq!(path.last(), Some(&(0, 3)));
    assert!(path.contains(&(4, 2)));
    check_route(&path, &state.map, &land());
}

#[test]
fn goal_may_be_occupied_but_not_the_way() {
    let state = state_with(open_grid(1, 4, Tile::Grass), 0, 3);
    let ships: ShipsTable = Table::new();
    let path = find_path(&state, 0, 0, 0, 3, &land(), &ships);
    assert_eq!(path, vec![(0, 0), (0, 1), (0, 2), (0, 3)]);
    let blocked = state_with(open_grid(1, 4, Tile::Grass), 0, 2);
    let path = find_path(&blocked, 0, 0, 0, 3, &land(), &ships);
    assert!(path.is_empty());
}

#[test]
fn coordinates_off_the_map_give_no_route() {
    let state = state_with(open_grid(3, 3, Tile::Grass), 2, 2);
    let ships: ShipsTable = Table::new();
    assert!(find_path(&state, 0, 0, 3, 0, &land(), &ships).is_empty());
    assert!(find_path(&state, 0, 0, 0, 9, &land(), &ships).is_empty());
    assert!(find_path(&state, 7, 0, 0, 0, &land(), &ships).is_empty());
    assert!(astar(&state, 0, 5, 0, 0, &land(), &ships).is_empty());
}

#[test]
fn swimmer_makes_for_the_water_nearest_the_goal() {
    let mut map = open_grid(3, 5, Tile::DeepWater);
    map[0][4] = Tile::Sand;
    map[1][4] = Tile::Sand;
    map[2][4] = Tile::Sand;
    let water = vec![Tile::DeepWater];
    let state = state_with(map, 1, 4);
    let ships: ShipsTable = Table::new();
    assert_eq!(find_nearest_reachable(&state.map, 1, 0, 1, 4, &water), Some((0, 3)));
    let path = find_path(&state, 1, 0, 1, 4, &water, &ships);
    assert_eq!(path.first(), Some(&(1, 0)));
    assert_eq!(path.last(), Some(&(0, 3)));
    check_route(&path, &state.map, &water);
}

#[test]
fn equally_near_stand_ins_go_by_rows_then_columns() {
    let mut map = open_grid(3, 3, Tile::DeepWater);
    map[1][1] = Tile::Sand;
    let water = vec![Tile::DeepWater];
    assert_eq!(find_nearest_reachable(&map, 0, 0, 1, 1, &water), Some((0, 0)));
    assert_eq!(find_nearest_reachable(&map, 2, 2, 1, 1, &water), Some((0, 0)));
}

#[test]
fn landlocked_swimmer_has_no_stand_in() {
    let map = open_grid(3, 3, Tile::Sand);
    let water = vec![Tile::DeepWater];
    assert_eq!(find_nearest_reachable(&map, 1, 1, 0, 0, &water), None);
    let state = state_with(map, 0, 0);
    let ships: ShipsTable = Table::new();
    assert!(find_path(&state, 1, 1, 0, 0, &water, &ships).is_empty());
}

#[test]
fn stand_in_search_stops_at_its_radius() {
    let mut map = open_grid(1, 40, Tile::DeepWater);
    map[0][39] = Tile::Sand;
    let water = vec![Tile::DeepWater];
    assert_eq!(find_nearest_reachable(&map, 0, 0, 0, 39, &water), Some((0, 30)));
}

#[test]
fn start_on_ground_that_cannot_be_crossed_still_ends() {
    let mut map = open_grid(3, 4, Tile::Grass);
    map[1][0] = Tile::Wall;
    let state = state_with(map, 0, 0);
    let ships: ShipsTable = Table::new();
    let path = find_path(&state, 1, 0, 1, 3, &land(), &ships);
    assert_eq!(path.first(), Some(&(1, 0)));
    assert_eq!(path.last(), Some(&(1, 3)));
    check_route(&path, &state.map, &land());
    let walled_in = state_with(open_grid(3, 3, Tile::Wall), 0, 0);
    assert!(find_path(&walled_in, 1, 1, 2, 2, &land(), &ships).is_empty());
    assert_eq!(find_nearest_reachable(&walled_in.map, 1, 1, 2, 2, &land()), None);
}

#[test]
fn same_question_same_route() {
    let mut map = open_grid(9, 9, Tile::Grass);
    for c in 1..8 {
        map[4][c] = Tile::Mountain;
    }
    let state = state_with(map, 8, 8);
    let ships: ShipsTable = Table::new();
    let first = find_path(&state, 0, 4, 8, 4, &land(), &ships);
    assert!(first.len() >= 9);
    check_route(&first, &state.map, &land());
    for _ in 0..5 {
        assert_eq!(find_path(&state, 0, 4, 8, 4, &land(), &ships), first);
    }
}

#[test]
fn route_avoids_creatures_and_vessels() {
    let mut state = state_with(open_grid(3, 5, Tile::Grass), 0, 4);
    state.npcs.new_boar(1, 2);
    let ships: ShipsTable = Table::new();
    let path = find_path(&state, 1, 0, 1, 4, &land(), &ships);
    assert!(!path.is_empty() && !path.contains(&(1, 2)));
    check_route(&path, &state.map, &land());
    let onto = find_path(&state, 1, 0, 1, 2, &land(), &ships);
    assert_eq!(onto.last(), Some(&(1, 2)));
    let mut fleet: ShipsTable = Table::new();
    let mut ship = yarrl::ship::Ship::new(String::from("Fancy"));
    ship.row = 1;
    ship.col = 2;
    ship.bearing = 0;
    ship.update_loc_info();
    fleet.insert((1, 2), ship);
    let open = state_with(open_grid(3, 5, Tile::Grass), 0, 4);
    assert!(find_path(&open, 1, 0, 1, 4, &land(), &fleet).is_empty());
    let round = state_with(open_grid(3, 2, Tile::Grass), 0, 0);
    assert!(!find_path(&round, 2, 0, 2, 1, &land(), &fleet).is_empty());
}
