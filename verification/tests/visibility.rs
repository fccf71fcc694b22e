use std::collections::VecDeque;

use yarrl::actor::{NPCTracker, PirateType, Player};
use yarrl::display::{BROWN, LIGHT_BLUE, WHITE};
use yarrl::fov::{
    add_ship, add_ships_to_v_matrix, calc_actual_tile, calc_v_matrix, compute_visibility, mark_visible, no_fog_zone,
    radius_3, radius_5, radius_7, radius_9, radius_full, FOV_HEIGHT, FOV_WIDTH,
};
use yarrl::game::GameState;
use yarrl::items::{Inventory, Item, ItemType, ItemsTable};
use yarrl::map::Tile;
use yarrl::ship::{Ship, ShipsTable};
use yarrl::table::Table;
use yarrl::weather::{CoordSet, Weather};

fn viewer_state(map: Vec<Vec<Tile>>, row: usize, col: usize, vision_radius: u8) -> GameState {
    GameState {
        player: Player {
            name: String::from("Mary"),
            ac: 10,
            max_stamina: 10,
            curr_stamina: 10,
            strength: 10,
            constitution: 10,
            dexterity: 10,
            verve: 10,
            prof_bonus: 2,
            row,
            col,
            inventory: Inventory::new(),
            p_type: PirateType::Swab,
            on_ship: false,
            bearing: 0,
            wheel: 0,
            score: 0,
            poisoned: false,
            charmed: false,
            drunkeness: 0,
        },
        msg_buff: VecDeque::new(),
        msg_history: VecDeque::new(),
        map,
        npcs: NPCTracker::new(),
        map_id: 0,
        turn: 0,
        world_seen: Table::new(),
        pirate_lord: String::new(),
        pirate_lord_ship: String::new(),
        player_ship: String::new(),
        starter_clue: 0,
        notes: Table::new(),
        note_count: 0,
        springs_drunk: Table::new(),
        vision_radius,
        weather: Weather::new(),
    }
}

fn grid(height: usize, width: usize, tile: Tile) -> Vec<Vec<Tile>> {
    vec![vec![tile; width]; height]
}

fn cells(list: &[(usize, usize)]) -> CoordSet {
    let mut set: CoordSet = Table::new();
    for c in list {
        set.insert(*c, ());
    }
    set
}

fn rim(half_height: i32, half_width: i32) -> Vec<(i32, i32)> {
    let mut rim = Vec::new();
    for c in -half_width..=half_width {
        rim.push((-half_height, c));
        rim.push((half_height, c));
    }
    for r in -half_height..=half_height {
        rim.push((r, -half_width));
        rim.push((r, half_width));
    }
    rim
}

// The place in a viewport of `height` by `width` round `viewer` of the cell `cell`.
fn place(viewer: (usize, usize), height: usize, width: usize, cell: (usize, usize)) -> usize {
    let vr = cell.0 as i64 - viewer.0 as i64 + (height / 2) as i64;
    let vc = cell.1 as i64 - viewer.1 as i64 + (width / 2) as i64;
    assert!(vr >= 0 && (vr as usize) < height && vc >= 0 && (vc as usize) < width);
    vr as usize * width + vc as usize
}

fn lit_count(visible: &Vec<bool>) -> usize {
    visible.iter().filter(|v| **v).count()
}

#[test]
fn open_seven_by_seven_is_seen_whole() {
    let map = grid(7, 7, Tile::Grass);
    let none: CoordSet = Table::new();
    let visible = compute_visibility(&map, &none, &none, 3, 3, &rim(3, 3), 7, 7);
    assert_eq!(visible.len(), 49);
    assert!(visible.iter().all(|v| *v));
}

#[test]
fn open_seven_by_seven_is_seen_whole_in_the_standard_viewport() {
    let map = grid(7, 7, Tile::Grass);
    let none: CoordSet = Table::new();
    let visible =
        compute_visibility(&map, &none, &none, 3, 3, &radius_full(), FOV_HEIGHT, FOV_WIDTH);
    assert_eq!(visible.len(), FOV_HEIGHT * FOV_WIDTH);
    for r in 0..7 {
        for c in 0..7 {
            assert!(visible[place((3, 3), FOV_HEIGHT, FOV_WIDTH, (r, c))], "cell {} {}", r, c);
        }
    }
    assert_eq!(lit_count(&visible), 49);
}

#[test]
fn wall_hides_what_lies_behind_it_on_its_ray_only() {
    let mut map = grid(7, 7, Tile::Grass);
    map[3][4] = Tile::Wall;
    let none: CoordSet = Table::new();
    let visible = compute_visibility(&map, &none, &none, 3, 3, &rim(3, 3), 7, 7);
    assert!(visible[place((3, 3), 7, 7, (3, 4))]);
    assert!(!visible[place((3, 3), 7, 7, (3, 5))]);
    assert!(visible[place((3, 3), 7, 7, (2, 5))]);
    assert!(visible[place((3, 3), 7, 7, (3, 2))]);
    assert!(visible[place((3, 3), 7, 7, (3, 0))]);
}

#[test]
fn viewer_sees_own_cell_whatever_the_perimeter_or_the_fog() {
    let map = grid(5, 5, Tile::Grass);
    let none: CoordSet = Table::new();
    let visible = compute_visibility(&map, &none, &none, 2, 2, &Vec::new(), 5, 5);
    assert_eq!(lit_count(&visible), 1);
    assert!(visible[12]);
    let fog = cells(&[(2, 2), (2, 3), (1, 2)]);
    let visible = compute_visibility(&map, &fog, &none, 2, 2, &rim(2, 2), 5, 5);
    assert!(visible[12]);
    let walls = grid(5, 5, Tile::Wall);
    let visible = compute_visibility(&walls, &none, &none, 2, 2, &rim(2, 2), 5, 5);
    assert!(visible[12]);
    assert_eq!(lit_count(&visible), 1);
    let off_map = compute_visibility(&map, &none, &none, 9, 9, &rim(2, 2), 5, 5);
    assert!(off_map[12]);
}

#[test]
fn one_ray_over_open_ground_reaches_its_end() {
    let map = grid(1, 12, Tile::Sand);
    let none: CoordSet = Table::new();
    let mut buffer = vec![false; 21];
    mark_visible(0, 0, 0, 9, &map, &none, &none, &mut buffer, 1, 21);
    let seen: Vec<usize> = (0..21).filter(|i| buffer[*i]).collect();
    assert_eq!(seen, (10..=19).collect::<Vec<usize>>());
}

#[test]
fn one_canopy_cell_takes_three_cells_off_a_ray() {
    let mut map = grid(1, 12, Tile::Sand);
    map[0][2] = Tile::Tree;
    let none: CoordSet = Table::new();
    let mut buffer = vec![false; 21];
    mark_visible(0, 0, 0, 9, &map, &none, &none, &mut buffer, 1, 21);
    let seen: Vec<usize> = (0..21).filter(|i| buffer[*i]).collect();
    assert_eq!(seen, (10..=16).collect::<Vec<usize>>());
}

#[test]
fn canopy_near_the_end_of_a_ray_is_still_seen_itself() {
    let mut map = grid(1, 12, Tile::Sand);
    map[0][8] = Tile::Tree;
    let none: CoordSet = Table::new();
    let mut buffer = vec![false; 21];
    mark_visible(0, 0, 0, 9, &map, &none, &none, &mut buffer, 1, 21);
    let seen: Vec<usize> = (0..21).filter(|i| buffer[*i]).collect();
    assert_eq!(seen, (10..=18).collect::<Vec<usize>>());
}

#[test]
fn canopy_under_the_viewer_takes_nothing_off() {
    let mut map = grid(1, 12, Tile::Sand);
    map[0][0] = Tile::Tree;
    let none: CoordSet = Table::new();
    let mut buffer = vec![false; 21];
    mark_visible(0, 0, 0, 9, &map, &none, &none, &mut buffer, 1, 21);
    assert_eq!(lit_count(&buffer), 10);
}

#[test]
fn corridor_of_canopy_shortens_sight_in_proportion() {
    let none: CoordSet = Table::new();
    for (reach, expected) in [(3, 2usize), (5, 3), (9, 4), (13, 5), (17, 6)] {
        let mut map = grid(1, 20, Tile::Tree);
        map[0][0] = Tile::Sand;
        let mut buffer = vec![false; 41];
        mark_visible(0, 0, 0, reach, &map, &none, &none, &mut buffer, 1, 41);
        assert_eq!(lit_count(&buffer), expected, "reach {}", reach);
        let again_map = map.clone();
        let mut again = vec![false; 41];
        mark_visible(0, 0, 0, reach, &again_map, &none, &none, &mut again, 1, 41);
        assert_eq!(again, buffer);
    }
}

#[test]
fn fog_beside_the_viewer_is_seen_through_and_far_fog_is_not() {
    let map = grid(1, 12, Tile::Sand);
    let halo = no_fog_zone(0, 0, false);
    let near = cells(&[(0, 1)]);
    let mut buffer = vec![false; 21];
    mark_visible(0, 0, 0, 9, &map, &near, &halo, &mut buffer, 1, 21);
    assert_eq!(lit_count(&buffer), 10);
    let far = cells(&[(0, 5)]);
    let mut buffer = vec![false; 21];
    mark_visible(0, 0, 0, 9, &map, &far, &halo, &mut buffer, 1, 21);
    let seen: Vec<usize> = (0..21).filter(|i| buffer[*i]).collect();
    assert_eq!(seen, (10..=15).collect::<Vec<usize>>());
}

#[test]
fn halo_is_the_neighbours_and_with_a_light_the_ring_beyond() {
    let halo = no_fog_zone(5, 5, false);
    assert_eq!(halo.len(), 9);
    assert!(halo.contains_key(&(4, 4)) && halo.contains_key(&(5, 5)) && halo.contains_key(&(6, 6)));
    assert!(!halo.contains_key(&(5, 7)));
    let lit = no_fog_zone(5, 5, true);
    assert_eq!(lit.len(), 21);
    assert!(lit.contains_key(&(5, 7)) && lit.contains_key(&(3, 4)) && lit.contains_key(&(7, 6)));
    assert!(!lit.contains_key(&(3, 3)) && !lit.contains_key(&(7, 7)));
    let corner = no_fog_zone(0, 0, true);
    assert_eq!(corner.len(), 8);
    assert!(corner.contains_key(&(0, 0)) && corner.contains_key(&(2, 1)));
}

#[test]
fn rays_stop_at_the_edge_of_the_map() {
    let map = grid(3, 3, Tile::Grass);
    let none: CoordSet = Table::new();
    let visible = compute_visibility(&map, &none, &none, 1, 1, &radius_9(), 21, 41);
    assert_eq!(lit_count(&visible), 9);
}

#[test]
fn perimeters_have_their_sizes_and_reaches() {
    assert_eq!(radius_3().len(), 24);
    assert_eq!(radius_5().len(), 36);
    assert_eq!(radius_7().len(), 56);
    assert_eq!(radius_9().len(), 68);
    assert_eq!(radius_full().len(), 121);
    assert_eq!(radius_3()[0], (3, 0));
    assert_eq!(radius_5()[35], (3, -3));
    assert_eq!(radius_9()[67], (5, -7));
    for (r, reach) in [(radius_3(), 3), (radius_5(), 5), (radius_7(), 7), (radius_9(), 9)] {
        assert!(r.iter().all(|p| p.0.abs() <= reach && p.1.abs() <= reach));
        assert!(r.iter().any(|p| p.0.abs() == reach));
    }
    let full = radius_full();
    assert_eq!(full[0], (-10, -20));
    assert_eq!(full[1], (10, -20));
    assert_eq!(full[79], (10, 19));
    assert_eq!(full[80], (-10, -20));
    assert_eq!(full[119], (9, 20));
    assert_eq!(full[120], (10, 20));
}

fn thing(name: &str, symbol: char, hidden: bool) -> Item {
    let mut item = Item::new(name, ItemType::Coin, 1, true, symbol, (1, 2, 3));
    item.hidden = hidden;
    item
}

#[test]
fn creature_shows_before_item_before_fog_before_ground() {
    let map = grid(3, 3, Tile::Sand);
    let mut npcs = NPCTracker::new();
    let mut items = ItemsTable::new();
    let fog = cells(&[(0, 0), (0, 1), (0, 2), (1, 1)]);
    let halo = cells(&[(1, 1)]);
    npcs.new_shark(0, 0);
    items.add(0, 0, thing("doubloon", '$', false));
    items.add(0, 1, thing("doubloon", '$', false));
    let shark = calc_actual_tile(0, 0, &map, &npcs, &items, &fog, &halo);
    assert_eq!(shark, Tile::Creature((136, 136, 136), '^'));
    assert_eq!(calc_actual_tile(0, 1, &map, &npcs, &items, &fog, &halo), Tile::Thing((1, 2, 3), '$'));
    assert_eq!(calc_actual_tile(0, 2, &map, &npcs, &items, &fog, &halo), Tile::Fog);
    assert_eq!(calc_actual_tile(1, 1, &map, &npcs, &items, &fog, &halo), Tile::Sand);
    assert_eq!(calc_actual_tile(2, 2, &map, &npcs, &items, &fog, &halo), Tile::Sand);
}

#[test]
fn topmost_item_that_is_not_hidden_shows() {
    let map = grid(1, 2, Tile::Dirt);
    let npcs = NPCTracker::new();
    let mut items = ItemsTable::new();
    let none: CoordSet = Table::new();
    items.add(0, 0, thing("doubloon", '$', false));
    items.add(0, 0, thing("chest", '=', true));
    items.add(0, 1, thing("chest", '=', true));
    assert_eq!(calc_actual_tile(0, 0, &map, &npcs, &items, &none, &none), Tile::Thing((1, 2, 3), '$'));
    assert_eq!(calc_actual_tile(0, 1, &map, &npcs, &items, &none, &none), Tile::Dirt);
}

fn ship_heading(bearing: u8, row: usize, col: usize) -> Ship {
    let mut ship = Ship::new(String::from("Swift"));
    ship.row = row;
    ship.col = col;
    ship.bearing = bearing;
    ship.update_loc_info();
    ship
}

#[test]
fn vessel_is_drawn_over_ground_but_its_ends_not_over_creatures_or_the_unseen() {
    let ship = ship_heading(4, 5, 5);
    let mut view = vec![Tile::Sand; 9];
    add_ship(&mut view, 1, 1, &ship, 3, 3);
    assert_eq!(view[4], Tile::ShipPart(ship.deck_ch));
    assert_eq!(view[5], Tile::ShipPart(ship.bow_ch));
    assert_eq!(view[3], Tile::ShipPart(ship.aft_ch));
    assert_eq!(view[0], Tile::Sand);
    let mut view = vec![Tile::Sand; 9];
    view[4] = Tile::Creature((0, 0, 0), 'x');
    view[5] = Tile::Creature((0, 0, 0), 'y');
    view[3] = Tile::Blank;
    add_ship(&mut view, 1, 1, &ship, 3, 3);
    assert_eq!(view[4], Tile::ShipPart(ship.deck_ch));
    assert_eq!(view[5], Tile::Creature((0, 0, 0), 'y'));
    assert_eq!(view[3], Tile::Blank);
    let mut view = vec![Tile::Sand; 9];
    add_ship(&mut view, 1, 2, &ship, 3, 3);
    assert_eq!(view[5], Tile::ShipPart(ship.deck_ch));
    assert_eq!(view[4], Tile::ShipPart(ship.aft_ch));
    assert_eq!(view[6], Tile::Sand);
}

#[test]
fn viewport_shows_ground_vessels_and_the_player() {
    let mut state = viewer_state(grid(7, 7, Tile::Grass), 3, 3, 99);
    state.map[3][4] = Tile::Wall;
    let items = ItemsTable::new();
    let mut ships: ShipsTable = Table::new();
    ships.insert((1, 1), ship_heading(0, 1, 1));
    let view = calc_v_matrix(&mut state, &items, &ships, FOV_HEIGHT, FOV_WIDTH);
    let at = |cell: (usize, usize)| view[place((3, 3), FOV_HEIGHT, FOV_WIDTH, cell)].clone();
    assert_eq!(view.len(), FOV_HEIGHT * FOV_WIDTH);
    assert_eq!(at((3, 3)), Tile::Player(WHITE));
    assert_eq!(at((3, 4)), Tile::Wall);
    assert_eq!(at((3, 5)), Tile::Blank);
    assert_eq!(at((2, 5)), Tile::Grass);
    assert_eq!(at((1, 1)), Tile::ShipPart('\u{25A0}'));
    assert_eq!(at((0, 1)), Tile::ShipPart('\u{25B2}'));
    assert_eq!(at((2, 1)), Tile::ShipPart('\u{25A0}'));
    assert_eq!(view[0], Tile::Blank);
    assert_eq!(at((3, 6)), Tile::Blank);
    let shown = view.iter().filter(|t| **t != Tile::Blank).count();
    assert!(shown < 49);
    assert_eq!(state.world_seen.len(), shown);
    assert!(state.world_seen.contains_key(&(3, 4)));
    assert!(!state.world_seen.contains_key(&(3, 5)));
}

#[test]
fn player_is_brown_aboard_blue_in_deep_water_white_ashore() {
    let items = ItemsTable::new();
    let ships: ShipsTable = Table::new();
    let mut ashore = viewer_state(grid(3, 3, Tile::Sand), 1, 1, 3);
    assert_eq!(calc_v_matrix(&mut ashore, &items, &ships, 3, 3)[4], Tile::Player(WHITE));
    let mut swimming = viewer_state(grid(3, 3, Tile::DeepWater), 1, 1, 3);
    assert_eq!(calc_v_matrix(&mut swimming, &items, &ships, 3, 3)[4], Tile::Player(LIGHT_BLUE));
    let mut aboard = viewer_state(grid(3, 3, Tile::DeepWater), 1, 1, 3);
    aboard.player.on_ship = true;
    assert_eq!(calc_v_matrix(&mut aboard, &items, &ships, 3, 3)[4], Tile::Player(BROWN));
    let mut on_deck: ShipsTable = Table::new();
    on_deck.insert((1, 1), ship_heading(4, 1, 1));
    let mut standing = viewer_state(grid(3, 3, Tile::DeepWater), 1, 1, 3);
    assert_eq!(calc_v_matrix(&mut standing, &items, &on_deck, 3, 3)[4], Tile::Player(WHITE));
}

#[test]
fn fog_far_off_shows_as_fog_and_hides_what_is_behind() {
    let mut state = viewer_state(grid(1, 12, Tile::Sand), 0, 0, 9);
    state.weather.clouds.insert((0, 1), ());
    state.weather.clouds.insert((0, 5), ());
    let items = ItemsTable::new();
    let ships: ShipsTable = Table::new();
    let view = calc_v_matrix(&mut state, &items, &ships, 1, 21);
    assert_eq!(view[10], Tile::Player(WHITE));
    assert_eq!(view[11], Tile::Sand);
    assert_eq!(view[14], Tile::Sand);
    assert_eq!(view[15], Tile::Fog);
    assert_eq!(view[16], Tile::Blank);
}

#[test]
fn remembering_what_was_seen_adds_to_what_was_seen_before() {
    let mut state = viewer_state(grid(1, 12, Tile::Sand), 0, 0, 3);
    state.world_seen.insert((0, 11), ());
    let items = ItemsTable::new();
    let ships: ShipsTable = Table::new();
    calc_v_matrix(&mut state, &items, &ships, 1, 21);
    let seen = state.world_seen.keys_vec();
    assert_eq!(seen.len(), 5);
    for c in [(0, 11), (0, 0), (0, 1), (0, 2), (0, 3)] {
        assert!(seen.contains(&c));
    }
}

#[test]
fn decks_are_looked_for_in_the_even_part_of_the_viewport() {
    let map = grid(5, 5, Tile::DeepWater);
    let mut ships: ShipsTable = Table::new();
    ships.insert((1, 2), ship_heading(4, 1, 2));
    ships.insert((4, 2), ship_heading(4, 4, 2));
    ships.insert((2, 4), ship_heading(0, 2, 4));
    let mut view = vec![Tile::DeepWater; 25];
    add_ships_to_v_matrix(&map, &mut view, &ships, 2, 2, 5, 5);
    assert_eq!(view[7], Tile::ShipPart('\u{25A0}'));
    assert_eq!(view[8], Tile::ShipPart('\u{25B6}'));
    assert_eq!(view[6], Tile::ShipPart('\u{25A0}'));
    assert_eq!(view[22], Tile::DeepWater);
    assert_eq!(view[14], Tile::DeepWater);
    assert_eq!(view.iter().filter(|t| **t != Tile::DeepWater).count(), 3);
    let mut even = vec![Tile::DeepWater; 16];
    add_ships_to_v_matrix(&map, &mut even, &ships, 2, 2, 4, 4);
    assert_eq!(even[1 * 4 + 2], Tile::ShipPart('\u{25A0}'));
    let mut unseen = vec![Tile::Blank; 25];
    add_ships_to_v_matrix(&map, &mut unseen, &ships, 2, 2, 5, 5);
    assert!(unseen.iter().all(|t| *t == Tile::Blank));
}
