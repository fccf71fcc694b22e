use yarrl::dice::{die_shows, roll, roll_one};
use yarrl::items::{Item, ItemType};
use yarrl::map::{all_passable, generate_test_map, in_bounds, is_clear, is_passable, Tile};
use yarrl::pathfinding::{neighbour, passable_by_me};
use yarrl::ship::{Ship, BOW_E, BOW_N, BOW_NE, BOW_NW, BOW_S, BOW_SE, BOW_SW, BOW_W};
use yarrl::table::Table;
use yarrl::util::{
    adj_for_roll, bresenham_circle, capitalize_word, cartesian_d, dir_between_sqs,
    get_articled_name, rnd_adj, sqs_adj, NameSeeds,
};

#[test]
fn distance_is_the_straight_line_rounded_down() {
    assert_eq!(cartesian_d(0, 0, 0, 0), 0);
    assert_eq!(cartesian_d(0, 0, 3, 4), 5);
    assert_eq!(cartesian_d(3, 4, 0, 0), 5);
    assert_eq!(cartesian_d(0, 0, 1, 1), 1);
    assert_eq!(cartesian_d(2, 2, 0, 0), 2);
    assert_eq!(cartesian_d(10, 10, 10, 40), 30);
    assert_eq!(cartesian_d(0, 0, 30, 1), 30);
    assert_eq!(cartesian_d(0, 0, 22, 22), 31);
    assert_eq!(cartesian_d(7, 0, 0, 0), 7);
    assert_eq!(cartesian_d(0, 0, 1_000_000, 0), 1_000_000);
}

#[test]
fn distance_too_large_for_the_machine_is_capped() {
    assert_eq!(cartesian_d(0, 0, usize::MAX, usize::MAX), usize::MAX);
    assert_eq!(cartesian_d(usize::MAX, 0, 0, 0), usize::MAX);
    assert_eq!(cartesian_d(usize::MAX, 5, usize::MAX, 2), 3);
}

#[test]
fn neighbours_are_the_eight_cells_around() {
    assert!(sqs_adj(5, 5, 4, 4));
    assert!(sqs_adj(5, 5, 4, 5));
    assert!(sqs_adj(5, 5, 4, 6));
    assert!(sqs_adj(5, 5, 5, 4));
    assert!(sqs_adj(5, 5, 5, 6));
    assert!(sqs_adj(5, 5, 6, 4));
    assert!(sqs_adj(5, 5, 6, 5));
    assert!(sqs_adj(5, 5, 6, 6));
    assert!(!sqs_adj(5, 5, 5, 5));
    assert!(!sqs_adj(5, 5, 7, 5));
    assert!(!sqs_adj(5, 5, 5, 3));
    assert!(!sqs_adj(0, 0, usize::MAX, 0));
    assert!(sqs_adj(0, 0, 1, 1));
}

#[test]
fn neighbours_come_row_by_row_and_stay_in_range() {
    let around: Vec<Option<(usize, usize)>> = (0..8).map(|k| neighbour((5, 5), k)).collect();
    assert_eq!(
        around,
        vec![
            Some((4, 4)),
            Some((4, 5)),
            Some((4, 6)),
            Some((5, 4)),
            Some((5, 6)),
            Some((6, 4)),
            Some((6, 5)),
            Some((6, 6))
        ]
    );
    assert_eq!(neighbour((0, 0), 0), None);
    assert_eq!(neighbour((0, 0), 1), None);
    assert_eq!(neighbour((0, 0), 3), None);
    assert_eq!(neighbour((0, 0), 7), Some((1, 1)));
    assert_eq!(neighbour((usize::MAX, 3), 6), None);
    assert_eq!(neighbour((3, usize::MAX), 4), None);
}

#[test]
fn compass_points_between_cells() {
    assert_eq!(dir_between_sqs(1, 1, 2, 1), "S");
    assert_eq!(dir_between_sqs(1, 1, 2, 2), "SE");
    assert_eq!(dir_between_sqs(1, 1, 2, 0), "SW");
    assert_eq!(dir_between_sqs(1, 1, 1, 2), "E");
    assert_eq!(dir_between_sqs(1, 1, 1, 0), "W");
    assert_eq!(dir_between_sqs(1, 1, 0, 2), "NE");
    assert_eq!(dir_between_sqs(1, 1, 0, 1), "N");
    assert_eq!(dir_between_sqs(1, 1, 0, 0), "NW");
    assert_eq!(dir_between_sqs(1, 1, 1, 1), "NW");
}

#[test]
fn circle_of_radius_two() {
    let pts = bresenham_circle(5, 5, 2);
    assert_eq!(
        pts,
        vec![
            (5, 7),
            (5, 3),
            (5, 7),
            (5, 3),
            (7, 5),
            (7, 5),
            (3, 5),
            (3, 5),
            (6, 7),
            (6, 3),
            (4, 7),
            (4, 3),
            (7, 6),
            (7, 4),
            (3, 6),
            (3, 4)
        ]
    );
}

#[test]
fn circles_small_and_large() {
    assert_eq!(bresenham_circle(0, 0, 0), vec![(0, 0); 8]);
    assert!(bresenham_circle(3, 3, -1).is_empty());
    let one = bresenham_circle(0, 0, 1);
    assert_eq!(one.len(), 16);
    assert_eq!(one[0], (0, 1));
    assert_eq!(one[8], (1, 1));
    let five = bresenham_circle(10, 10, 5);
    assert_eq!(five.len(), 32);
    assert!(five.contains(&(10, 15)) && five.contains(&(13, 14)) && five.contains(&(14, 13)));
    for p in five {
        let d2 = (p.0 - 10) * (p.0 - 10) + (p.1 - 10) * (p.1 - 10);
        assert!((16..=36).contains(&d2));
    }
    let edge = bresenham_circle(i32::MAX - 3, i32::MIN + 3, 3);
    assert!(edge.contains(&(i32::MAX, i32::MIN + 3)));
}

#[test]
fn throws_of_dice_stay_in_their_range() {
    for _ in 0..300 {
        let one = roll_one(6);
        assert!((1..=6).contains(&one));
        assert_eq!(roll_one(1), 1);
        assert_eq!(roll_one(0), 1);
        let three = roll(6, 3, 2);
        assert!((5..=20).contains(&three));
        let with_malus = roll(8, 4, -3);
        assert!((1..=29).contains(&with_malus));
        assert_eq!(roll(1, 5, 0), 5);
        assert_eq!(roll(1, 5, -2), 3);
        assert_eq!(roll(20, 0, 7), 7);
    }
    let seen: std::collections::HashSet<u8> = (0..600).map(|_| roll(6, 1, 0)).collect();
    assert_eq!(seen.len(), 6);
}

#[test]
fn total_below_nought_comes_back_as_the_same_byte() {
    assert_eq!(roll(1, 1, -2), 255);
    assert_eq!(roll(1, 2, -5), 253);
}

#[test]
fn random_neighbour_is_one_of_the_eight() {
    assert_eq!(adj_for_roll(1), (-1, -1));
    assert_eq!(adj_for_roll(2), (-1, 0));
    assert_eq!(adj_for_roll(3), (-1, 1));
    assert_eq!(adj_for_roll(4), (0, -1));
    assert_eq!(adj_for_roll(5), (0, 1));
    assert_eq!(adj_for_roll(6), (1, -1));
    assert_eq!(adj_for_roll(7), (1, 0));
    assert_eq!(adj_for_roll(8), (1, 1));
    let mut seen = std::collections::HashSet::new();
    for _ in 0..800 {
        let step = rnd_adj();
        assert!(step != (0, 0) && step.0.abs() <= 1 && step.1.abs() <= 1);
        seen.insert(step);
    }
    assert_eq!(seen.len(), 8);
}

#[test]
fn first_letter_becomes_a_capital() {
    assert_eq!(capitalize_word("anne"), "Anne");
    assert_eq!(capitalize_word("rusty cutlass"), "Rusty cutlass");
    assert_eq!(capitalize_word("Bonny"), "Bonny");
    assert_eq!(capitalize_word(""), "");
    assert_eq!(capitalize_word("x"), "X");
    assert_eq!(capitalize_word("\u{df}eta"), "SSeta");
    assert_eq!(capitalize_word("\u{e9}t\u{e9}"), "\u{c9}t\u{e9}");
    assert_eq!(capitalize_word("9 lives"), "9 lives");
}

#[test]
fn names_get_their_articles() {
    let cutlass = Item::new("rusty cutlass", ItemType::Weapon, 3, false, '|', (255, 255, 255));
    let overcoat = Item::new("overcoat", ItemType::Coat, 3, false, '[', (0, 0, 200));
    let chest = Item::get_macguffin("Blackbeard");
    assert_eq!(get_articled_name(false, &cutlass), "a rusty cutlass");
    assert_eq!(get_articled_name(true, &cutlass), "the rusty cutlass");
    assert_eq!(get_articled_name(false, &overcoat), "an overcoat");
    assert_eq!(get_articled_name(true, &overcoat), "the overcoat");
    assert_eq!(get_articled_name(false, &chest), "Blackbeard's chest");
    assert_eq!(get_articled_name(true, &chest), "Blackbeard's chest");
}

#[test]
fn name_seeds_start_empty() {
    let seeds = NameSeeds::new();
    assert!(seeds.adjectives.is_empty() && seeds.nouns.is_empty() && seeds.proper_nouns.is_empty());
}

#[test]
fn bounds_of_a_map() {
    let map = vec![vec![Tile::Sand; 3], vec![Tile::Sand; 1]];
    assert!(in_bounds(&map, 0, 0));
    assert!(in_bounds(&map, 0, 2));
    assert!(in_bounds(&map, 1, 0));
    assert!(!in_bounds(&map, 1, 1));
    assert!(!in_bounds(&map, 2, 0));
    assert!(!in_bounds(&map, -1, 0));
    assert!(!in_bounds(&map, 0, -1));
    assert!(!in_bounds(&map, 0, 3));
    let empty: Vec<Vec<Tile>> = Vec::new();
    assert!(!in_bounds(&empty, 0, 0));
}

#[test]
fn what_light_and_feet_can_pass() {
    for t in [Tile::Wall, Tile::Blank, Tile::Mountain, Tile::SnowPeak, Tile::WoodWall] {
        assert!(!is_clear(&t));
        assert!(!is_passable(&t));
    }
    for t in [Tile::WorldEdge, Tile::Gate, Tile::Window('o')] {
        assert!(is_clear(&t));
        assert!(!is_passable(&t));
    }
    for t in [Tile::Tree, Tile::Water, Tile::Lava, Tile::Fog, Tile::ShipPart('x'), Tile::Spring] {
        assert!(is_clear(&t));
        assert!(is_passable(&t));
    }
}

#[test]
fn tiles_are_the_same_by_kind_and_payload() {
    assert!(Tile::Tree.same_as(&Tile::Tree));
    assert!(!Tile::Tree.same_as(&Tile::Grass));
    assert!(Tile::ShipPart('a').same_as(&Tile::ShipPart('a')));
    assert!(!Tile::ShipPart('a').same_as(&Tile::ShipPart('b')));
    assert!(!Tile::ShipPart('a').same_as(&Tile::Mast('a')));
    let wreck = Tile::Shipwreck('w', String::from("Revenge"));
    assert!(wreck.same_as(&Tile::Shipwreck('w', String::from("Revenge"))));
    assert!(!wreck.same_as(&Tile::Shipwreck('w', String::from("Fancy"))));
    assert!(Tile::Portal((1, 2, 3)).same_as(&Tile::Portal((1, 2, 3))));
    assert!(!Tile::Portal((1, 2, 3)).same_as(&Tile::Portal((1, 2, 4))));
    assert!(Tile::Thing((1, 2, 3), 'x').same_as(&Tile::Thing((1, 2, 3), 'x')));
    assert!(!Tile::Player((1, 2, 3)).same_as(&Tile::Player((1, 2, 4))));
    assert_eq!(wreck.clone(), wreck);
}

#[test]
fn passable_set_holds_what_can_be_crossed() {
    let all = all_passable();
    for t in [
        Tile::Water,
        Tile::DeepWater,
        Tile::Grass,
        Tile::Tree,
        Tile::Dirt,
        Tile::Sand,
        Tile::Lava,
        Tile::Floor,
        Tile::FirePit,
        Tile::OldFirePit,
        Tile::ShipPart('\u{25A0}'),
        Tile::ShipPart('\u{25C6}'),
    ] {
        assert!(passable_by_me(&t, &all));
    }
    for t in [Tile::Wall, Tile::Mountain, Tile::Gate, Tile::ShipPart('x'), Tile::StoneFloor] {
        assert!(!passable_by_me(&t, &all));
    }
    assert!(!passable_by_me(&Tile::Sand, &Vec::new()));
    assert!(passable_by_me(&Tile::Sand, &vec![Tile::Grass, Tile::Sand]));
}

#[test]
fn trial_map_is_a_ring_of_water() {
    let map = generate_test_map();
    let rows: Vec<String> = map
        .iter()
        .map(|row| row.iter().map(|t| if *t == Tile::DeepWater { '~' } else { '#' }).collect())
        .collect();
    assert_eq!(rows, vec!["#####", "#~~~~", "#~#~~", "#~#~~", "#~~~~"]);
    assert!(map.iter().flatten().all(|t| *t == Tile::DeepWater || *t == Tile::Wall));
}

#[test]
fn vessel_is_laid_out_by_its_bearing() {
    let layouts = [
        (0u8, BOW_N, (-1i32, 0i32)),
        (1, BOW_N, (-1, 0)),
        (15, BOW_N, (-1, 0)),
        (2, BOW_NE, (-1, 1)),
        (3, BOW_E, (0, 1)),
        (4, BOW_E, (0, 1)),
        (5, BOW_E, (0, 1)),
        (6, BOW_SE, (1, 1)),
        (7, BOW_S, (1, 0)),
        (8, BOW_S, (1, 0)),
        (9, BOW_S, (1, 0)),
        (10, BOW_SW, (1, -1)),
        (11, BOW_W, (0, -1)),
        (12, BOW_W, (0, -1)),
        (13, BOW_W, (0, -1)),
        (14, BOW_NW, (-1, -1)),
    ];
    for (bearing, bow, step) in layouts {
        let mut ship = Ship::new(String::from("Fancy"));
        assert!(ship.anchored && ship.row == 0 && ship.bow_ch == '\0' && ship.name == "Fancy");
        ship.row = 10;
        ship.col = 20;
        ship.bearing = bearing;
        ship.update_loc_info();
        assert_eq!(ship.bow_ch, bow);
        assert_eq!((ship.bow_row as i32, ship.bow_col as i32), (10 + step.0, 20 + step.1));
        assert_eq!((ship.aft_row as i32, ship.aft_col as i32), (10 - step.0, 20 - step.1));
        let straight = step.0 == 0 || step.1 == 0;
        assert_eq!(ship.deck_ch, if straight { '\u{25A0}' } else { '\u{25C6}' });
        assert_eq!(ship.aft_ch, ship.deck_ch);
        assert_eq!((ship.row, ship.col, ship.bearing), (10, 20, bearing));
    }
    let mut corner = Ship::new(String::from("Edge"));
    corner.update_loc_info();
    assert_eq!((corner.bow_row, corner.bow_col), (usize::MAX, 0));
    assert_eq!((corner.aft_row, corner.aft_col), (1, 0));
}

#[test]
fn table_keeps_order_and_replaces_in_place() {
    let mut t: Table<(usize, usize), u8> = Table::new();
    assert_eq!(t.len(), 0);
    assert_eq!(t.insert((1, 1), 10), None);
    assert_eq!(t.insert((2, 2), 20), None);
    assert_eq!(t.insert((3, 3), 30), None);
    assert_eq!(t.insert((2, 2), 21), Some(20));
    assert_eq!(t.keys_vec(), vec![(1, 1), (2, 2), (3, 3)]);
    assert_eq!(t.get(&(2, 2)), Some(&21));
    assert_eq!(t.get(&(9, 9)), None);
    assert!(t.contains_key(&(3, 3)) && !t.contains_key(&(3, 4)));
    assert_eq!((t.key_at(2), *t.value_at(2)), ((3, 3), 30));
    assert_eq!(t.remove(&(1, 1)), Some(10));
    assert_eq!(t.remove(&(1, 1)), None);
    assert_eq!(t.keys_vec(), vec![(2, 2), (3, 3)]);
    assert_eq!(t.len(), 2);
    assert_eq!(t.insert((1, 1), 11), None);
    assert_eq!(t.keys_vec(), vec![(2, 2), (3, 3), (1, 1)]);
}

#[test]
fn faces_of_a_die_count_from_one() {
    assert_eq!(die_shows(6, 0), 1);
    assert_eq!(die_shows(6, 5), 6);
    assert_eq!(die_shows(0, 0), 1);
    assert_eq!(die_shows(0, 200), 1);
    assert_eq!(die_shows(255, 254), 255);
}
