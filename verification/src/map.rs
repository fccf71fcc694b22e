//! Terrain: the tile alphabet of a map and the predicates the engines ask of it.

use vstd::prelude::*;
use crate::ship::{DECK_ANGLE, DECK_STRAIGHT};

verus! {

/// An RGB colour triple.
pub type Rgb = (u8, u8, u8);

/// A rectangular or ragged grid of tiles, addressed by row, then column.
pub type Grid = Vec<Vec<Tile>>;

/// What can occupy one cell of a map or of a rendered viewport.
#[derive(Debug, PartialEq, Eq, Hash)]
pub enum Tile {
    Blank,
    Wall,
    WoodWall,
    Tree,
    Dirt,
    Grass,
    Player(Rgb),
    Water,
    DeepWater,
    WorldEdge,
    Sand,
    Mountain,
    SnowPeak,
    Gate,
    StoneFloor,
    Thing(Rgb, char),
    Creature(Rgb, char),
    Separator,
    ShipPart(char),
    Shipwreck(char, String),
    Mast(char),
    Bullet(char),
    Lava,
    FirePit,
    OldFirePit,
    Floor,
    Window(char),
    Spring,
    Portal((usize, usize, u8)),
    Fog,
}

impl Clone for Tile {
    fn clone(&self) -> (res: Self)
        ensures
            res == *self,
    {
        match self {
            Tile::Blank => Tile::Blank,
            Tile::Wall => Tile::Wall,
            Tile::WoodWall => Tile::WoodWall,
            Tile::Tree => Tile::Tree,
            Tile::Dirt => Tile::Dirt,
            Tile::Grass => Tile::Grass,
            Tile::Player(c) => Tile::Player(*c),
            Tile::Water => Tile::Water,
            Tile::DeepWater => Tile::DeepWater,
            Tile::WorldEdge => Tile::WorldEdge,
            Tile::Sand => Tile::Sand,
            Tile::Mountain => Tile::Mountain,
            Tile::SnowPeak => Tile::SnowPeak,
            Tile::Gate => Tile::Gate,
            Tile::StoneFloor => Tile::StoneFloor,
            Tile::Thing(c, ch) => Tile::Thing(*c, *ch),
            Tile::Creature(c, ch) => Tile::Creature(*c, *ch),
            Tile::Separator => Tile::Separator,
            Tile::ShipPart(ch) => Tile::ShipPart(*ch),
            Tile::Shipwreck(ch, name) => Tile::Shipwreck(*ch, name.clone()),
            Tile::Mast(ch) => Tile::Mast(*ch),
            Tile::Bullet(ch) => Tile::Bullet(*ch),
            Tile::Lava => Tile::Lava,
            Tile::FirePit => Tile::FirePit,
            Tile::OldFirePit => Tile::OldFirePit,
            Tile::Floor => Tile::Floor,
            Tile::Window(ch) => Tile::Window(*ch),
            Tile::Spring => Tile::Spring,
            Tile::Portal(p) => Tile::Portal(*p),
            Tile::Fog => Tile::Fog,
        }
    }
}

impl Tile {
    /// Two tiles are the same terrain when they are the same variant with the
    /// same payload; names are compared by their characters.
    pub open spec fn same(self, other: Tile) -> bool {
        match (self, other) {
            (Tile::Shipwreck(a, n), Tile::Shipwreck(b, m)) => a == b && n@ == m@,
            (Tile::Shipwreck(_, _), _) => false,
            (_, Tile::Shipwreck(_, _)) => false,
            _ => self == other,
        }
    }

    /// Decides `same`.
    pub fn same_as(&self, other: &Tile) -> (res: bool)
        ensures
            res == self.same(*other),
    {
        match (self, other) {
            (Tile::Blank, Tile::Blank) => true,
            (Tile::Wall, Tile::Wall) => true,
            (Tile::WoodWall, Tile::WoodWall) => true,
            (Tile::Tree, Tile::Tree) => true,
            (Tile::Dirt, Tile::Dirt) => true,
            (Tile::Grass, Tile::Grass) => true,
            (Tile::Player(a), Tile::Player(b)) => a.0 == b.0 && a.1 == b.1 && a.2 == b.2,
            (Tile::Water, Tile::Water) => true,
            (Tile::DeepWater, Tile::DeepWater) => true,
            (Tile::WorldEdge, Tile::WorldEdge) => true,
            (Tile::Sand, Tile::Sand) => true,
            (Tile::Mountain, Tile::Mountain) => true,
            (Tile::SnowPeak, Tile::SnowPeak) => true,
            (Tile::Gate, Tile::Gate) => true,
            (Tile::StoneFloor, Tile::StoneFloor) => true,
            (Tile::Thing(a, x), Tile::Thing(b, y)) => a.0 == b.0 && a.1 == b.1 && a.2 == b.2
                && *x == *y,
            (Tile::Creature(a, x), Tile::Creature(b, y)) => a.0 == b.0 && a.1 == b.1 && a.2
                == b.2 && *x == *y,
            (Tile::Separator, Tile::Separator) => true,
            (Tile::ShipPart(x), Tile::ShipPart(y)) => *x == *y,
            (Tile::Shipwreck(x, n), Tile::Shipwreck(y, m)) => *x == *y && *n == *m,
            (Tile::Mast(x), Tile::Mast(y)) => *x == *y,
            (Tile::Bullet(x), Tile::Bullet(y)) => *x == *y,
            (Tile::Lava, Tile::Lava) => true,
            (Tile::FirePit, Tile::FirePit) => true,
            (Tile::OldFirePit, Tile::OldFirePit) => true,
            (Tile::Floor, Tile::Floor) => true,
            (Tile::Window(x), Tile::Window(y)) => *x == *y,
            (Tile::Spring, Tile::Spring) => true,
            (Tile::Portal(p), Tile::Portal(q)) => p.0 == q.0 && p.1 == q.1 && p.2 == q.2,
            (Tile::Fog, Tile::Fog) => true,
            _ => false,
        }
    }
}

/// A cell with signed coordinates lies on the map.
pub open spec fn spec_in_bounds(map: Seq<Vec<Tile>>, r: int, c: int) -> bool {
    0 <= r < map.len() && 0 <= c < map[r].len()
}

/// Whether row `r`, column `c` is a cell of `map`. Never panics: an empty map
/// has no cells, and a short row ends where it ends.
pub fn in_bounds(map: &Vec<Vec<Tile>>, r: i32, c: i32) -> (res: bool)
    ensures
        res == spec_in_bounds(map@, r as int, c as int),
{
    if r < 0 || c < 0 {
        return false;
    }
    let ru: usize = r as usize;
    let cu: usize = c as usize;
    ru < map.len() && cu < map[ru].len()
}

/// Light passes through every tile but walls, mountains, and the void.
pub open spec fn spec_is_clear(tile: Tile) -> bool {
    !(tile is Wall || tile is Blank || tile is Mountain || tile is SnowPeak || tile is WoodWall)
}

/// Whether light passes through `tile`.
pub fn is_clear(tile: &Tile) -> (res: bool)
    ensures
        res == spec_is_clear(*tile),
{
    match tile {
        Tile::Wall | Tile::Blank | Tile::Mountain | Tile::SnowPeak | Tile::WoodWall => false,
        _ => true,
    }
}

/// Whether `tile` is canopy: light gets through it, but not as far.
pub fn is_canopy(tile: &Tile) -> (res: bool)
    ensures
        res == (*tile is Tree),
{
    matches!(tile, Tile::Tree)
}

/// A creature can stand on every tile but barriers and the map's edge.
pub open spec fn spec_is_passable(tile: Tile) -> bool {
    !(tile is Wall || tile is Blank || tile is WorldEdge || tile is Mountain || tile is SnowPeak
        || tile is Gate || tile is WoodWall || tile is Window)
}

/// Whether a creature can stand on `tile`.
pub fn is_passable(tile: &Tile) -> (res: bool)
    ensures
        res == spec_is_passable(*tile),
{
    match tile {
        Tile::Wall | Tile::Blank | Tile::WorldEdge | Tile::Mountain | Tile::SnowPeak | Tile::Gate
        | Tile::WoodWall | Tile::Window(_) => false,
        _ => true,
    }
}

/// Whether a tile is one that somebody or other can cross: water, open
/// ground, lava, a floor, a fire pit, or the deck of a vessel.
pub open spec fn crossable(tile: Tile) -> bool {
    tile is Water || tile is DeepWater || tile is Grass || tile is Tree || tile is Dirt
        || tile is Sand || tile is Lava || tile is Floor || tile is FirePit || tile is OldFirePit
        || tile == Tile::ShipPart(DECK_STRAIGHT) || tile == Tile::ShipPart(DECK_ANGLE)
}

/// Whether `tile` is among `tiles`.
pub open spec fn among(tile: Tile, tiles: Seq<Tile>) -> bool {
    exists|i: int| 0 <= i < tiles.len() && (#[trigger] tiles[i]).same(tile)
}

/// Every tile that some creature can cross.
pub fn all_passable() -> (passable: Vec<Tile>)
    ensures
        forall|tile: Tile| among(tile, passable@) <==> crossable(tile),
{
    let mut passable: Vec<Tile> = Vec::new();
    passable.push(Tile::Water);
    passable.push(Tile::DeepWater);
    passable.push(Tile::Grass);
    passable.push(Tile::Tree);
    passable.push(Tile::Dirt);
    passable.push(Tile::Sand);
    passable.push(Tile::Lava);
    passable.push(Tile::Floor);
    passable.push(Tile::FirePit);
    passable.push(Tile::OldFirePit);
    passable.push(Tile::ShipPart(DECK_STRAIGHT));
    passable.push(Tile::ShipPart(DECK_ANGLE));
    proof {
        assert forall|tile: Tile| among(tile, passable@) <==> crossable(tile) by {
            if crossable(tile) {
                let i: int = if tile is Water {
                    0
                } else if tile is DeepWater {
                    1
                } else if tile is Grass {
                    2
                } else if tile is Tree {
                    3
                } else if tile is Dirt {
                    4
                } else if tile is Sand {
                    5
                } else if tile is Lava {
                    6
                } else if tile is Floor {
                    7
                } else if tile is FirePit {
                    8
                } else if tile is OldFirePit {
                    9
                } else if tile == Tile::ShipPart(DECK_STRAIGHT) {
                    10
                } else {
                    11
                };
                assert(passable@[i].same(tile));
            }
        }
    }
    passable
}

/// Whether the cell `(r, c)` of the small map for trials is water: a ring of
/// deep water with a wider eastern side, round two cells of wall.
pub open spec fn trial_water(r: int, c: int) -> bool {
    1 <= r <= 4 && (c == 1 || c == 3 || c == 4 || (c == 2 && (r == 1 || r == 4)))
}

/// A map of five rows of five cells for trials: walls, and deep water where `trial_water` says.
pub fn generate_test_map() -> (grid: Vec<Vec<Tile>>)
    ensures
        grid@.len() == 5,
        forall|r: int| 0 <= r < 5 ==> (#[trigger] grid@[r])@.len() == 5,
        forall|r: int, c: int|
            0 <= r < 5 && 0 <= c < 5 ==> #[trigger] grid@[r]@[c] == (if trial_water(r, c) {
                Tile::DeepWater
            } else {
                Tile::Wall
            }),
{
    let mut grid: Vec<Vec<Tile>> = Vec::new();
    let mut r: usize = 0;
    while r < 5
        invariant
            r <= 5,
            grid@.len() == r,
            forall|i: int| 0 <= i < r ==> (#[trigger] grid@[i])@.len() == 5,
            forall|i: int, c: int|
                0 <= i < r && 0 <= c < 5 ==> #[trigger] grid@[i]@[c] == (if trial_water(i, c) {
                    Tile::DeepWater
                } else {
                    Tile::Wall
                }),
        decreases 5 - r,
    {
        let mut row: Vec<Tile> = Vec::new();
        let mut c: usize = 0;
        while c < 5
            invariant
                c <= 5,
                r < 5,
                row@.len() == c,
                forall|j: int|
                    0 <= j < c ==> #[trigger] row@[j] == (if trial_water(r as int, j) {
                        Tile::DeepWater
                    } else {
                        Tile::Wall
                    }),
            decreases 5 - c,
        {
            let water: bool = 1 <= r && r <= 4 && (c == 1 || c == 3 || c == 4 || (c == 2 && (r == 1
                || r == 4)));
            if water {
                row.push(Tile::DeepWater);
            } else {
                row.push(Tile::Wall);
            }
            c += 1;
        }
        grid.push(row);
        r += 1;
    }
    grid
}

} // verus!
