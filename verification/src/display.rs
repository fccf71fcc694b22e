//! What the presentation layer needs from the world: the palette and the
//! figures of the status sidebar.

use vstd::prelude::*;
use crate::map::Rgb;

verus! {

/// The colours of the game.
pub const BLACK: Rgb = (0, 0, 0);

pub const WHITE: Rgb = (255, 255, 255);

pub const GREY: Rgb = (136, 136, 136);

pub const GREEN: Rgb = (144, 238, 144);

pub const BROWN: Rgb = (150, 75, 0);

pub const DARK_BROWN: Rgb = (101, 67, 33);

pub const BLUE: Rgb = (0, 0, 200);

pub const LIGHT_BLUE: Rgb = (55, 198, 255);

pub const BEIGE: Rgb = (255, 178, 127);

pub const BRIGHT_RED: Rgb = (208, 28, 31);

pub const GOLD: Rgb = (255, 215, 0);

pub const YELLOW: Rgb = (255, 225, 53);

pub const YELLOW_ORANGE: Rgb = (255, 159, 0);

/// The figures shown beside the map.
#[derive(Debug)]
pub struct SidebarInfo {
    pub name: String,
    pub ac: u8,
    pub curr_hp: u8,
    pub max_hp: u8,
    pub wheel: i8,
    pub bearing: i8,
    pub turn: u32,
    pub charmed: bool,
    pub poisoned: bool,
    pub drunkeness: u8,
}

impl SidebarInfo {
    /// A sidebar with exactly the figures given.
    pub fn new(
        name: String,
        ac: u8,
        curr_hp: u8,
        max_hp: u8,
        wheel: i8,
        bearing: i8,
        turn: u32,
        charmed: bool,
        poisoned: bool,
        drunkeness: u8,
    ) -> (res: SidebarInfo)
        ensures
            res == (SidebarInfo {
                name,
                ac,
                curr_hp,
                max_hp,
                wheel,
                bearing,
                turn,
                charmed,
                poisoned,
                drunkeness,
            }),
    {
        SidebarInfo {
            name,
            ac,
            curr_hp,
            max_hp,
            wheel,
            bearing,
            turn,
            charmed,
            poisoned,
            drunkeness,
        }
    }
}

} // verus!
