//! Weather: the cells that fog currently covers.

use vstd::prelude::*;
use crate::map::{in_bounds, spec_in_bounds, Grid};
use crate::table::Table;
use crate::util::Coord;

verus! {

/// A set of cells, in the order in which they were first put in.
pub type CoordSet = Table<Coord, ()>;

/// The weather over one map.
#[derive(Debug)]
pub struct Weather {
    pub clouds: CoordSet,
}

impl Weather {
    /// Clear skies.
    pub fn new() -> (res: Weather)
        ensures
            res.clouds@ == Map::<Coord, ()>::empty(),
    {
        Weather { clouds: Table::new() }
    }

    /// Blows all fog away.
    pub fn clear(&mut self)
        ensures
            final(self).clouds@ == Map::<Coord, ()>::empty(),
    {
        self.clouds = Table::new();
    }

    /// Puts fog on the point `pt` if it is a cell of `map`; a point off the
    /// map changes nothing.
    pub fn add_cloud(&mut self, map: &Grid, pt: (i32, i32))
        ensures
            final(self).clouds@ == if spec_in_bounds(map@, pt.0 as int, pt.1 as int) {
                old(self).clouds@.insert((pt.0 as usize, pt.1 as usize), ())
            } else {
                old(self).clouds@
            },
    {
        if in_bounds(map, pt.0, pt.1) {
            self.clouds.insert((pt.0 as usize, pt.1 as usize), ());
        }
    }
}

} // verus!
