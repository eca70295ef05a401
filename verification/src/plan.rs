//! The plan for one save-modification pass: a save root, a default action,
//! and the exception regions that override it, with the per-file decision
//! the file-walking layer applies.

use vstd::prelude::*;

use crate::coord::{spec_parse_map_coord, MapCoord, MapCoordParseError};
use crate::region::MapRegion;

verus! {

/// What to do with a chunk file.
#[derive(Copy, Clone, Debug, PartialEq, Eq, Structural)]
pub enum Action {
    Save,
    Delete,
}

impl Action {
    /// The other action.
    pub open spec fn spec_opposite(self) -> Action {
        match self {
            Action::Save => Action::Delete,
            Action::Delete => Action::Save,
        }
    }

    /// The other action: exception regions override the default to this.
    pub fn opposite(&self) -> (r: Action)
        ensures
            r == self.spec_opposite(),
    {
        match self {
            Action::Save => Action::Delete,
            Action::Delete => Action::Save,
        }
    }
}

/// One save-modification pass: the default action applies to every tile
/// not covered by an exception region; exception regions flip it.
#[derive(Clone, Debug)]
pub struct ModifyMap {
    pub root_path: String,
    pub default_action: Action,
    pub exception_regions: Vec<MapRegion>,
}

impl ModifyMap {
    pub fn new(root_path: String, default_action: Action, exception_regions: Vec<MapRegion>) -> (r:
        Self)
        ensures
            r.root_path == root_path,
            r.default_action == default_action,
            r.exception_regions == exception_regions,
    {
        ModifyMap { root_path, default_action, exception_regions }
    }

    /// Some exception region contains the coordinate.
    pub open spec fn spec_excepted(self, c: MapCoord) -> bool {
        exists|i: int|
            0 <= i < self.exception_regions@.len() && self.exception_regions@[i].spec_contains(c)
    }

    /// The action owed to a tile: the default, flipped where an exception
    /// region contains the tile.
    pub open spec fn spec_action_for(self, c: MapCoord) -> Action {
        if self.spec_excepted(c) {
            self.default_action.spec_opposite()
        } else {
            self.default_action
        }
    }

    /// Decides the action for one tile coordinate, checking the exception
    /// regions in list order. All containing regions flip the default to
    /// the same opposite action, so the first match settles the decision.
    pub fn action_for(&self, coord: &MapCoord) -> (r: Action)
        ensures
            r == self.spec_action_for(*coord),
    {
        let n: usize = self.exception_regions.len();
        let mut i: usize = 0;
        while i < n
            invariant
                i <= n,
                n == self.exception_regions@.len(),
                forall|j: int| 0 <= j < i ==> !self.exception_regions@[j].spec_contains(*coord),
            decreases n - i,
        {
            if self.exception_regions[i].contains(coord) {
                return self.default_action.opposite();
            }
            i = i + 1;
        }
        self.default_action
    }

    /// Decides the action for one directory entry: a filename that names a
    /// tile coordinate gets that tile's action; any other filename is no
    /// map-chunk file and gets `None` (skip).
    pub fn action_for_file(&self, filename: &str) -> (r: Option<Action>)
        ensures
            match spec_parse_map_coord(filename@) {
                Ok(c) => r == Some(self.spec_action_for(c)),
                Err(_) => r is None,
            },
    {
        match MapCoord::from_str(filename) {
            Ok(c) => Some(self.action_for(&c)),
            Err(_) => None,
        }
    }
}

} // verus!
