//! Players: a name and the grid that holds the player's fleet.

use crate::grid::{Grid, GridView};
use vstd::prelude::*;

verus! {

/// The mathematical content of a player.
pub struct PlayerView {
    /// The player's name.
    pub name: Seq<char>,
    /// The player's grid.
    pub grid: GridView,
}

/// A participant of a match.
///
/// A player owns the grid with their fleet. The shots recorded on that grid
/// are those of the player who fires at it; a player keeps no record of the
/// shots that they fired themselves.
#[derive(Debug)]
pub struct Player {
    /// The name under which the player is announced to the others.
    pub name: String,
    /// The player's own grid.
    pub grid: Grid,
}

impl View for Player {
    type V = PlayerView;

    open spec fn view(&self) -> PlayerView {
        PlayerView { name: self.name@, grid: self.grid@ }
    }
}

impl Player {
    /// A player of the given name, with an empty grid of no size: the fleet
    /// is assigned when the match is set up.
    pub fn new(name: String) -> (player: Player)
        ensures
            player@.name == name@,
            player@.grid == (GridView {
                width: 0,
                height: 0,
                fleet: Seq::empty(),
                hits: Seq::empty(),
            }),
            player@.grid.well_placed(),
            player@.grid.faithful(),
    {
        Player { name, grid: Grid::new(0, 0) }
    }
}

} // verus!
