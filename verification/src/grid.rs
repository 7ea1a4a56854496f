//! Coordinates and the grid they live on.

use crate::numeral::{
    decimal, decimal_text, is_numeral, lemma_decimal_len, lemma_decimal_reads_back,
    lemma_numeral_writes_back, numeral_value, read_decimal,
};
use crate::ship::{distinct, lemma_struck_marks, occupies, struck, sunk, Ship};
use vstd::prelude::*;

verus! {

/// A position on a grid, with a marker that tells whether it has been hit.
///
/// The marker matters only for a coordinate that belongs to a ship. Two
/// coordinates are equal when they name the same cell, whatever their markers.
#[derive(Clone, Copy, Debug)]
pub struct Coordinate {
    /// Column, counted from zero.
    pub x: u8,
    /// Row, counted from zero.
    pub y: u8,
    /// Whether a shot has landed here.
    pub is_hit: bool,
}

impl PartialEq for Coordinate {
    fn eq(&self, other: &Coordinate) -> (r: bool) {
        self.x == other.x && self.y == other.y
    }
}

impl Eq for Coordinate {}

impl vstd::std_specs::cmp::PartialEqSpecImpl for Coordinate {
    open spec fn obeys_eq_spec() -> bool {
        true
    }

    open spec fn eq_spec(&self, other: &Coordinate) -> bool {
        self.x == other.x && self.y == other.y
    }
}

impl Coordinate {
    /// The cell that this coordinate names.
    pub open spec fn cell(self) -> (int, int) {
        (self.x as int, self.y as int)
    }

    /// An unmarked coordinate at column `x` and row `y`.
    pub fn new(x: u8, y: u8) -> (c: Coordinate)
        ensures
            c == (Coordinate { x, y, is_hit: false }),
    {
        Coordinate { x, y, is_hit: false }
    }
}

/// The letter that designates column `x`: `A` for the first column, `Z` for
/// the last one that has a letter.
pub open spec fn column_char(x: u8) -> char
    recommends
        x < 26,
{
    ((x + 65) as u8) as char
}

/// The token that names the cell at column `x` and row `y`: the column's
/// letter, then the row's number in decimal, rows being numbered from one.
pub open spec fn token_of(x: u8, y: u8) -> Seq<char>
    recommends
        x < 26,
{
    seq![column_char(x)] + decimal(y as nat + 1)
}

/// Whether `token` names the cell at column `x` and row `y` of a grid that
/// is `width` columns wide and `height` rows high.
pub open spec fn names_cell(token: Seq<char>, x: u8, y: u8, width: u8, height: u8) -> bool {
    &&& x < 26
    &&& x < width
    &&& y < height
    &&& token == token_of(x, y)
}

/// What a token that names a cell looks like: a capital letter, then a
/// numeral of one to three digits.
pub proof fn lemma_token_shape(x: u8, y: u8)
    requires
        x < 26,
    ensures
        2 <= token_of(x, y).len() <= 4,
        token_of(x, y)[0] as u32 == x + 65,
        token_of(x, y).subrange(1, token_of(x, y).len() as int) == decimal(y as nat + 1),
{
    lemma_decimal_len(y as nat + 1);
    let t = token_of(x, y);
    assert(t.subrange(1, t.len() as int) =~= decimal(y as nat + 1));
}

/// Two cells with the same token are the same cell.
pub proof fn lemma_token_names_one_cell(x1: u8, y1: u8, x2: u8, y2: u8)
    requires
        x1 < 26,
        x2 < 26,
        token_of(x1, y1) == token_of(x2, y2),
    ensures
        x1 == x2,
        y1 == y2,
{
    lemma_token_shape(x1, y1);
    lemma_token_shape(x2, y2);
    lemma_decimal_reads_back(y1 as nat + 1);
    lemma_decimal_reads_back(y2 as nat + 1);
}

/// The one-character text of the letter of column `x`.
fn column_text(x: u8) -> (r: &'static str)
    requires
        x < 26,
    ensures
        r@ == seq![column_char(x)],
{
    let letters = "ABCDEFGHIJKLMNOPQRSTUVWXYZ";
    proof {
        reveal_strlit("ABCDEFGHIJKLMNOPQRSTUVWXYZ");
    }
    assert(letters.is_ascii());
    let from: usize = x as usize;
    let r = letters.substring_ascii(from, from + 1);
    assert(r@ =~= seq![column_char(x)]);
    r
}

/// The error of a token that names no cell of the grid.
#[derive(Clone, Copy, Debug, PartialEq, Eq, Structural)]
pub struct InvalidCoordinate;

impl Coordinate {
    /// Reads the token of a cell of a grid of the given size.
    ///
    /// Succeeds exactly on the tokens that name a cell of that grid, and gives
    /// that cell, unmarked.
    pub fn parse(token: &str, width: u8, height: u8) -> (r: Result<Coordinate, InvalidCoordinate>)
        ensures
            match r {
                Ok(c) => !c.is_hit && names_cell(token@, c.x, c.y, width, height),
                Err(_) => forall|x: u8, y: u8| !#[trigger] names_cell(token@, x, y, width, height),
            },
    {
        let n = token.unicode_len();
        proof {
            assert forall|x: u8, y: u8| #[trigger]
                names_cell(token@, x, y, width, height) implies 2 <= n <= 4 && token@[0] as u32 == x
                + 65 && is_numeral(token@.subrange(1, n as int)) && numeral_value(
                token@.subrange(1, n as int),
            ) == y + 1 by {
                lemma_token_shape(x, y);
                lemma_decimal_reads_back(y as nat + 1);
            }
        }
        if n < 2 || n > 4 {
            return Err(InvalidCoordinate);
        }
        let letter = token.get_char(0);
        if letter < 'A' || letter > 'Z' {
            return Err(InvalidCoordinate);
        }
        let x: u8 = (letter as u32 - 65) as u8;
        if x >= width {
            return Err(InvalidCoordinate);
        }
        let rest = token.substring_char(1, n);
        match read_decimal(rest) {
            Some(row) => {
                if row == 0 || row > height as u32 {
                    return Err(InvalidCoordinate);
                }
                let y: u8 = (row - 1) as u8;
                proof {
                    lemma_numeral_writes_back(rest@);
                    assert(column_char(x) == letter);
                    assert(token@ =~= token_of(x, y));
                }
                Ok(Coordinate { x, y, is_hit: false })
            },
            None => Err(InvalidCoordinate),
        }
    }

    /// The token that names this coordinate's cell, where its column has a
    /// letter.
    pub fn token(&self) -> (r: Option<String>)
        ensures
            r.is_some() <==> self.x < 26,
            r.is_some() ==> r.unwrap()@ == token_of(self.x, self.y),
    {
        if self.x < 26 {
            let mut text = String::from_str(column_text(self.x));
            let row: usize = self.y as usize + 1;
            let number = decimal_text(row);
            text.append(number.as_str());
            Some(text)
        } else {
            None
        }
    }
}

/// Whether a ship of `fleet` occupies the cell of `c`.
pub open spec fn fleet_occupies(fleet: Seq<Seq<Coordinate>>, c: Coordinate) -> bool {
    exists|s: int| 0 <= s < fleet.len() && occupies(#[trigger] fleet[s], c)
}

/// Whether `s` is the first ship of `fleet` that occupies the cell of `c`.
pub open spec fn first_ship_at(fleet: Seq<Seq<Coordinate>>, c: Coordinate, s: int) -> bool {
    &&& 0 <= s < fleet.len()
    &&& occupies(fleet[s], c)
    &&& forall|j: int| 0 <= j < s ==> !occupies(#[trigger] fleet[j], c)
}

/// What `fleet` becomes when a shot lands on the cell of `c`: the first ship
/// that occupies the cell is struck, and no other ship changes.
pub open spec fn fleet_struck(fleet: Seq<Seq<Coordinate>>, c: Coordinate) -> Seq<Seq<Coordinate>> {
    if fleet_occupies(fleet, c) {
        let s = choose|s: int| first_ship_at(fleet, c, s);
        fleet.update(s, struck(fleet[s], c))
    } else {
        fleet
    }
}

/// Whether every ship of `fleet` is sunk.
pub open spec fn fleet_sunk(fleet: Seq<Seq<Coordinate>>) -> bool {
    forall|s: int| 0 <= s < fleet.len() ==> sunk(#[trigger] fleet[s])
}

/// How many ships of `fleet` are not sunk.
pub open spec fn afloat(fleet: Seq<Seq<Coordinate>>) -> nat {
    fleet.filter(|cells: Seq<Coordinate>| !sunk(cells)).len()
}

/// Whether all of `cells` lie on a grid of the given size.
pub open spec fn in_bounds(cells: Seq<Coordinate>, width: u8, height: u8) -> bool {
    forall|k: int| 0 <= k < cells.len() ==> (#[trigger] cells[k]).x < width && cells[k].y < height
}

/// Whether no cell is occupied twice, by one ship of `fleet` or by two.
pub open spec fn fleet_distinct(fleet: Seq<Seq<Coordinate>>) -> bool {
    forall|s: int, j: int, t: int, k: int|
        0 <= s < fleet.len() && 0 <= j < fleet[s].len() && 0 <= t < fleet.len() && 0 <= k
            < fleet[t].len() && (s != t || j != k) ==> (#[trigger] fleet[s][j]).cell()
            != (#[trigger] fleet[t][k]).cell()
}

/// Whether the markers of `fleet` agree with the record `shots`: a cell of a
/// ship is marked exactly if a shot at it is on record.
pub open spec fn faithful(fleet: Seq<Seq<Coordinate>>, shots: Seq<Coordinate>) -> bool {
    forall|s: int, k: int|
        0 <= s < fleet.len() && 0 <= k < fleet[s].len() ==> ((#[trigger] fleet[s][k]).is_hit
            <==> occupies(shots, fleet[s][k]))
}

/// What an opponent may see of a fleet: for each shot on record, in order, a
/// ship of that one cell, marked if the shot landed on a ship of `fleet`.
pub open spec fn revealed_fleet(fleet: Seq<Seq<Coordinate>>, shots: Seq<Coordinate>) -> Seq<
    Seq<Coordinate>,
> {
    Seq::new(
        shots.len(),
        |k: int|
            seq![
                Coordinate {
                    x: shots[k].x,
                    y: shots[k].y,
                    is_hit: fleet_occupies(fleet, shots[k]),
                },
            ],
    )
}

/// The first ship that occupies a cell is the only first one, and it is
/// the ship that a shot strikes.
pub proof fn lemma_fleet_struck_at(fleet: Seq<Seq<Coordinate>>, c: Coordinate, s: int)
    requires
        first_ship_at(fleet, c, s),
    ensures
        fleet_occupies(fleet, c),
        fleet_struck(fleet, c) == fleet.update(s, struck(fleet[s], c)),
{
    let chosen = choose|s: int| first_ship_at(fleet, c, s);
    assert(first_ship_at(fleet, c, chosen));
    if chosen < s {
        assert(!occupies(fleet[chosen], c));
    }
    if s < chosen {
        assert(!occupies(fleet[s], c));
    }
}

/// What a shot does to a fleet in which no cell is occupied twice: ships
/// and cells stay where they are, the cells at the target become marked, and
/// no other marker changes.
pub proof fn lemma_shot_marks_target(fleet: Seq<Seq<Coordinate>>, c: Coordinate)
    requires
        fleet_distinct(fleet),
    ensures
        fleet_struck(fleet, c).len() == fleet.len(),
        forall|s: int|
            0 <= s < fleet.len() ==> (#[trigger] fleet_struck(fleet, c)[s]).len() == fleet[s].len(),
        forall|s: int, k: int|
            0 <= s < fleet.len() && 0 <= k < fleet[s].len() ==> {
                let after = #[trigger] fleet_struck(fleet, c)[s][k];
                &&& after.cell() == fleet[s][k].cell()
                &&& after.is_hit == (fleet[s][k].is_hit || fleet[s][k].cell() == c.cell())
            },
{
    if fleet_occupies(fleet, c) {
        let first = choose|s: int| first_ship_at(fleet, c, s);
        let witness = choose|s: int| 0 <= s < fleet.len() && occupies(#[trigger] fleet[s], c);
        lemma_first_ship_exists(fleet, c, witness);
        assert(first_ship_at(fleet, c, first));
        lemma_struck_marks(fleet[first], c);
        assert(distinct(fleet[first]));
        let place = choose|k: int|
            0 <= k < fleet[first].len() && #[trigger] fleet[first][k].cell() == c.cell();
        assert forall|s: int, k: int|
            0 <= s < fleet.len() && 0 <= k < fleet[s].len() implies ({
            let after = #[trigger] fleet_struck(fleet, c)[s][k];
            &&& after.cell() == fleet[s][k].cell()
            &&& after.is_hit == (fleet[s][k].is_hit || fleet[s][k].cell() == c.cell())
        }) by {
            if s != first {
                assert(fleet[s][k].cell() != fleet[first][place].cell());
            }
        }
    } else {
        assert forall|s: int, k: int|
            0 <= s < fleet.len() && 0 <= k < fleet[s].len() implies (#[trigger] fleet[s][k]).cell()
            != c.cell() by {
            if fleet[s][k].cell() == c.cell() {
                assert(occupies(fleet[s], c));
            }
        }
    }
}

/// A shot moves no ship: the cells that a fleet occupies are the same
/// after it, so a second shot at a cell hits exactly if the first one did.
pub proof fn lemma_shot_keeps_occupancy(fleet: Seq<Seq<Coordinate>>, c: Coordinate, d: Coordinate)
    ensures
        fleet_occupies(fleet_struck(fleet, c), d) == fleet_occupies(fleet, d),
{
    let after = fleet_struck(fleet, c);
    if fleet_occupies(fleet, c) {
        let first = choose|s: int| first_ship_at(fleet, c, s);
        let witness = choose|s: int| 0 <= s < fleet.len() && occupies(#[trigger] fleet[s], c);
        lemma_first_ship_exists(fleet, c, witness);
        assert(first_ship_at(fleet, c, first));
        lemma_struck_marks(fleet[first], c);
        assert forall|s: int| 0 <= s < fleet.len() implies occupies(#[trigger] after[s], d)
            == occupies(fleet[s], d) by {
            if s == first {
                if occupies(fleet[s], d) {
                    let k = choose|k: int|
                        0 <= k < fleet[s].len() && #[trigger] fleet[s][k].cell() == d.cell();
                    assert(after[s][k].cell() == d.cell());
                }
                if occupies(after[s], d) {
                    let k = choose|k: int|
                        0 <= k < after[s].len() && #[trigger] after[s][k].cell() == d.cell();
                    assert(fleet[s][k].cell() == d.cell());
                }
            }
        }
        if fleet_occupies(fleet, d) {
            let s = choose|s: int| 0 <= s < fleet.len() && occupies(#[trigger] fleet[s], d);
            assert(occupies(after[s], d));
        }
        if fleet_occupies(after, d) {
            let s = choose|s: int| 0 <= s < after.len() && occupies(#[trigger] after[s], d);
            assert(occupies(fleet[s], d));
        }
    }
}

/// Where some ship occupies a cell, there is a first ship that does.
pub proof fn lemma_first_ship_exists(fleet: Seq<Seq<Coordinate>>, c: Coordinate, s: int)
    requires
        0 <= s < fleet.len(),
        occupies(fleet[s], c),
    ensures
        exists|f: int| first_ship_at(fleet, c, f) && f <= s,
    decreases s,
{
    if exists|j: int| 0 <= j < s && occupies(#[trigger] fleet[j], c) {
        let j = choose|j: int| 0 <= j < s && occupies(#[trigger] fleet[j], c);
        lemma_first_ship_exists(fleet, c, j);
    } else {
        assert(first_ship_at(fleet, c, s));
    }
}

/// A shot leaves a validly placed fleet validly placed.
pub proof fn lemma_shot_keeps_placement(grid: GridView, c: Coordinate)
    requires
        grid.well_placed(),
    ensures
        grid.shot_at(c).well_placed(),
{
    lemma_shot_marks_target(grid.fleet, c);
    let after = fleet_struck(grid.fleet, c);
    assert forall|s: int| 0 <= s < after.len() implies in_bounds(
        #[trigger] after[s],
        grid.width,
        grid.height,
    ) by {
        assert(in_bounds(grid.fleet[s], grid.width, grid.height));
        assert forall|k: int| 0 <= k < after[s].len() implies (#[trigger] after[s][k]).x
            < grid.width && after[s][k].y < grid.height by {
            assert(after[s][k].cell() == grid.fleet[s][k].cell());
        }
    }
    assert forall|s: int, j: int, t: int, k: int|
        0 <= s < after.len() && 0 <= j < after[s].len() && 0 <= t < after.len() && 0 <= k
            < after[t].len() && (s != t || j != k) implies (#[trigger] after[s][j]).cell()
        != (#[trigger] after[t][k]).cell() by {
        assert(after[s][j].cell() == grid.fleet[s][j].cell());
        assert(after[t][k].cell() == grid.fleet[t][k].cell());
    }
}

/// Where no cell is occupied twice and the markers agree with the record
/// of shots, they still agree after a shot.
pub proof fn lemma_shot_keeps_faithful(grid: GridView, c: Coordinate)
    requires
        fleet_distinct(grid.fleet),
        grid.faithful(),
    ensures
        grid.shot_at(c).faithful(),
{
    lemma_shot_marks_target(grid.fleet, c);
    let after = fleet_struck(grid.fleet, c);
    let shots = grid.hits.push(c);
    assert forall|s: int, k: int| 0 <= s < after.len() && 0 <= k < after[s].len() implies ((
    #[trigger] after[s][k]).is_hit <==> occupies(shots, after[s][k])) by {
        let before = grid.fleet[s][k];
        assert(after[s][k].cell() == before.cell());
        if occupies(grid.hits, before) {
            let i = choose|i: int|
                0 <= i < grid.hits.len() && #[trigger] grid.hits[i].cell() == before.cell();
            assert(shots[i].cell() == before.cell());
        }
        if before.cell() == c.cell() {
            assert(shots[grid.hits.len() as int].cell() == before.cell());
        }
        if occupies(shots, after[s][k]) {
            let i = choose|i: int|
                0 <= i < shots.len() && #[trigger] shots[i].cell() == after[s][k].cell();
            if i < grid.hits.len() {
                assert(grid.hits[i].cell() == before.cell());
            }
        }
    }
}

/// Where the markers agree with the record of shots, a ship is sunk
/// exactly if every cell that it occupies has been fired at.
pub proof fn lemma_sunk_iff_all_fired(grid: GridView, s: int)
    requires
        grid.faithful(),
        0 <= s < grid.fleet.len(),
    ensures
        sunk(grid.fleet[s]) <==> forall|k: int|
            0 <= k < grid.fleet[s].len() ==> occupies(grid.hits, #[trigger] grid.fleet[s][k]),
{
}

/// Whether one of `cells` is occupied by a ship of `fleet`.
pub open spec fn overlaps(fleet: Seq<Seq<Coordinate>>, cells: Seq<Coordinate>) -> bool {
    exists|k: int| 0 <= k < cells.len() && fleet_occupies(fleet, #[trigger] cells[k])
}

/// Why a ship cannot be placed on a grid.
#[derive(Clone, Copy, Debug, PartialEq, Eq, Structural)]
pub enum PlacementError {
    /// A cell of the ship lies off the grid.
    OutOfBounds,
    /// The ship names a cell twice, or a cell that another ship occupies.
    Overlapping,
}

/// The mathematical content of a grid.
pub struct GridView {
    /// Number of columns.
    pub width: u8,
    /// Number of rows.
    pub height: u8,
    /// The cells of each ship, ship by ship.
    pub fleet: Seq<Seq<Coordinate>>,
    /// The shots fired at the grid, oldest first.
    pub hits: Seq<Coordinate>,
}

/// A player's grid: the fleet placed on it and the record of the shots
/// fired at it.
#[derive(Debug)]
pub struct Grid {
    /// Number of columns.
    pub width: u8,
    /// Number of rows.
    pub height: u8,
    /// The ships placed on the grid.
    pub ships: Vec<Ship>,
    /// Every shot fired at the grid, hit or miss, oldest first. A cell that
    /// was fired at twice is recorded twice.
    pub hits: Vec<Coordinate>,
}

impl View for Grid {
    type V = GridView;

    open spec fn view(&self) -> GridView {
        GridView {
            width: self.width,
            height: self.height,
            fleet: Seq::new(self.ships@.len(), |s: int| self.ships@[s]@),
            hits: self.hits@,
        }
    }
}

impl GridView {
    /// Whether the fleet is validly placed: every ship lies on the grid, and
    /// no cell is occupied twice.
    pub open spec fn well_placed(self) -> bool {
        &&& forall|s: int|
            0 <= s < self.fleet.len() ==> in_bounds(
                #[trigger] self.fleet[s],
                self.width,
                self.height,
            )
        &&& fleet_distinct(self.fleet)
    }

    /// Whether the markers of the fleet agree with the record of shots.
    pub open spec fn faithful(self) -> bool {
        faithful(self.fleet, self.hits)
    }

    /// The grid after a shot at the cell of `c`: the shot is on record, and
    /// it has landed on the fleet.
    pub open spec fn shot_at(self, c: Coordinate) -> GridView {
        GridView {
            width: self.width,
            height: self.height,
            fleet: fleet_struck(self.fleet, c),
            hits: self.hits.push(c),
        }
    }
}

impl Grid {
    /// An empty grid of the given size: no ship, no shot.
    pub fn new(width: u8, height: u8) -> (grid: Grid)
        ensures
            grid@ == (GridView { width, height, fleet: Seq::empty(), hits: Seq::empty() }),
            grid@.well_placed(),
            grid@.faithful(),
    {
        let grid = Grid { width, height, ships: Vec::new(), hits: Vec::new() };
        assert(grid@.fleet =~= Seq::<Seq<Coordinate>>::empty());
        grid
    }

    /// A grid with the same size, ships and record of shots.
    pub fn duplicate(&self) -> (grid: Grid)
        ensures
            grid@ == self@,
    {
        let mut ships: Vec<Ship> = Vec::new();
        let mut s: usize = 0;
        while s < self.ships.len()
            invariant
                0 <= s <= self.ships.len(),
                ships@.len() == s,
                forall|j: int| 0 <= j < s ==> (#[trigger] ships@[j])@ == self.ships@[j]@,
            decreases self.ships.len() - s,
        {
            ships.push(self.ships[s].duplicate());
            s = s + 1;
        }
        let mut hits: Vec<Coordinate> = Vec::new();
        let mut k: usize = 0;
        while k < self.hits.len()
            invariant
                0 <= k <= self.hits.len(),
                hits@ == self.hits@.take(k as int),
            decreases self.hits.len() - k,
        {
            hits.push(self.hits[k]);
            k = k + 1;
            assert(hits@ =~= self.hits@.take(k as int));
        }
        assert(hits@ =~= self.hits@);
        let grid = Grid { width: self.width, height: self.height, ships, hits };
        assert(grid@.fleet =~= self@.fleet);
        grid
    }

    /// The first ship that occupies the cell of `c`.
    pub fn ship_at(&self, c: &Coordinate) -> (r: Option<usize>)
        ensures
            r.is_some() <==> fleet_occupies(self@.fleet, *c),
            r.is_some() ==> first_ship_at(self@.fleet, *c, r.unwrap() as int),
    {
        let mut s: usize = 0;
        while s < self.ships.len()
            invariant
                0 <= s <= self.ships.len(),
                forall|j: int| 0 <= j < s ==> !occupies(#[trigger] self@.fleet[j], *c),
            decreases self.ships.len() - s,
        {
            if self.ships[s].contains(c) {
                assert(occupies(self@.fleet[s as int], *c));
                return Some(s);
            }
            s = s + 1;
        }
        None
    }

    /// Whether a ship of the grid occupies the cell of `c`.
    pub fn is_occupied(&self, c: &Coordinate) -> (r: bool)
        ensures
            r == fleet_occupies(self@.fleet, *c),
    {
        self.ship_at(c).is_some()
    }

    /// Records a shot at the cell of `c` and lands it.
    ///
    /// The shot is added to the record whether it hits or not. It hits if a
    /// ship occupies the cell: the first such ship is then struck. The result
    /// tells whether the shot hit.
    pub fn fire(&mut self, c: Coordinate) -> (r: bool)
        ensures
            r == fleet_occupies(old(self)@.fleet, c),
            final(self)@ == old(self)@.shot_at(c),
            !r ==> final(self)@.fleet == old(self)@.fleet,
            old(self)@.well_placed() ==> final(self)@.well_placed(),
            old(self)@.well_placed() && old(self)@.faithful() ==> final(self)@.faithful(),
    {
        proof {
            if old(self)@.well_placed() {
                lemma_shot_keeps_placement(old(self)@, c);
                if old(self)@.faithful() {
                    lemma_shot_keeps_faithful(old(self)@, c);
                }
            }
        }
        self.hits.push(c);
        match self.ship_at(&c) {
            Some(s) => {
                proof {
                    lemma_fleet_struck_at(self@.fleet, c, s as int);
                }
                self.ships[s].strike(&c);
                assert(self@.fleet =~= fleet_struck(old(self)@.fleet, c));
                true
            },
            None => false,
        }
    }

    /// Whether every ship of the grid is sunk.
    pub fn all_sunk(&self) -> (r: bool)
        ensures
            r == fleet_sunk(self@.fleet),
    {
        let mut s: usize = 0;
        while s < self.ships.len()
            invariant
                0 <= s <= self.ships.len(),
                forall|j: int| 0 <= j < s ==> sunk(#[trigger] self@.fleet[j]),
            decreases self.ships.len() - s,
        {
            if !self.ships[s].is_sunk() {
                assert(!sunk(self@.fleet[s as int]));
                return false;
            }
            s = s + 1;
        }
        true
    }

    /// How many ships of the grid are not sunk.
    pub fn remaining(&self) -> (n: usize)
        ensures
            n == afloat(self@.fleet),
    {
        let ghost fleet = self@.fleet;
        let ghost floats = |cells: Seq<Coordinate>| !sunk(cells);
        let mut n: usize = 0;
        let mut s: usize = 0;
        while s < self.ships.len()
            invariant
                0 <= s <= self.ships.len(),
                fleet == self@.fleet,
                floats == |cells: Seq<Coordinate>| !sunk(cells),
                n == fleet.take(s as int).filter(floats).len(),
                n <= s,
            decreases self.ships.len() - s,
        {
            proof {
                fleet.lemma_take_succ_push(s as int);
                fleet.take(s as int).lemma_filter_len_push(floats, fleet[s as int]);
            }
            if !self.ships[s].is_sunk() {
                n = n + 1;
            }
            s = s + 1;
        }
        assert(fleet.take(s as int) =~= fleet);
        n
    }

    /// What an opponent may see of this grid, as a grid of the given size:
    /// one ship of one cell for each shot on record, marked if the shot hit,
    /// and no record of shots.
    pub fn revealed(&self, width: u8, height: u8) -> (grid: Grid)
        ensures
            grid@ == (GridView {
                width,
                height,
                fleet: revealed_fleet(self@.fleet, self@.hits),
                hits: Seq::empty(),
            }),
    {
        let mut ships: Vec<Ship> = Vec::new();
        let mut k: usize = 0;
        while k < self.hits.len()
            invariant
                0 <= k <= self.hits.len(),
                ships@.len() == k,
                forall|j: int|
                    0 <= j < k ==> (#[trigger] ships@[j])@ == revealed_fleet(
                        self@.fleet,
                        self@.hits,
                    )[j],
            decreases self.hits.len() - k,
        {
            let shot = self.hits[k];
            let mut coords: Vec<Coordinate> = Vec::new();
            coords.push(Coordinate { x: shot.x, y: shot.y, is_hit: self.is_occupied(&shot) });
            let ship = Ship::new(coords);
            assert(ship@ =~= revealed_fleet(self@.fleet, self@.hits)[k as int]);
            ships.push(ship);
            k = k + 1;
        }
        let grid = Grid { width, height, ships, hits: Vec::new() };
        assert(grid@.fleet =~= revealed_fleet(self@.fleet, self@.hits));
        grid
    }

    /// Places a ship on the grid, after the ships already there.
    ///
    /// The ship is refused, and the grid left as it was, if one of its cells
    /// lies off the grid, or else if it names a cell twice or a cell that
    /// another ship occupies.
    pub fn place(&mut self, ship: Ship) -> (r: Result<(), PlacementError>)
        ensures
            match r {
                Ok(_) => {
                    &&& in_bounds(ship@, old(self).width, old(self).height)
                    &&& distinct(ship@)
                    &&& !overlaps(old(self)@.fleet, ship@)
                    &&& final(self)@ == (GridView {
                        fleet: old(self)@.fleet.push(ship@),
                        ..old(self)@
                    })
                },
                Err(e) => {
                    &&& final(self)@ == old(self)@
                    &&& e == PlacementError::OutOfBounds <==> !in_bounds(
                        ship@,
                        old(self).width,
                        old(self).height,
                    )
                    &&& e == PlacementError::Overlapping ==> !distinct(ship@) || overlaps(
                        old(self)@.fleet,
                        ship@,
                    )
                },
            },
            old(self)@.well_placed() ==> final(self)@.well_placed(),
            old(self)@.faithful() && faithful(seq![ship@], old(self)@.hits)
                ==> final(self)@.faithful(),
    {
        let n = ship.coords.len();
        let mut k: usize = 0;
        while k < n
            invariant
                0 <= k <= n,
                n == ship@.len(),
                forall|j: int|
                    0 <= j < k ==> (#[trigger] ship@[j]).x < self.width && ship@[j].y < self.height,
            decreases n - k,
        {
            if ship.coords[k].x >= self.width || ship.coords[k].y >= self.height {
                return Err(PlacementError::OutOfBounds);
            }
            k = k + 1;
        }
        k = 0;
        while k < n
            invariant
                0 <= k <= n,
                n == ship@.len(),
                self == old(self),
                in_bounds(ship@, self.width, self.height),
                forall|i: int, j: int|
                    0 <= i < j < k ==> (#[trigger] ship@[i]).cell() != (#[trigger] ship@[j]).cell(),
                forall|j: int| 0 <= j < k ==> !fleet_occupies(self@.fleet, #[trigger] ship@[j]),
            decreases n - k,
        {
            if self.is_occupied(&ship.coords[k]) {
                assert(fleet_occupies(self@.fleet, ship@[k as int]));
                return Err(PlacementError::Overlapping);
            }
            let mut i: usize = 0;
            while i < k
                invariant
                    0 <= i <= k < n,
                    n == ship@.len(),
                    self == old(self),
                    in_bounds(ship@, self.width, self.height),
                    forall|j: int|
                        0 <= j < i ==> (#[trigger] ship@[j]).cell() != ship@[k as int].cell(),
                decreases k - i,
            {
                if ship.coords[i] == ship.coords[k] {
                    assert(ship@[i as int].cell() == ship@[k as int].cell());
                    return Err(PlacementError::Overlapping);
                }
                i = i + 1;
            }
            k = k + 1;
        }
        let ghost cells = ship@;
        self.ships.push(ship);
        proof {
            let before = old(self)@.fleet;
            let after = self@.fleet;
            assert(after =~= before.push(cells));
            if old(self)@.well_placed() {
                assert forall|s: int, j: int, t: int, k: int|
                    0 <= s < after.len() && 0 <= j < after[s].len() && 0 <= t < after.len() && 0
                        <= k < after[t].len() && (s != t || j != k) implies (
                #[trigger] after[s][j]).cell() != (#[trigger] after[t][k]).cell() by {
                    if s < before.len() && t < before.len() {
                        assert(before[s][j].cell() != before[t][k].cell());
                    } else if s < before.len() {
                        if before[s][j].cell() == cells[k].cell() {
                            assert(occupies(before[s], cells[k]));
                        }
                    } else if t < before.len() {
                        if before[t][k].cell() == cells[j].cell() {
                            assert(occupies(before[t], cells[j]));
                        }
                    }
                }
                assert forall|s: int| 0 <= s < after.len() implies in_bounds(
                    #[trigger] after[s],
                    self@.width,
                    self@.height,
                ) by {
                    if s < before.len() {
                        assert(in_bounds(before[s], self@.width, self@.height));
                    }
                }
            }
            if old(self)@.faithful() && faithful(seq![cells], old(self)@.hits) {
                assert forall|s: int, k: int|
                    0 <= s < after.len() && 0 <= k < after[s].len() implies ((
                #[trigger] after[s][k]).is_hit <==> occupies(self@.hits, after[s][k])) by {
                    if s < before.len() {
                        assert(after[s][k] == before[s][k]);
                    } else {
                        assert(after[s][k] == seq![cells][0][k]);
                    }
                }
            }
        }
        Ok(())
    }
}

} // verus!
