//! Ships: the cells that a vessel occupies, and what shots do to them.

use crate::grid::Coordinate;
use vstd::prelude::*;

verus! {

/// Whether one of `cells` names the cell of `c`.
pub open spec fn occupies(cells: Seq<Coordinate>, c: Coordinate) -> bool {
    exists|k: int| 0 <= k < cells.len() && #[trigger] cells[k].cell() == c.cell()
}

/// Whether every one of `cells` has been hit.
pub open spec fn sunk(cells: Seq<Coordinate>) -> bool {
    forall|k: int| 0 <= k < cells.len() ==> (#[trigger] cells[k]).is_hit
}

/// Whether `k` is the first place in `cells` that names the cell of `c`.
pub open spec fn first_at(cells: Seq<Coordinate>, c: Coordinate, k: int) -> bool {
    &&& 0 <= k < cells.len()
    &&& cells[k].cell() == c.cell()
    &&& forall|j: int| 0 <= j < k ==> (#[trigger] cells[j]).cell() != c.cell()
}

/// The coordinate `c`, marked as hit.
pub open spec fn hit(c: Coordinate) -> Coordinate {
    Coordinate { x: c.x, y: c.y, is_hit: true }
}

/// What `cells` become when a shot lands on the cell of `c`: the first of
/// them that names the cell is marked, and nothing else changes.
pub open spec fn struck(cells: Seq<Coordinate>, c: Coordinate) -> Seq<Coordinate> {
    if occupies(cells, c) {
        let k = choose|k: int| first_at(cells, c, k);
        cells.update(k, hit(cells[k]))
    } else {
        cells
    }
}

/// Whether no two of `cells` name the same cell.
pub open spec fn distinct(cells: Seq<Coordinate>) -> bool {
    forall|j: int, k: int|
        0 <= j < k < cells.len() ==> (#[trigger] cells[j]).cell() != (#[trigger] cells[k]).cell()
}

/// The first place that names a cell is the only first one, and it is the
/// place that a shot marks.
pub proof fn lemma_struck_at(cells: Seq<Coordinate>, c: Coordinate, k: int)
    requires
        first_at(cells, c, k),
    ensures
        occupies(cells, c),
        struck(cells, c) == cells.update(k, hit(cells[k])),
{
    let chosen = choose|k: int| first_at(cells, c, k);
    assert(first_at(cells, c, chosen));
    if chosen < k {
        assert(cells[chosen].cell() != c.cell());
    }
    if k < chosen {
        assert(cells[k].cell() != c.cell());
    }
}

/// A shot changes no cell's place, marks the cell that it lands on, and
/// leaves every other marker as it was, provided no cell occurs twice.
pub proof fn lemma_struck_marks(cells: Seq<Coordinate>, c: Coordinate)
    ensures
        struck(cells, c).len() == cells.len(),
        forall|k: int|
            0 <= k < cells.len() ==> (#[trigger] struck(cells, c)[k]).cell() == cells[k].cell(),
        forall|k: int|
            0 <= k < cells.len() && cells[k].is_hit ==> (#[trigger] struck(cells, c)[k]).is_hit,
        forall|k: int|
            0 <= k < cells.len() && cells[k].cell() != c.cell() ==> #[trigger] struck(cells, c)[k]
                == cells[k],
        distinct(cells) ==> forall|k: int|
            0 <= k < cells.len() && cells[k].cell() == c.cell() ==> (#[trigger] struck(
                cells,
                c,
            )[k]).is_hit,
{
    if occupies(cells, c) {
        let first = choose|k: int| first_at(cells, c, k);
        let witness = choose|k: int| 0 <= k < cells.len() && #[trigger] cells[k].cell() == c.cell();
        lemma_first_exists(cells, c, witness);
        assert(first_at(cells, c, first));
    }
}

/// Where some place names a cell, there is a first place that does.
pub proof fn lemma_first_exists(cells: Seq<Coordinate>, c: Coordinate, k: int)
    requires
        0 <= k < cells.len(),
        cells[k].cell() == c.cell(),
    ensures
        exists|f: int| first_at(cells, c, f) && f <= k,
    decreases k,
{
    if exists|j: int| 0 <= j < k && (#[trigger] cells[j]).cell() == c.cell() {
        let j = choose|j: int| 0 <= j < k && (#[trigger] cells[j]).cell() == c.cell();
        lemma_first_exists(cells, c, j);
    } else {
        assert(first_at(cells, c, k));
    }
}

/// The cells of a straight run of `length` cells that starts at column `x`
/// and row `y` and goes down if `vertical`, to the right if not. None of
/// them is marked.
pub open spec fn run_cells(x: u8, y: u8, length: u8, vertical: bool) -> Seq<Coordinate> {
    Seq::new(
        length as nat,
        |k: int|
            if vertical {
                Coordinate { x, y: (y + k) as u8, is_hit: false }
            } else {
                Coordinate { x: (x + k) as u8, y, is_hit: false }
            },
    )
}

/// Whether the last cell of such a run still has a column and a row that
/// can be written down.
pub open spec fn run_fits(x: u8, y: u8, length: u8, vertical: bool) -> bool {
    if vertical {
        y + length <= 256
    } else {
        x + length <= 256
    }
}

/// A vessel placed on a grid.
#[derive(Debug)]
pub struct Ship {
    /// The cells that the vessel occupies, each with its hit marker.
    pub coords: Vec<Coordinate>,
}

impl View for Ship {
    type V = Seq<Coordinate>;

    open spec fn view(&self) -> Seq<Coordinate> {
        self.coords@
    }
}

impl Ship {
    /// A ship on the given cells.
    pub fn new(coords: Vec<Coordinate>) -> (ship: Ship)
        ensures
            ship@ == coords@,
    {
        Ship { coords }
    }

    /// A ship on a straight run of `length` cells from column `x` and row
    /// `y`, downwards if `vertical` and to the right if not; nothing if the
    /// run leaves the range of columns and rows.
    pub fn line(x: u8, y: u8, length: u8, vertical: bool) -> (r: Option<Ship>)
        ensures
            r.is_some() <==> run_fits(x, y, length, vertical),
            r.is_some() ==> r.unwrap()@ == run_cells(x, y, length, vertical),
    {
        let start: u8 = if vertical { y } else { x };
        if length > 0 && start > u8::MAX - (length - 1) {
            return None;
        }
        let mut coords: Vec<Coordinate> = Vec::new();
        let mut k: u8 = 0;
        while k < length
            invariant
                0 <= k <= length,
                start == if vertical { y } else { x },
                start + length <= 256,
                coords@ == run_cells(x, y, k, vertical),
            decreases length - k,
        {
            let cell = if vertical {
                Coordinate { x, y: y + k, is_hit: false }
            } else {
                Coordinate { x: x + k, y, is_hit: false }
            };
            coords.push(cell);
            k = k + 1;
            assert(coords@ =~= run_cells(x, y, k, vertical));
        }
        Some(Ship { coords })
    }

    /// A ship on the same cells, with the same markers.
    pub fn duplicate(&self) -> (ship: Ship)
        ensures
            ship@ == self@,
    {
        let mut coords: Vec<Coordinate> = Vec::new();
        let mut k: usize = 0;
        while k < self.coords.len()
            invariant
                0 <= k <= self.coords.len(),
                coords@ == self.coords@.take(k as int),
            decreases self.coords.len() - k,
        {
            coords.push(self.coords[k]);
            k = k + 1;
            assert(coords@ =~= self.coords@.take(k as int));
        }
        assert(coords@ =~= self.coords@);
        Ship { coords }
    }

    /// Whether the ship occupies the cell of `c`.
    pub fn contains(&self, c: &Coordinate) -> (r: bool)
        ensures
            r == occupies(self@, *c),
    {
        self.position(c).is_some()
    }

    /// The first place among the ship's cells that names the cell of `c`.
    pub fn position(&self, c: &Coordinate) -> (r: Option<usize>)
        ensures
            r.is_some() <==> occupies(self@, *c),
            r.is_some() ==> first_at(self@, *c, r.unwrap() as int),
    {
        let mut k: usize = 0;
        while k < self.coords.len()
            invariant
                0 <= k <= self.coords.len(),
                forall|j: int| 0 <= j < k ==> (#[trigger] self.coords@[j]).cell() != c.cell(),
            decreases self.coords.len() - k,
        {
            if self.coords[k] == *c {
                assert(self@[k as int].cell() == c.cell());
                return Some(k);
            }
            k = k + 1;
        }
        None
    }

    /// Whether every cell of the ship has been hit.
    pub fn is_sunk(&self) -> (r: bool)
        ensures
            r == sunk(self@),
    {
        let mut k: usize = 0;
        while k < self.coords.len()
            invariant
                0 <= k <= self.coords.len(),
                forall|j: int| 0 <= j < k ==> (#[trigger] self.coords@[j]).is_hit,
            decreases self.coords.len() - k,
        {
            if !self.coords[k].is_hit {
                return false;
            }
            k = k + 1;
        }
        true
    }

    /// Lands a shot on the cell of `c`.
    ///
    /// Tells whether the ship occupies that cell. If it does, the first of the
    /// ship's cells that names it is marked as hit.
    pub fn strike(&mut self, c: &Coordinate) -> (r: bool)
        ensures
            r == occupies(old(self)@, *c),
            final(self)@ == struck(old(self)@, *c),
    {
        match self.position(c) {
            Some(k) => {
                proof {
                    lemma_struck_at(self@, *c, k as int);
                }
                let cell = self.coords[k];
                self.coords.set(k, Coordinate { x: cell.x, y: cell.y, is_hit: true });
                true
            },
            None => false,
        }
    }
}

} // verus!
