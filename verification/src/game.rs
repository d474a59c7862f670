//! The grid state machine: a rectangular, toroidally wrapped field of cells
//! together with the rules that advance it one step at a time.

use vstd::prelude::*;

verus! {

/// The two states a cell can be in.
#[derive(Clone, Copy, PartialEq, Eq, Structural, Debug)]
pub enum LifeState {
    Alive,
    Dead,
}

/// A single cell of the grid.
#[derive(Clone, Copy, PartialEq, Eq, Structural, Debug)]
pub struct Cellule {
    pub life_state: LifeState,
}

/// The cell whose state is `Alive` when `alive` holds, `Dead` otherwise.
pub open spec fn cellule_of(alive: bool) -> Cellule {
    Cellule { life_state: if alive { LifeState::Alive } else { LifeState::Dead } }
}

/// The cell of a row-major sequence of width `w` at `(row, col)`.
pub open spec fn cell_at(cells: Seq<Cellule>, w: int, row: int, col: int) -> Cellule {
    cells[row * w + col]
}

/// How many cells of `s` are alive.
pub open spec fn count_alive(s: Seq<Cellule>) -> int
    decreases s.len(),
{
    if s.len() == 0 {
        0
    } else {
        count_alive(s.drop_last()) + if s.last().is_alive() { 1int } else { 0int }
    }
}

impl Cellule {
    /// Whether this cell is alive.
    pub open spec fn is_alive(self) -> bool {
        self.life_state == LifeState::Alive
    }

    pub fn set_alive(&mut self)
        ensures
            *final(self) == cellule_of(true),
    {
        self.life_state = LifeState::Alive;
    }

    pub fn set_dead(&mut self)
        ensures
            *final(self) == cellule_of(false),
    {
        self.life_state = LifeState::Dead;
    }

    #[verifier::when_used_as_spec(is_alive)]
    pub fn alive(self) -> (r: bool)
        ensures
            r == self.is_alive(),
    {
        self.life_state == LifeState::Alive
    }

    /// How many of the given cells are alive.
    pub fn count_alive_neighbors(neighbors: &[Cellule]) -> (r: usize)
        ensures
            r == count_alive(neighbors@),
    {
        let mut count: usize = 0;
        let mut i: usize = 0;
        while i < neighbors.len()
            invariant
                0 <= i <= neighbors@.len(),
                count == count_alive(neighbors@.take(i as int)),
                count <= i,
            decreases neighbors@.len() - i,
        {
            proof {
                assert(neighbors@.take(i + 1).drop_last() =~= neighbors@.take(i as int));
                assert(neighbors@.take(i + 1).last() == neighbors@[i as int]);
            }
            if neighbors[i].alive() {
                count = count + 1;
            }
            i = i + 1;
        }
        proof {
            assert(neighbors@.take(neighbors@.len() as int) =~= neighbors@);
        }
        count
    }

    /// An alive cell with fewer than two alive neighbors dies of loneliness.
    pub fn alone(neighbors: &[Cellule]) -> (r: bool)
        ensures
            r == (count_alive(neighbors@) < 2),
    {
        Self::count_alive_neighbors(neighbors) < 2
    }

    /// An alive cell with more than three alive neighbors dies of overpopulation.
    pub fn overpopulated(neighbors: &[Cellule]) -> (r: bool)
        ensures
            r == (count_alive(neighbors@) > 3),
    {
        Self::count_alive_neighbors(neighbors) > 3
    }

    /// A dead cell with exactly three alive neighbors comes to life.
    pub fn can_be_revived(neighbors: &[Cellule]) -> (r: bool)
        ensures
            r == (count_alive(neighbors@) == 3),
    {
        Self::count_alive_neighbors(neighbors) == 3
    }
}

/// A coordinate one wrap away from `[0, range)` brought back into `[0, range)`.
pub open spec fn wrap_spec(coord: int, range: int) -> int {
    if coord < 0 {
        coord + range
    } else if coord >= range {
        coord - range
    } else {
        coord
    }
}

/// Brings a coordinate at most one grid-length outside `[0, range)` back into
/// range, so that neighbor lookups wrap around the torus.
pub fn wrap(coord: isize, range: isize) -> (r: usize)
    requires
        range > 0,
        -range <= coord < 2 * range,
    ensures
        r == wrap_spec(coord as int, range as int),
        r < range,
{
    let result: isize = if coord < 0 {
        coord + range
    } else if coord >= range {
        coord - range
    } else {
        coord
    };
    result as usize
}

/// The flat index of the cell at `(row, col)` after wrapping both coordinates
/// back onto the torus.
pub open spec fn wrapped_index(row: int, col: int, w: int, h: int) -> int {
    wrap_spec(row, h) * w + wrap_spec(col, w)
}

/// Row offset of the `j`-th of the eight neighbors of a cell.
pub open spec fn neighbor_row_offset(j: int) -> int {
    if j < 3 {
        1
    } else if j < 6 {
        -1
    } else {
        0
    }
}

/// Column offset of the `j`-th of the eight neighbors of a cell.
pub open spec fn neighbor_col_offset(j: int) -> int {
    if j == 0 || j == 3 {
        0
    } else if j == 1 || j == 4 || j == 7 {
        1
    } else {
        -1
    }
}

/// The eight toroidal neighbors of the cell at `(row, col)`.
pub open spec fn neighbor_seq(cells: Seq<Cellule>, w: int, h: int, row: int, col: int) -> Seq<
    Cellule,
> {
    Seq::new(
        8,
        |j: int|
            cells[wrapped_index(row + neighbor_row_offset(j), col + neighbor_col_offset(j), w, h)],
    )
}

/// How many of the eight toroidal neighbors of the cell at `(row, col)` are
/// alive.
pub open spec fn neighbor_count(cells: Seq<Cellule>, w: int, h: int, row: int, col: int) -> int {
    count_alive(neighbor_seq(cells, w, h, row, col))
}

/// Whether the cell at `(row, col)` is alive after one step: an alive cell
/// survives with two or three alive neighbors, a dead cell revives with
/// exactly three, and every other cell is or becomes dead.
pub open spec fn next_alive(cells: Seq<Cellule>, w: int, h: int, row: int, col: int) -> bool {
    let n: int = neighbor_count(cells, w, h, row, col);
    if cell_at(cells, w, row, col).is_alive() {
        !(n < 2 || n > 3)
    } else {
        n == 3
    }
}

/// The whole grid after one step, with every transition computed from the
/// starting cells alone.
pub open spec fn step_spec(cells: Seq<Cellule>, w: int, h: int) -> Seq<Cellule> {
    Seq::new(cells.len(), |i: int| cellule_of(next_alive(cells, w, h, i / w, i % w)))
}

/// The grid after `n` steps.
pub open spec fn step_n(cells: Seq<Cellule>, w: int, h: int, n: nat) -> Seq<Cellule>
    decreases n,
{
    if n == 0 {
        cells
    } else {
        step_spec(step_n(cells, w, h, (n - 1) as nat), w, h)
    }
}

/// Whether every cell of the snapshot is dead.
pub open spec fn all_dead(cells: Seq<Cellule>) -> bool {
    forall|i: int| 0 <= i < cells.len() ==> !cells[i].is_alive()
}

/// The snapshot with the cell at `i` flipped.
pub open spec fn toggled(cells: Seq<Cellule>, i: int) -> Seq<Cellule> {
    cells.update(i, cellule_of(!cells[i].is_alive()))
}

/// The grid snapshot in its compact text form: one character per cell,
/// row-major, '1' for an alive cell and '0' for a dead one.
pub open spec fn serialized_cellules(cells: Seq<Cellule>) -> Seq<char> {
    cells.map_values(|c: Cellule| if c.is_alive() { '1' } else { '0' })
}

/// The errors the grid reports on misuse.
#[derive(Clone, Copy, PartialEq, Eq, Structural, Debug)]
pub enum GridError {
    /// A cell index at or beyond `width * height`.
    InvalidIndex,
    /// A replacement cell sequence whose length is not `width * height`.
    SizeMismatch,
}

/// The full grid: a row-major sequence of cells of fixed width and height.
#[derive(Clone, Debug)]
pub struct GameState {
    pub active: bool,
    pub cellules: Vec<Cellule>,
    pub cellules_width: usize,
    pub cellules_height: usize,
}

impl GameState {
    /// The grid invariant: positive dimensions that the coordinate arithmetic
    /// can handle, and exactly one cell per grid position.
    pub open spec fn well_formed(self) -> bool {
        &&& 1 <= self.cellules_width
        &&& 1 <= self.cellules_height
        &&& self.cellules@.len() == self.cellules_width * self.cellules_height
        &&& self.cellules_width as int <= isize::MAX as int
        &&& self.cellules_height as int <= isize::MAX as int
    }

    /// Kills every cell, leaving the dimensions untouched.
    pub fn reset(&mut self)
        ensures
            final(self).cellules_width == old(self).cellules_width,
            final(self).cellules_height == old(self).cellules_height,
            final(self).active == old(self).active,
            final(self).cellules@.len() == old(self).cellules@.len(),
            all_dead(final(self).cellules@),
    {
        let mut i: usize = 0;
        while i < self.cellules.len()
            invariant
                0 <= i <= self.cellules@.len(),
                self.cellules@.len() == old(self).cellules@.len(),
                self.cellules_width == old(self).cellules_width,
                self.cellules_height == old(self).cellules_height,
                self.active == old(self).active,
                forall|j: int| 0 <= j < i ==> !self.cellules@[j].is_alive(),
            decreases self.cellules@.len() - i,
        {
            self.cellules[i] = Cellule { life_state: LifeState::Dead };
            i = i + 1;
        }
    }

    /// Replaces the whole cell sequence; a sequence of the wrong length is
    /// rejected and the grid is left exactly as it was.
    pub fn set_cellules(&mut self, cellules: Vec<Cellule>) -> (r: Result<(), GridError>)
        requires
            old(self).well_formed(),
        ensures
            final(self).cellules_width == old(self).cellules_width,
            final(self).cellules_height == old(self).cellules_height,
            final(self).active == old(self).active,
            cellules@.len() == old(self).cellules_width * old(self).cellules_height ==> r == Ok::<
                (),
                GridError,
            >(()) && final(self).cellules@ == cellules@,
            cellules@.len() != old(self).cellules_width * old(self).cellules_height ==> r == Err::<
                (),
                GridError,
            >(GridError::SizeMismatch) && final(self).cellules@ == old(self).cellules@,
    {
        let occupied: usize = self.cellules.len();
        proof {
            assert(occupied as int == self.cellules_width * self.cellules_height);
        }
        let expected: usize = self.cellules_width * self.cellules_height;
        if cellules.len() != expected {
            return Err(GridError::SizeMismatch);
        }
        self.cellules = cellules;
        Ok(())
    }

    /// The flat index of `(row, col)`, wrapping coordinates at most one grid
    /// length outside the grid back onto the torus.
    pub fn row_col_as_idx(&self, row: isize, col: isize) -> (r: usize)
        requires
            self.well_formed(),
            -(self.cellules_height as int) <= (row as int) < 2 * (self.cellules_height as int),
            -(self.cellules_width as int) <= (col as int) < 2 * (self.cellules_width as int),
        ensures
            r == wrapped_index(
                row as int,
                col as int,
                self.cellules_width as int,
                self.cellules_height as int,
            ),
            r < self.cellules@.len(),
    {
        let wrapped_row: usize = wrap(row, self.cellules_height as isize);
        let wrapped_col: usize = wrap(col, self.cellules_width as isize);
        let occupied: usize = self.cellules.len();
        proof {
            assert((wrapped_row as int) * (self.cellules_width as int) + (wrapped_col as int)
                < occupied as int) by (nonlinear_arith)
                requires
                    wrapped_row < self.cellules_height,
                    wrapped_col < self.cellules_width,
                    occupied as int == self.cellules_width * self.cellules_height,
            ;
        }
        wrapped_row * self.cellules_width + wrapped_col
    }

    /// The eight toroidal neighbors of the cell at `(row, col)`, in the fixed
    /// order the step function counts them.
    pub fn neighbors(&self, row: isize, col: isize) -> (r: [Cellule; 8])
        requires
            self.well_formed(),
            0 <= (row as int) < self.cellules_height as int,
            0 <= (col as int) < self.cellules_width as int,
        ensures
            r@ == neighbor_seq(
                self.cellules@,
                self.cellules_width as int,
                self.cellules_height as int,
                row as int,
                col as int,
            ),
    {
        let r: [Cellule; 8] = [
            self.cellules[self.row_col_as_idx(row + 1, col)],
            self.cellules[self.row_col_as_idx(row + 1, col + 1)],
            self.cellules[self.row_col_as_idx(row + 1, col - 1)],
            self.cellules[self.row_col_as_idx(row - 1, col)],
            self.cellules[self.row_col_as_idx(row - 1, col + 1)],
            self.cellules[self.row_col_as_idx(row - 1, col - 1)],
            self.cellules[self.row_col_as_idx(row, col - 1)],
            self.cellules[self.row_col_as_idx(row, col + 1)],
        ];
        proof {
            assert(r@ =~= neighbor_seq(
                self.cellules@,
                self.cellules_width as int,
                self.cellules_height as int,
                row as int,
                col as int,
            ));
        }
        r
    }

    /// Advances the whole grid one step: every transition is computed from
    /// the starting cells, then all are applied at once.
    pub fn step(&mut self)
        requires
            old(self).well_formed(),
        ensures
            final(self).cellules_width == old(self).cellules_width,
            final(self).cellules_height == old(self).cellules_height,
            final(self).active == old(self).active,
            final(self).cellules@ == step_spec(
                old(self).cellules@,
                old(self).cellules_width as int,
                old(self).cellules_height as int,
            ),
            final(self).well_formed(),
    {
        let width: usize = self.cellules_width;
        let height: usize = self.cellules_height;
        let ghost cells0: Seq<Cellule> = self.cellules@;
        let ghost w: int = width as int;
        let ghost h: int = height as int;
        let mut next: Vec<Cellule> = Vec::new();
        let mut row: usize = 0;
        while row < height
            invariant
                *self == *old(self),
                self.well_formed(),
                width == self.cellules_width,
                height == self.cellules_height,
                cells0 == self.cellules@,
                w == width as int,
                h == height as int,
                0 <= row <= height,
                next@.len() == row * width,
                forall|r2: int, c2: int|
                    0 <= r2 < row && 0 <= c2 < w ==> cell_at(next@, w, r2, c2) == cellule_of(
                        next_alive(cells0, w, h, r2, c2),
                    ),
            decreases height - row,
        {
            let mut col: usize = 0;
            while col < width
                invariant
                    *self == *old(self),
                    self.well_formed(),
                    width == self.cellules_width,
                    height == self.cellules_height,
                    cells0 == self.cellules@,
                    w == width as int,
                    h == height as int,
                    0 <= row < height,
                    0 <= col <= width,
                    next@.len() == row * width + col,
                    forall|r2: int, c2: int|
                        0 <= r2 < row && 0 <= c2 < w ==> cell_at(next@, w, r2, c2) == cellule_of(
                            next_alive(cells0, w, h, r2, c2),
                        ),
                    forall|c2: int|
                        0 <= c2 < col ==> cell_at(next@, w, row as int, c2) == cellule_of(
                            next_alive(cells0, w, h, row as int, c2),
                        ),
                decreases width - col,
            {
                let neighbors: [Cellule; 8] = self.neighbors(row as isize, col as isize);
                let current_idx: usize = self.row_col_as_idx(row as isize, col as isize);
                proof {
                    assert(wrap_spec(row as int, h) == row as int);
                    assert(wrap_spec(col as int, w) == col as int);
                    assert(cell_at(cells0, w, row as int, col as int) == cells0[current_idx as int]);
                }
                let current: Cellule = self.cellules[current_idx];
                let ghost pre: Seq<Cellule> = next@;
                if current.alive() {
                    if Cellule::alone(neighbors.as_slice()) || Cellule::overpopulated(
                        neighbors.as_slice(),
                    ) {
                        next.push(Cellule { life_state: LifeState::Dead });
                    } else {
                        next.push(current);
                    }
                } else if Cellule::can_be_revived(neighbors.as_slice()) {
                    next.push(Cellule { life_state: LifeState::Alive });
                } else {
                    next.push(current);
                }
                proof {
                    assert(next@.last() == cellule_of(next_alive(cells0, w, h, row as int, col as int)));
                    assert forall|r2: int, c2: int| 0 <= r2 < row && 0 <= c2 < w implies cell_at(
                        next@,
                        w,
                        r2,
                        c2,
                    ) == cellule_of(next_alive(cells0, w, h, r2, c2)) by {
                        assert(r2 * w + c2 < pre.len()) by (nonlinear_arith)
                            requires
                                0 <= r2 < row,
                                0 <= c2 < w,
                                0 <= col,
                                pre.len() == row * w + col,
                        ;
                        assert(cell_at(pre, w, r2, c2) == cellule_of(next_alive(cells0, w, h, r2, c2)));
                    }
                    assert forall|c2: int| 0 <= c2 < col + 1 implies cell_at(
                        next@,
                        w,
                        row as int,
                        c2,
                    ) == cellule_of(next_alive(cells0, w, h, row as int, c2)) by {
                        if c2 < col {
                            assert(row * w + c2 < pre.len());
                            assert(cell_at(pre, w, row as int, c2) == cellule_of(
                                next_alive(cells0, w, h, row as int, c2),
                            ));
                        } else {
                            assert(row * w + c2 == pre.len());
                        }
                    }
                }
                col = col + 1;
            }
            proof {
                assert(row * w + w == (row + 1) * w) by (nonlinear_arith);
            }
            row = row + 1;
        }
        proof {
            assert(next@.len() == w * h) by (nonlinear_arith)
                requires
                    next@.len() == h * w,
            ;
            assert forall|i: int| 0 <= i < cells0.len() implies next@[i] == step_spec(
                cells0,
                w,
                h,
            )[i] by {
                lemma_flat_index(w, h, i);
                let r2: int = i / w;
                let c2: int = i % w;
                assert(cell_at(next@, w, r2, c2) == cellule_of(next_alive(cells0, w, h, r2, c2)));
            }
            assert(next@ =~= step_spec(cells0, w, h));
        }
        self.cellules = next;
    }

    /// Flips the cell at `idx`; an index at or beyond the grid's size is
    /// rejected and the grid is left exactly as it was.
    pub fn toggle_cellule(&mut self, idx: usize) -> (r: Result<(), GridError>)
        ensures
            final(self).cellules_width == old(self).cellules_width,
            final(self).cellules_height == old(self).cellules_height,
            final(self).active == old(self).active,
            idx < old(self).cellules@.len() ==> r == Ok::<(), GridError>(())
                && final(self).cellules@ == toggled(old(self).cellules@, idx as int),
            idx >= old(self).cellules@.len() ==> r == Err::<(), GridError>(GridError::InvalidIndex)
                && final(self).cellules@ == old(self).cellules@,
    {
        if idx >= self.cellules.len() {
            return Err(GridError::InvalidIndex);
        }
        let flipped: Cellule = if self.cellules[idx].alive() {
            Cellule { life_state: LifeState::Dead }
        } else {
            Cellule { life_state: LifeState::Alive }
        };
        self.cellules[idx] = flipped;
        Ok(())
    }
}

/// How many cells of the whole grid snapshot are alive.
pub fn count_active_cellules(cellules: &Vec<Cellule>) -> (r: usize)
    ensures
        r == count_alive(cellules@),
{
    Cellule::count_alive_neighbors(cellules.as_slice())
}

/// Turns a grid snapshot into its compact text form: one character per cell,
/// row-major, '1' for an alive cell and '0' for a dead one.
pub fn serialize_cellules(cellules: &Vec<Cellule>) -> (r: String)
    ensures
        r@ == serialized_cellules(cellules@),
{
    proof {
        reveal_strlit("0");
        reveal_strlit("1");
    }
    let mut result: String = String::new();
    let mut i: usize = 0;
    while i < cellules.len()
        invariant
            0 <= i <= cellules@.len(),
            result@ == serialized_cellules(cellules@.take(i as int)),
        decreases cellules@.len() - i,
    {
        if cellules[i].alive() {
            result.append("1");
        } else {
            result.append("0");
        }
        proof {
            reveal_strlit("0");
            reveal_strlit("1");
            assert(result@ =~= serialized_cellules(cellules@.take(i + 1)));
        }
        i = i + 1;
    }
    proof {
        assert(cellules@.take(cellules@.len() as int) =~= cellules@);
    }
    result
}

/// A flat row-major index against its `(row, col)` position.
pub proof fn lemma_flat_index(w: int, h: int, i: int)
    requires
        1 <= w,
        1 <= h,
        0 <= i < w * h,
    ensures
        0 <= i / w < h,
        0 <= i % w < w,
        i == (i / w) * w + i % w,
{
    vstd::arithmetic::div_mod::lemma_fundamental_div_mod(i, w);
    vstd::arithmetic::div_mod::lemma_mod_bound(i, w);
    vstd::arithmetic::div_mod::lemma_div_pos_is_pos(i, w);
    vstd::arithmetic::mul::lemma_mul_is_commutative(i / w, w);
    assert(i / w < h) by (nonlinear_arith)
        requires
            1 <= w,
            1 <= h,
            0 <= i < w * h,
            i == w * (i / w) + i % w,
            0 <= i % w < w,
    ;
}

/// A wrapped coordinate pair always lands inside the grid: every neighbor
/// index the step function computes lies in `[0, width * height)`.
pub proof fn lemma_wrapped_index_in_range(w: int, h: int, row: int, col: int)
    requires
        1 <= w,
        1 <= h,
        -h <= row < 2 * h,
        -w <= col < 2 * w,
    ensures
        0 <= wrapped_index(row, col, w, h) < w * h,
{
    assert(0 <= wrap_spec(row, h) < h);
    assert(0 <= wrap_spec(col, w) < w);
    assert(0 <= wrap_spec(row, h) * w + wrap_spec(col, w) < w * h) by (nonlinear_arith)
        requires
            1 <= w,
            1 <= h,
            0 <= wrap_spec(row, h) < h,
            0 <= wrap_spec(col, w) < w,
    ;
}

/// For every grid position, each of the eight neighbor offsets yields a
/// wrapped index inside `[0, width * height)`.
pub proof fn lemma_neighbor_index_in_range(w: int, h: int, row: int, col: int, dr: int, dc: int)
    requires
        1 <= w,
        1 <= h,
        0 <= row < h,
        0 <= col < w,
        -1 <= dr <= 1,
        -1 <= dc <= 1,
    ensures
        0 <= wrapped_index(row + dr, col + dc, w, h) < w * h,
{
    lemma_wrapped_index_in_range(w, h, row + dr, col + dc);
}

/// The step function is deterministic: applied to the same starting cells it
/// yields the same result every time.
pub proof fn lemma_step_deterministic(cells1: Seq<Cellule>, cells2: Seq<Cellule>, w: int, h: int)
    requires
        cells1 == cells2,
    ensures
        step_spec(cells1, w, h) == step_spec(cells2, w, h),
{
}

/// No cell of an all-dead snapshot has an alive neighbor.
proof fn lemma_all_dead_neighbor_count(cells: Seq<Cellule>, w: int, h: int, row: int, col: int)
    requires
        1 <= w,
        1 <= h,
        cells.len() == w * h,
        all_dead(cells),
        0 <= row < h,
        0 <= col < w,
    ensures
        neighbor_count(cells, w, h, row, col) == 0,
{
    let ns: Seq<Cellule> = neighbor_seq(cells, w, h, row, col);
    assert forall|j: int| 0 <= j < ns.len() implies !ns[j].is_alive() by {
        lemma_wrapped_index_in_range(w, h, row + neighbor_row_offset(j), col + neighbor_col_offset(j));
    }
    lemma_count_alive_all_dead(ns);
}

/// A sequence without an alive cell counts zero alive cells.
proof fn lemma_count_alive_all_dead(s: Seq<Cellule>)
    requires
        forall|j: int| 0 <= j < s.len() ==> !s[j].is_alive(),
    ensures
        count_alive(s) == 0,
    decreases s.len(),
{
    if s.len() > 0 {
        assert(forall|j: int| 0 <= j < s.len() - 1 ==> s.drop_last()[j] == s[j]);
        lemma_count_alive_all_dead(s.drop_last());
    }
}

/// A grid with every cell dead stays all dead through any number of steps:
/// one step leaves it unchanged, and so does any longer run.
pub proof fn lemma_all_dead_still_life(cells: Seq<Cellule>, w: int, h: int, n: nat)
    requires
        1 <= w,
        1 <= h,
        cells.len() == w * h,
        all_dead(cells),
    ensures
        step_n(cells, w, h, n) == cells,
    decreases n,
{
    if n > 0 {
        lemma_all_dead_still_life(cells, w, h, (n - 1) as nat);
        assert forall|i: int| 0 <= i < cells.len() implies step_spec(cells, w, h)[i] == cells[i] by {
            lemma_flat_index(w, h, i);
            let row: int = i / w;
            let col: int = i % w;
            lemma_all_dead_neighbor_count(cells, w, h, row, col);
            assert(cell_at(cells, w, row, col) == cells[i]);
            assert(!next_alive(cells, w, h, row, col));
            assert(!cells[i].is_alive());
        }
        assert(step_spec(cells, w, h) =~= cells);
    }
}

/// Flipping the same cell twice restores the snapshot exactly.
pub proof fn lemma_toggle_cellule_pair(cells: Seq<Cellule>, i: int)
    requires
        0 <= i < cells.len(),
    ensures
        toggled(toggled(cells, i), i) == cells,
{
    assert(toggled(toggled(cells, i), i) =~= cells);
}

} // verus!
