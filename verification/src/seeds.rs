//! The seed catalog: pure generators that compute named starting patterns
//! for any grid size, centered on the middle of the grid.

use vstd::prelude::*;

use crate::game::{cell_at, cellule_of, lemma_flat_index, Cellule, LifeState};

verus! {

/// A named starting configuration for the grid.
pub struct Seed {
    pub label: String,
    pub cellules: Vec<Cellule>,
}

/// The patterns the catalog can generate.
#[derive(Clone, Copy, PartialEq, Eq, Structural, Debug)]
pub enum SeedKind {
    MiddleLine,
    Pentadecathlon,
}

/// Whether the middle-line pattern marks `(row, col)` alive: a horizontal run
/// on the middle row spanning the thirteen columns centered on the middle one.
pub open spec fn middle_line_alive(w: int, h: int, row: int, col: int) -> bool {
    &&& row == h / 2
    &&& col < w / 2 + 7
    &&& col > w / 2 - 7
}

/// Whether the pentadecathlon pattern marks `(row, col)` alive: a band three
/// rows tall and eight columns wide around the middle of the grid, with two
/// cells of the middle row forced dead to form the classic oscillator.
pub open spec fn pentadecathlon_alive(w: int, h: int, row: int, col: int) -> bool {
    let mid_row: int = h / 2;
    let mid_col: int = w / 2;
    &&& mid_row <= row + 1
    &&& mid_row >= row - 1
    &&& col < mid_col + 4
    &&& col > mid_col - 5
    &&& !(mid_row == row && (mid_col == col + 3 || mid_col == col - 2))
}

/// Whether the pattern of `kind` marks `(row, col)` alive.
pub open spec fn seed_alive(kind: SeedKind, w: int, h: int, row: int, col: int) -> bool {
    match kind {
        SeedKind::MiddleLine => middle_line_alive(w, h, row, col),
        SeedKind::Pentadecathlon => pentadecathlon_alive(w, h, row, col),
    }
}

/// The pattern of `kind` as a row-major sequence of length `w * h`.
pub open spec fn seed_cells(kind: SeedKind, w: int, h: int) -> Seq<Cellule> {
    Seq::new((w * h) as nat, |i: int| cellule_of(seed_alive(kind, w, h, i / w, i % w)))
}

/// The middle-line seed as a row-major sequence of length `w * h`.
pub open spec fn middle_line_seed(w: int, h: int) -> Seq<Cellule> {
    seed_cells(SeedKind::MiddleLine, w, h)
}

/// The pentadecathlon seed as a row-major sequence of length `w * h`.
pub open spec fn pentadecathlon_seed(w: int, h: int) -> Seq<Cellule> {
    seed_cells(SeedKind::Pentadecathlon, w, h)
}

/// Whether the pattern of `kind` marks `(row, col)` of a `w` by `h` grid alive.
fn seed_cell_is_alive(kind: SeedKind, w: i32, h: i32, row: i32, col: i32) -> (r: bool)
    requires
        1 <= w,
        1 <= h,
        0 <= row < h,
        0 <= col < w,
    ensures
        r == seed_alive(kind, w as int, h as int, row as int, col as int),
{
    let middle_row_number: i32 = h / 2;
    let middle_column_number: i32 = w / 2;
    match kind {
        SeedKind::MiddleLine => {
            middle_row_number == row && col < middle_column_number + 7 && col
                > middle_column_number - 7
        },
        SeedKind::Pentadecathlon => {
            if (middle_row_number <= row + 1 && middle_row_number >= row - 1) && (col
                < middle_column_number + 4 && col > middle_column_number - 5) {
                !(middle_row_number == row && (middle_column_number == col + 3
                    || middle_column_number == col - 2))
            } else {
                false
            }
        },
    }
}

/// Fills a `w` by `h` grid row-major with the pattern of `kind`.
fn generate_seed(kind: SeedKind, w: i32, h: i32) -> (r: Vec<Cellule>)
    requires
        1 <= w,
        1 <= h,
    ensures
        r@ == seed_cells(kind, w as int, h as int),
{
    let mut cellules: Vec<Cellule> = Vec::new();

    let mut row_index: i32 = 0;
    while row_index < h
        invariant
            1 <= w,
            1 <= h,
            0 <= row_index <= h,
            cellules@.len() == row_index * w,
            forall|r2: int, c2: int|
                0 <= r2 < row_index && 0 <= c2 < w ==> cell_at(cellules@, w as int, r2, c2)
                    == cellule_of(seed_alive(kind, w as int, h as int, r2, c2)),
        decreases h - row_index,
    {
        let mut column_index: i32 = 0;
        while column_index < w
            invariant
                1 <= w,
                1 <= h,
                0 <= row_index < h,
                0 <= column_index <= w,
                cellules@.len() == row_index * w + column_index,
                forall|r2: int, c2: int|
                    0 <= r2 < row_index && 0 <= c2 < w ==> cell_at(cellules@, w as int, r2, c2)
                        == cellule_of(seed_alive(kind, w as int, h as int, r2, c2)),
                forall|c2: int|
                    0 <= c2 < column_index ==> cell_at(cellules@, w as int, row_index as int, c2)
                        == cellule_of(
                        seed_alive(kind, w as int, h as int, row_index as int, c2),
                    ),
            decreases w - column_index,
        {
            let ghost pre: Seq<Cellule> = cellules@;
            let is_alive: bool = seed_cell_is_alive(kind, w, h, row_index, column_index);
            if is_alive {
                cellules.push(Cellule { life_state: LifeState::Alive });
            } else {
                cellules.push(Cellule { life_state: LifeState::Dead });
            }
            proof {
                assert forall|r2: int, c2: int| 0 <= r2 < row_index && 0 <= c2 < w implies cell_at(
                    cellules@,
                    w as int,
                    r2,
                    c2,
                ) == cellule_of(seed_alive(kind, w as int, h as int, r2, c2)) by {
                    assert(r2 * w + c2 < pre.len()) by (nonlinear_arith)
                        requires
                            0 <= r2 < row_index,
                            0 <= c2 < w,
                            0 <= column_index,
                            pre.len() == row_index * w + column_index,
                    ;
                    assert(cell_at(pre, w as int, r2, c2) == cellule_of(
                        seed_alive(kind, w as int, h as int, r2, c2),
                    ));
                }
                assert forall|c2: int| 0 <= c2 < column_index + 1 implies cell_at(
                    cellules@,
                    w as int,
                    row_index as int,
                    c2,
                ) == cellule_of(seed_alive(kind, w as int, h as int, row_index as int, c2)) by {
                    if c2 < column_index {
                        assert(row_index * w + c2 < pre.len());
                        assert(cell_at(pre, w as int, row_index as int, c2) == cellule_of(
                            seed_alive(kind, w as int, h as int, row_index as int, c2),
                        ));
                    } else {
                        assert(row_index * w + c2 == pre.len());
                    }
                }
            }
            column_index = column_index + 1;
        }
        proof {
            assert(row_index * w + w == (row_index + 1) * w) by (nonlinear_arith);
        }
        row_index = row_index + 1;
    }
    proof {
        assert(cellules@.len() == h * w) by (nonlinear_arith)
            requires
                cellules@.len() == h * w,
        ;
        assert forall|i: int| 0 <= i < w * h implies cellules@[i] == seed_cells(
            kind,
            w as int,
            h as int,
        )[i] by {
            lemma_flat_index(w as int, h as int, i);
            let r2: int = i / (w as int);
            let c2: int = i % (w as int);
            assert(cell_at(cellules@, w as int, r2, c2) == cellule_of(
                seed_alive(kind, w as int, h as int, r2, c2),
            ));
        }
        assert(cellules@ =~= seed_cells(kind, w as int, h as int));
    }
    cellules
}

/// Generates the middle-line starter: a contiguous alive run on the middle
/// row, centered on the middle column.
pub fn seed_middle_line_starter(cellule_width: i32, cellule_height: i32) -> (r: Vec<Cellule>)
    requires
        1 <= cellule_width,
        1 <= cellule_height,
    ensures
        r@ == middle_line_seed(cellule_width as int, cellule_height as int),
{
    generate_seed(SeedKind::MiddleLine, cellule_width, cellule_height)
}

/// Generates the pentadecathlon seed: a three-row band up to eight columns
/// wide centered on the grid's middle, with two cells of the center row dead.
pub fn seed_pentadecathlon(cellule_width: i32, cellule_height: i32) -> (r: Vec<Cellule>)
    requires
        1 <= cellule_width,
        1 <= cellule_height,
    ensures
        r@ == pentadecathlon_seed(cellule_width as int, cellule_height as int),
{
    generate_seed(SeedKind::Pentadecathlon, cellule_width, cellule_height)
}

/// The ordered seed catalog for a grid of the given size; the first entry is
/// the default.
pub fn get_seeds(cellule_width: i32, cellule_height: i32) -> (r: Vec<Seed>)
    requires
        1 <= cellule_width,
        1 <= cellule_height,
    ensures
        r@.len() == 2,
        r@[0].label@ == "middle line starter"@,
        r@[0].cellules@ == middle_line_seed(cellule_width as int, cellule_height as int),
        r@[1].label@ == "pentadecathlon"@,
        r@[1].cellules@ == pentadecathlon_seed(cellule_width as int, cellule_height as int),
{
    let mut seeds: Vec<Seed> = Vec::new();
    seeds.push(
        Seed {
            label: "middle line starter".to_owned(),
            cellules: seed_middle_line_starter(cellule_width, cellule_height),
        },
    );
    seeds.push(
        Seed {
            label: "pentadecathlon".to_owned(),
            cellules: seed_pentadecathlon(cellule_width, cellule_height),
        },
    );
    seeds
}

/// The position of the first catalog entry carrying `label`, if any.
pub fn find_seed_index(seeds: &Vec<Seed>, label: &String) -> (r: Option<usize>)
    ensures
        match r {
            Some(i) => i < seeds@.len() && seeds@[i as int].label@ == label@ && forall|j: int|
                0 <= j < i ==> seeds@[j].label@ != label@,
            None => forall|j: int| 0 <= j < seeds@.len() ==> seeds@[j].label@ != label@,
        },
{
    let mut i: usize = 0;
    while i < seeds.len()
        invariant
            0 <= i <= seeds@.len(),
            forall|j: int| 0 <= j < i ==> seeds@[j].label@ != label@,
        decreases seeds@.len() - i,
    {
        if seeds[i].label == *label {
            return Some(i);
        }
        i = i + 1;
    }
    None
}

} // verus!
