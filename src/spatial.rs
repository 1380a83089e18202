use vstd::prelude::*;
use vstd::arithmetic::div_mod::lemma_div_is_ordered;
use crate::body::{coord_ok, RADIUS_LIMIT};

verus! {

/// Side of one grid cell, in milli-units.
pub const CELL_SIZE: u64 = 80_000;

/// Columns of the grid; points beyond the last column fall into it.
pub const GRID_COLS: usize = 25;

/// Rows of the grid; points beyond the last row fall into it.
pub const GRID_ROWS: usize = 14;

/// A point of the index: the identity of a body and where it stands.
#[derive(PartialEq, Eq, Structural, Clone, Copy, Debug)]
pub struct Entry {
    pub id: u64,
    pub x: i64,
    pub y: i64,
}

/// The grid column (or row) of coordinate `c` on an axis of `n` cells.
pub open spec fn cell_of(c: int, n: int) -> int {
    if c < 0 {
        0
    } else if c / (CELL_SIZE as int) >= n {
        n - 1
    } else {
        c / (CELL_SIZE as int)
    }
}

pub open spec fn cell_index(e: Entry) -> int {
    cell_of(e.x as int, GRID_COLS as int) * GRID_ROWS + cell_of(e.y as int, GRID_ROWS as int)
}

pub open spec fn dist2(ax: int, ay: int, bx: int, by: int) -> int {
    (ax - bx) * (ax - bx) + (ay - by) * (ay - by)
}

/// Point `(x, y)` lies at Euclidean distance at most `r` from `e`.
pub open spec fn within(e: Entry, x: int, y: int, r: int) -> bool {
    dist2(e.x as int, e.y as int, x, y) <= r * r
}

/// Some entry of `s` with identity `id` lies within distance `r` of `(x, y)`.
pub open spec fn has_within(s: Seq<Entry>, id: u64, x: int, y: int, r: int) -> bool {
    exists|k: int| 0 <= k < s.len() && s[k].id == id && within(s[k], x, y, r)
}

proof fn lemma_cell_of_bounds(c: int, n: int)
    requires
        n >= 1,
    ensures
        0 <= cell_of(c, n) < n,
{
    if c >= 0 {
        assert(c / (CELL_SIZE as int) >= 0);
    }
}

proof fn lemma_cell_of_monotone(a: int, b: int, n: int)
    requires
        n >= 1,
        a <= b,
    ensures
        cell_of(a, n) <= cell_of(b, n),
{
    lemma_cell_of_bounds(a, n);
    lemma_cell_of_bounds(b, n);
    if a >= 0 {
        lemma_div_is_ordered(a, b, CELL_SIZE as int);
    }
}

proof fn lemma_within_axis(e: Entry, x: int, y: int, r: int)
    requires
        within(e, x, y, r),
        r >= 0,
    ensures
        x - r <= e.x <= x + r,
        y - r <= e.y <= y + r,
{
    let dx = e.x - x;
    let dy = e.y - y;
    assert(dx * dx >= 0 && dy * dy >= 0) by (nonlinear_arith);
    assert(dx * dx <= r * r);
    assert(dy * dy <= r * r);
    assert(-r <= dx <= r) by (nonlinear_arith)
        requires
            dx * dx <= r * r,
            r >= 0,
    ;
    assert(-r <= dy <= r) by (nonlinear_arith)
        requires
            dy * dy <= r * r,
            r >= 0,
    ;
}

proof fn lemma_within_cells(e: Entry, x: int, y: int, r: int)
    requires
        within(e, x, y, r),
        r >= 0,
    ensures
        cell_of(x - r, GRID_COLS as int) <= cell_of(e.x as int, GRID_COLS as int) <= cell_of(x + r, GRID_COLS as int),
        cell_of(y - r, GRID_ROWS as int) <= cell_of(e.y as int, GRID_ROWS as int) <= cell_of(y + r, GRID_ROWS as int),
{
    lemma_within_axis(e, x, y, r);
    lemma_cell_of_monotone(x - r, e.x as int, GRID_COLS as int);
    lemma_cell_of_monotone(e.x as int, x + r, GRID_COLS as int);
    lemma_cell_of_monotone(y - r, e.y as int, GRID_ROWS as int);
    lemma_cell_of_monotone(e.y as int, y + r, GRID_ROWS as int);
}

fn cell_coord(c: i64, n: usize) -> (r: usize)
    requires
        n >= 1,
    ensures
        r == cell_of(c as int, n as int),
        r < n,
{
    if c < 0 {
        0
    } else {
        let q = (c as u64) / CELL_SIZE;
        if q >= n as u64 {
            n - 1
        } else {
            q as usize
        }
    }
}

/// Proximity index over a set of points, answering which of them lie
/// within a radius of a given point. Points are bucketed into a uniform
/// grid of square cells; a query scans the cells that its disc overlaps.
pub struct SpatialIndex {
    entries: Vec<Entry>,
    cells: Vec<Vec<usize>>,
}

impl View for SpatialIndex {
    type V = Seq<Entry>;

    closed spec fn view(&self) -> Seq<Entry> {
        self.entries@
    }
}

impl SpatialIndex {
    /// Every entry sits in the cell of its position and nowhere else.
    pub closed spec fn wf(&self) -> bool {
        &&& self.cells@.len() == GRID_COLS * GRID_ROWS
        &&& forall|k: int| 0 <= k < self.entries@.len() ==> coord_ok(#[trigger] self.entries@[k].x as int) && coord_ok(self.entries@[k].y as int)
        &&& forall|c: int, j: int| 0 <= c < self.cells@.len() && 0 <= j < self.cells@[c]@.len() ==> {
            &&& #[trigger] self.cells@[c]@[j] < self.entries@.len()
            &&& cell_index(self.entries@[self.cells@[c]@[j] as int]) == c
        }
        &&& forall|k: int| 0 <= k < self.entries@.len() ==> self.cells@[cell_index(#[trigger] self.entries@[k])]@.contains(k as usize)
    }

    /// Builds the index over `entries`.
    pub fn build(entries: Vec<Entry>) -> (r: SpatialIndex)
        requires
            forall|k: int| 0 <= k < entries@.len() ==> coord_ok(#[trigger] entries@[k].x as int) && coord_ok(entries@[k].y as int),
        ensures
            r.wf(),
            r@ == entries@,
    {
        let mut cells: Vec<Vec<usize>> = Vec::new();
        let total: usize = GRID_COLS * GRID_ROWS;
        while cells.len() < total
            invariant
                cells@.len() <= total,
                total == GRID_COLS * GRID_ROWS,
                forall|c: int| 0 <= c < cells@.len() ==> (#[trigger] cells@[c])@.len() == 0,
            decreases total - cells@.len(),
        {
            cells.push(Vec::new());
        }
        let mut k: usize = 0;
        while k < entries.len()
            invariant
                0 <= k <= entries@.len(),
                cells@.len() == GRID_COLS * GRID_ROWS,
                forall|c: int, j: int| 0 <= c < cells@.len() && 0 <= j < cells@[c]@.len() ==> {
                    &&& #[trigger] cells@[c]@[j] < k
                    &&& cell_index(entries@[cells@[c]@[j] as int]) == c
                },
                forall|m: int| 0 <= m < k ==> cells@[cell_index(#[trigger] entries@[m])]@.contains(m as usize),
            decreases entries@.len() - k,
        {
            let e = entries[k];
            let cx = cell_coord(e.x, GRID_COLS);
            let cy = cell_coord(e.y, GRID_ROWS);
            let c = cx * GRID_ROWS + cy;
            let ghost old_cells = cells@;
            let mut cell = cells[c].clone();
            proof {
                assert(cell@ =~= old_cells[c as int]@);
            }
            cell.push(k);
            cells.set(c, cell);
            proof {
                assert forall|c2: int, j: int| 0 <= c2 < cells@.len() && 0 <= j < cells@[c2]@.len() implies {
                    &&& #[trigger] cells@[c2]@[j] < k + 1
                    &&& cell_index(entries@[cells@[c2]@[j] as int]) == c2
                } by {
                    if c2 == c as int {
                        if j < old_cells[c2]@.len() {
                            assert(cells@[c2]@[j] == old_cells[c2]@[j]);
                        }
                    } else {
                        assert(cells@[c2] == old_cells[c2]);
                    }
                }
                assert forall|m: int| 0 <= m < k + 1 implies cells@[cell_index(#[trigger] entries@[m])]@.contains(m as usize) by {
                    let cm = cell_index(entries@[m]);
                    if m < k {
                        assert(old_cells[cm]@.contains(m as usize));
                        if cm == c as int {
                            let j = choose|j: int| 0 <= j < old_cells[cm]@.len() && old_cells[cm]@[j] == m as usize;
                            assert(cells@[cm]@[j] == m as usize);
                        }
                    } else {
                        assert(cm == c as int);
                        assert(cells@[cm]@[old_cells[cm]@.len() as int] == k);
                    }
                }
            }
            k += 1;
        }
        SpatialIndex { entries, cells }
    }

    /// The identities of the entries within distance `r` of `(x, y)`, each
    /// as often as the index holds it. No entry within that distance is
    /// missed, and no entry farther away is reported.
    pub fn query(&self, x: i64, y: i64, r: u64) -> (ids: Vec<u64>)
        requires
            self.wf(),
            coord_ok(x as int),
            coord_ok(y as int),
            r <= RADIUS_LIMIT,
        ensures
            forall|k: int| 0 <= k < self@.len() && within(#[trigger] self@[k], x as int, y as int, r as int) ==> ids@.contains(self@[k].id),
            forall|j: int| 0 <= j < ids@.len() ==> has_within(self@, #[trigger] ids@[j], x as int, y as int, r as int),
    {
        let ri = r as i64;
        let x_lo = cell_coord(x - ri, GRID_COLS);
        let x_hi = cell_coord(x + ri, GRID_COLS);
        let y_lo = cell_coord(y - ri, GRID_ROWS);
        let y_hi = cell_coord(y + ri, GRID_ROWS);
        proof {
            assert(0 <= (r as int) * (r as int) <= 0x1000_0000_0000_0000) by (nonlinear_arith)
                requires r <= RADIUS_LIMIT;
        }
        let r2: i128 = (r as i128) * (r as i128);
        let mut ids: Vec<u64> = Vec::new();
        let ghost ents = self.entries@;
        let n_entries = self.entries.len();
        let ghost xi = x as int;
        let ghost yi = y as int;
        let ghost rr = r as int;
        proof {
            assert(ids@.len() == 0);
            assert forall|k: int| 0 <= k < ents.len() && within(#[trigger] ents[k], xi, yi, rr) implies cell_of(ents[k].x as int, GRID_COLS as int) >= x_lo && cell_of(ents[k].y as int, GRID_ROWS as int) >= y_lo by {
                lemma_within_cells(ents[k], xi, yi, rr);
            }
        }
        let mut cx = x_lo;
        while cx <= x_hi
            invariant
                self.wf(),
                x_lo <= cx <= x_hi + 1,
                x_hi < GRID_COLS,
                y_lo < GRID_ROWS,
                y_hi < GRID_ROWS,
                x_lo == cell_of(xi - rr, GRID_COLS as int),
                x_hi == cell_of(xi + rr, GRID_COLS as int),
                y_lo == cell_of(yi - rr, GRID_ROWS as int),
                y_hi == cell_of(yi + rr, GRID_ROWS as int),
                ents == self.entries@,
                r2 == rr * rr,
                rr >= 0,
                xi == x, yi == y,
                coord_ok(xi), coord_ok(yi),
                ents.len() == n_entries,
                forall|k: int| 0 <= k < ents.len() && within(#[trigger] ents[k], xi, yi, rr) && cell_of(ents[k].x as int, GRID_COLS as int) < cx ==> ids@.contains(ents[k].id),
                forall|j: int| 0 <= j < ids@.len() ==> has_within(ents, #[trigger] ids@[j], xi, yi, rr),
            decreases x_hi + 1 - cx,
        {
            proof {
                assert forall|k: int| 0 <= k < ents.len() && within(#[trigger] ents[k], xi, yi, rr) implies cell_of(ents[k].y as int, GRID_ROWS as int) >= y_lo by {
                    lemma_within_cells(ents[k], xi, yi, rr);
                }
            }
            let mut cy = y_lo;
            while cy <= y_hi
                invariant
                    self.wf(),
                    x_lo <= cx <= x_hi,
                    y_lo <= cy <= y_hi + 1,
                    x_hi < GRID_COLS,
                    y_hi < GRID_ROWS,
                    y_lo == cell_of(yi - rr, GRID_ROWS as int),
                    y_hi == cell_of(yi + rr, GRID_ROWS as int),
                    ents == self.entries@,
                    r2 == rr * rr,
                    rr >= 0,
                    xi == x, yi == y,
                    coord_ok(xi), coord_ok(yi),
                    ents.len() == n_entries,
                    forall|k: int| 0 <= k < ents.len() && within(#[trigger] ents[k], xi, yi, rr) && (cell_of(ents[k].x as int, GRID_COLS as int) < cx || (cell_of(ents[k].x as int, GRID_COLS as int) == cx && cell_of(ents[k].y as int, GRID_ROWS as int) < cy)) ==> ids@.contains(ents[k].id),
                    forall|j: int| 0 <= j < ids@.len() ==> has_within(ents, #[trigger] ids@[j], xi, yi, rr),
                decreases y_hi + 1 - cy,
            {
                let c = cx * GRID_ROWS + cy;
                let cell = &self.cells[c];
                let mut j: usize = 0;
                while j < cell.len()
                    invariant
                        self.wf(),
                        cell == &self.cells@[c as int],
                        c == cx * GRID_ROWS + cy,
                        c < GRID_COLS * GRID_ROWS,
                        0 <= j <= cell@.len(),
                        ents == self.entries@,
                        r2 == rr * rr,
                        xi == x, yi == y,
                        coord_ok(xi), coord_ok(yi),
                        rr >= 0,
                        ents.len() == n_entries,
                        forall|k: int| 0 <= k < ents.len() && within(#[trigger] ents[k], xi, yi, rr) && (cell_of(ents[k].x as int, GRID_COLS as int) < cx || (cell_of(ents[k].x as int, GRID_COLS as int) == cx && cell_of(ents[k].y as int, GRID_ROWS as int) < cy)) ==> ids@.contains(ents[k].id),
                        forall|j2: int| 0 <= j2 < j && within(ents[cell@[j2] as int], xi, yi, rr) ==> ids@.contains(ents[#[trigger] cell@[j2] as int].id),
                        forall|j2: int| 0 <= j2 < ids@.len() ==> has_within(ents, #[trigger] ids@[j2], xi, yi, rr),
                    decreases cell@.len() - j,
                {
                    let k = cell[j];
                    proof {
                        assert(self.cells@[c as int]@[j as int] < ents.len());
                    }
                    let e = self.entries[k];
                    proof {
                        assert(coord_ok(ents[k as int].x as int) && coord_ok(ents[k as int].y as int));
                        assert(e == ents[k as int]);
                        assert(-0x100_0000_0000 <= e.x <= 0x100_0000_0000);
                        assert(-0x100_0000_0000 <= e.y <= 0x100_0000_0000);
                        assert(-0x100_0000_0000 <= x <= 0x100_0000_0000);
                        assert(-0x100_0000_0000 <= y <= 0x100_0000_0000);
                    }
                    let dx = (e.x as i128) - (x as i128);
                    let dy = (e.y as i128) - (y as i128);
                    proof {
                        assert(0 <= dx * dx <= 0x10_0000_0000_0000_0000_0000) by (nonlinear_arith)
                            requires -0x200_0000_0000 <= dx <= 0x200_0000_0000;
                        assert(0 <= dy * dy <= 0x10_0000_0000_0000_0000_0000) by (nonlinear_arith)
                            requires -0x200_0000_0000 <= dy <= 0x200_0000_0000;
                    }
                    let ghost before = ids@;
                    if dx * dx + dy * dy <= r2 {
                        ids.push(e.id);
                        proof {
                            assert(ids@[before.len() as int] == e.id);
                            assert(within(ents[k as int], xi, yi, rr));
                            assert(has_within(ents, e.id, xi, yi, rr));
                            assert forall|j2: int| 0 <= j2 < ids@.len() implies has_within(ents, #[trigger] ids@[j2], xi, yi, rr) by {
                                if j2 < before.len() {
                                    assert(ids@[j2] == before[j2]);
                                }
                            }
                        }
                    }
                    proof {
                        assert forall|m: int| 0 <= m < before.len() implies ids@.contains(#[trigger] before[m]) by {
                            assert(ids@[m] == before[m]);
                        }
                    }
                    j += 1;
                }
                proof {
                    assert forall|k: int| 0 <= k < ents.len() && within(#[trigger] ents[k], xi, yi, rr) && (cell_of(ents[k].x as int, GRID_COLS as int) < cx || (cell_of(ents[k].x as int, GRID_COLS as int) == cx && cell_of(ents[k].y as int, GRID_ROWS as int) < cy + 1)) implies ids@.contains(ents[k].id) by {
                        if cell_of(ents[k].x as int, GRID_COLS as int) == cx && cell_of(ents[k].y as int, GRID_ROWS as int) == cy {
                            assert(cell_index(ents[k]) == c);
                            assert(self.cells@[c as int]@.contains(k as usize));
                            let j2 = choose|j2: int| 0 <= j2 < cell@.len() && cell@[j2] == k as usize;
                            assert((k as usize) as int == k);
                            assert(cell@[j2] as int == k);
                            assert(ents[cell@[j2] as int].id == ents[k].id);
                        }
                    }
                }
                cy += 1;
            }
            proof {
                assert forall|k: int| 0 <= k < ents.len() && within(#[trigger] ents[k], xi, yi, rr) && cell_of(ents[k].x as int, GRID_COLS as int) < cx + 1 implies ids@.contains(ents[k].id) by {
                    lemma_within_cells(ents[k], xi, yi, rr);
                }
            }
            cx += 1;
        }
        proof {
            assert forall|k: int| 0 <= k < ents.len() && within(#[trigger] ents[k], xi, yi, rr) implies ids@.contains(ents[k].id) by {
                lemma_within_cells(ents[k], xi, yi, rr);
            }
        }
        ids
    }
}

} // verus!
