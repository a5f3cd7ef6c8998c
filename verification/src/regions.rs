//! Grid-aligned activation regions: activity tiers and cell bounds.
use vstd::prelude::*;

verus! {

/// Side length of a grid-aligned region (in cells).
pub const REGION_SIZE: usize = 8;

/// Coarse activity classification of a region.
#[derive(Debug, Clone, Copy, PartialEq, Eq, Default, Structural)]
pub enum RegionActivityState {
    /// All cells effectively dormant — skip this region entirely.
    #[default]
    Dormant,
    /// Some cells warming up — scan frontier only.
    Warming,
    /// At least one cell is meaningfully active — full region scan.
    Active,
    /// At least one cell is highly active — priority execution region.
    Hot,
}

impl RegionActivityState {
    /// True if this region requires any execution work this tick.
    pub fn needs_execution(self) -> (r: bool)
        ensures
            r == (self == RegionActivityState::Active || self == RegionActivityState::Hot),
    {
        match self {
            RegionActivityState::Active | RegionActivityState::Hot => true,
            _ => false,
        }
    }

    /// True if this region requires streaming consideration.
    pub fn needs_streaming(self) -> (r: bool)
        ensures
            r == (self != RegionActivityState::Dormant),
    {
        match self {
            RegionActivityState::Dormant => false,
            _ => true,
        }
    }
}

/// Every region that needs execution also needs streaming.
pub proof fn lemma_execution_implies_streaming(s: RegionActivityState)
    ensures
        (s == RegionActivityState::Active || s == RegionActivityState::Hot) ==> s != RegionActivityState::Dormant,
{
}

/// Grid-aligned bounds `[x_start, x_end) × [y_start, y_end)` of a region.
#[derive(Debug, Clone, Copy)]
pub struct RegionBounds {
    /// Inclusive start column.
    pub x_start: usize,
    /// Exclusive end column.
    pub x_end: usize,
    /// Inclusive start row.
    pub y_start: usize,
    /// Exclusive end row.
    pub y_end: usize,
    /// Field width (for flat-index computation).
    pub field_width: usize,
}

/// The flat indices of row `y`, columns `x_start..x_end`.
pub open spec fn row_cells(y: int, x_start: int, x_end: int, fw: int) -> Seq<int> {
    Seq::new((if x_end > x_start { x_end - x_start } else { 0 }) as nat, |i: int| y * fw + x_start + i)
}

/// The flat indices of rows `y_start..y_end`, row by row.
pub open spec fn rows_cells(y_start: int, y_end: int, x_start: int, x_end: int, fw: int) -> Seq<int>
    decreases y_end - y_start,
{
    if y_end <= y_start {
        Seq::empty()
    } else {
        rows_cells(y_start, y_end - 1, x_start, x_end, fw) + row_cells(y_end - 1, x_start, x_end, fw)
    }
}

impl RegionBounds {
    /// The region's cells in row-major order.
    pub open spec fn cells(&self) -> Seq<int> {
        rows_cells(self.y_start as int, self.y_end as int, self.x_start as int, self.x_end as int, self.field_width as int)
    }

    /// Flat cell indices within this region, row by row.
    pub fn iter_cells(&self) -> (cells: Vec<usize>)
        requires
            self.y_end == 0 || (self.y_end - 1) * self.field_width + self.x_end <= usize::MAX,
        ensures
            cells@.len() == self.cells().len(),
            forall|k: int| 0 <= k < cells@.len() ==> cells@[k] as int == #[trigger] self.cells()[k],
    {
        let fw = self.field_width;
        let mut cells: Vec<usize> = Vec::new();
        let mut y = self.y_start;
        while y < self.y_end
            invariant
                self.y_start <= y,
                y <= self.y_end || y == self.y_start,
                fw == self.field_width,
                self.y_end == 0 || (self.y_end - 1) * self.field_width + self.x_end <= usize::MAX,
                cells@.len() == rows_cells(self.y_start as int, y as int, self.x_start as int, self.x_end as int, fw as int).len(),
                forall|k: int| 0 <= k < cells@.len() ==> cells@[k] as int == #[trigger] rows_cells(self.y_start as int, y as int, self.x_start as int, self.x_end as int, fw as int)[k],
            decreases self.y_end - y,
        {
            let ghost before = cells@;
            let ghost prefix = rows_cells(self.y_start as int, y as int, self.x_start as int, self.x_end as int, fw as int);
            let ghost row = row_cells(y as int, self.x_start as int, self.x_end as int, fw as int);
            proof {
                assert(y * fw <= (self.y_end - 1) * fw) by (nonlinear_arith)
                    requires
                        y <= self.y_end - 1,
                ;
            }
            let base = y * fw;
            let mut x = self.x_start;
            while x < self.x_end
                invariant
                    self.x_start <= x,
                    x <= self.x_end || x == self.x_start,
                    base == y * fw,
                    base + self.x_end <= usize::MAX,
                    y < self.y_end,
                    fw == self.field_width,
                    row == row_cells(y as int, self.x_start as int, self.x_end as int, fw as int),
                    cells@.len() == before.len() + (x - self.x_start),
                    forall|k: int| 0 <= k < before.len() ==> cells@[k] == before[k],
                    forall|k: int| 0 <= k < x - self.x_start ==> cells@[before.len() + k] as int == #[trigger] row[k],
                decreases self.x_end - x,
            {
                cells.push(base + x);
                x = x + 1;
            }
            proof {
                assert(x - self.x_start == row.len());
                {
                    let next = rows_cells(self.y_start as int, y + 1, self.x_start as int, self.x_end as int, fw as int);
                    assert(next == prefix + row);
                    assert forall|k: int| 0 <= k < cells@.len() implies cells@[k] as int == #[trigger] next[k] by {
                        if k < before.len() {
                            assert(cells@[k] == before[k]);
                        } else {
                            assert(cells@[before.len() + (k - before.len())] as int == row[k - before.len()]);
                        }
                    }
                }
            }
            y = y + 1;
        }
        cells
    }

    /// Number of cells in this region.
    pub fn cell_count(&self) -> (n: usize)
        requires
            self.x_start <= self.x_end,
            self.y_start <= self.y_end,
            (self.x_end - self.x_start) * (self.y_end - self.y_start) <= usize::MAX,
        ensures
            n == (self.x_end - self.x_start) * (self.y_end - self.y_start),
    {
        (self.x_end - self.x_start) * (self.y_end - self.y_start)
    }
}

/// Diagnostic summary of region activity distribution.
#[derive(Debug, Clone, Copy, Default)]
pub struct RegionStats {
    pub total: usize,
    pub dormant: usize,
    pub warming: usize,
    pub active: usize,
    pub hot: usize,
}

/// In a `fw`-wide grid, the cells of rows `y_start..y_end`, columns
/// `x_start..x_end`, come in ascending order and are exactly the cells
/// whose row lies in `y_start..y_end` and whose column lies in
/// `x_start..x_end`.
pub proof fn lemma_rows_cells_exact(y_start: int, y_end: int, x_start: int, x_end: int, fw: int)
    requires
        fw > 0,
        0 <= y_start,
        0 <= x_start,
        x_end <= fw,
    ensures
        forall|a: int, b: int| 0 <= a < b < rows_cells(y_start, y_end, x_start, x_end, fw).len() ==> rows_cells(
            y_start,
            y_end,
            x_start,
            x_end,
            fw,
        )[a] < rows_cells(y_start, y_end, x_start, x_end, fw)[b],
        forall|c: int| #[trigger] rows_cells(y_start, y_end, x_start, x_end, fw).contains(c) <==> (0 <= c && y_start
            <= c / fw < y_end && x_start <= c % fw < x_end),
    decreases y_end - y_start,
{
    let rc = rows_cells(y_start, y_end, x_start, x_end, fw);
    if y_end <= y_start {
        assert forall|c: int| #[trigger] rc.contains(c) <==> (0 <= c && y_start <= c / fw < y_end && x_start <= c % fw
            < x_end) by {
            assert(rc.len() == 0);
        }
    } else {
        let y = y_end - 1;
        lemma_rows_cells_exact(y_start, y, x_start, x_end, fw);
        let left = rows_cells(y_start, y, x_start, x_end, fw);
        let row = row_cells(y, x_start, x_end, fw);
        assert(rc == left + row);
        // Each cell of the last row has that row and its column.
        assert forall|i: int| 0 <= i < row.len() implies (#[trigger] row[i]) / fw == y && row[i] % fw == x_start + i by {
            vstd::arithmetic::div_mod::lemma_fundamental_div_mod_converse(row[i], fw, y, x_start + i);
        }
        // Cells of earlier rows lie below the last row's first cell.
        assert forall|a: int| 0 <= a < left.len() implies (#[trigger] left[a]) < y * fw by {
            assert(left.contains(left[a]));
            let c = left[a];
            vstd::arithmetic::div_mod::lemma_fundamental_div_mod(c, fw);
            vstd::arithmetic::div_mod::lemma_mod_bound(c, fw);
            assert(fw * (c / fw) + fw <= fw * y) by (nonlinear_arith)
                requires
                    c / fw < y,
                    fw > 0,
            ;
        }
        assert forall|a: int, b: int| 0 <= a < b < rc.len() implies rc[a] < rc[b] by {
            if b < left.len() {
                assert(rc[a] == left[a] && rc[b] == left[b]);
            } else if a >= left.len() {
                assert(rc[a] == row[a - left.len()] && rc[b] == row[b - left.len()]);
            } else {
                assert(rc[a] == left[a] && rc[b] == row[b - left.len()]);
                assert(row[b - left.len()] >= y * fw) by (nonlinear_arith)
                    requires
                        row[b - left.len()] == y * fw + x_start + (b - left.len()),
                        x_start >= 0,
                        b - left.len() >= 0,
                ;
            }
        }
        assert forall|c: int| #[trigger] rc.contains(c) <==> (0 <= c && y_start <= c / fw < y_end && x_start <= c % fw
            < x_end) by {
            if rc.contains(c) {
                let m = choose|m: int| 0 <= m < rc.len() && rc[m] == c;
                if m < left.len() {
                    assert(left[m] == c);
                    assert(left.contains(c));
                } else {
                    assert(row[m - left.len()] == c);
                    assert(y * fw >= 0) by (nonlinear_arith)
                        requires
                            y >= 0,
                            fw > 0,
                    ;
                }
            }
            if 0 <= c && y_start <= c / fw < y_end && x_start <= c % fw < x_end {
                if c / fw < y {
                    assert(left.contains(c));
                    let m = choose|m: int| 0 <= m < left.len() && left[m] == c;
                    assert(rc[m] == c);
                } else {
                    let i = c % fw - x_start;
                    vstd::arithmetic::div_mod::lemma_fundamental_div_mod(c, fw);
                    assert(row[i] == c) by (nonlinear_arith)
                        requires
                            row[i] == y * fw + x_start + i,
                            c == fw * (c / fw) + c % fw,
                            c / fw == y,
                            i == c % fw - x_start,
                    ;
                    assert(rc[left.len() + i] == c);
                }
            }
        }
    }
}

} // verus!
