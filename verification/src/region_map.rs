//! The grid of activation regions covering a field, their activity
//! classification and the shadow validation of a sparse region refresh.
//!
//! Probabilities are `f32` bit patterns compared as `f32`; the mean
//! probability of a region is computed by the caller and handed in.
use vstd::prelude::*;
use crate::delta::FieldDeltaMask;
use crate::emission::{f32_bits_greater, f32_bits_gt};
use crate::runtime_frame::{f32_bits_is_nan, f32_bits_rank};
use crate::regions::{REGION_SIZE, RegionActivityState, RegionBounds, RegionStats};
use crate::validation::{
    DifferentialRegionMode, DifferentialRegionValidationReport, RegionParityReport, region_recorded,
};

verus! {

/// Bit pattern of `0.02f32`: a region whose mean is above it is warming.
pub const DORMANT_THRESHOLD: u32 = 0x3ca3_d70au32;

/// Bit pattern of `0.15f32`: a cell above it counts as active.
pub const ACTIVE_THRESHOLD: u32 = 0x3e19_999au32;

/// Bit pattern of `0.5f32`: a region whose peak is above it is hot.
pub const HOT_THRESHOLD: u32 = 0x3f00_0000u32;

/// One region of the grid with the statistics of its last scan.
#[derive(Debug, Clone, Copy)]
pub struct ActivationRegion {
    /// Flat region index, row-major over the region grid.
    pub region_idx: usize,
    /// Grid-aligned bounds.
    pub bounds: RegionBounds,
    /// Activity computed at the last scan.
    pub activity: RegionActivityState,
    /// Bit pattern of the mean probability over the region's cells.
    pub mean_probability: u32,
    /// Bit pattern of the peak probability.
    pub peak_probability: u32,
    /// Number of cells above `ACTIVE_THRESHOLD`.
    pub active_cell_count: usize,
}

/// The activity a region's statistics call for: hot above the hot
/// threshold, else active with any active cell, else warming with a mean
/// above the dormant threshold, else dormant.
pub open spec fn activity_for(peak: u32, active_cells: usize, mean: u32) -> RegionActivityState {
    if f32_bits_gt(peak, HOT_THRESHOLD) {
        RegionActivityState::Hot
    } else if active_cells > 0 {
        RegionActivityState::Active
    } else if f32_bits_gt(mean, DORMANT_THRESHOLD) {
        RegionActivityState::Warming
    } else {
        RegionActivityState::Dormant
    }
}

/// Classify a region from its statistics.
pub fn classify_region(peak: u32, active_cells: usize, mean: u32) -> (s: RegionActivityState)
    ensures
        s == activity_for(peak, active_cells, mean),
{
    if f32_bits_greater(peak, HOT_THRESHOLD) {
        RegionActivityState::Hot
    } else if active_cells > 0 {
        RegionActivityState::Active
    } else if f32_bits_greater(mean, DORMANT_THRESHOLD) {
        RegionActivityState::Warming
    } else {
        RegionActivityState::Dormant
    }
}

/// `a` cut down to at most `b`.
pub open spec fn min_nat(a: int, b: int) -> int {
    if a < b { a } else { b }
}

/// The bounds of the region in grid column `rx` and row `ry` of a
/// `width × height` field.
pub open spec fn bounds_at(rx: int, ry: int, width: int, height: int) -> RegionBounds {
    RegionBounds {
        x_start: (rx * REGION_SIZE) as usize,
        x_end: min_nat(rx * REGION_SIZE + REGION_SIZE, width) as usize,
        y_start: (ry * REGION_SIZE) as usize,
        y_end: min_nat(ry * REGION_SIZE + REGION_SIZE, height) as usize,
        field_width: width as usize,
    }
}

/// Number of regions along a side of `len` cells.
pub open spec fn regions_along(len: int) -> int {
    (len + REGION_SIZE - 1) / (REGION_SIZE as int)
}

/// The regions covering a field, row-major over the region grid.
pub struct RegionMap {
    regions: Vec<ActivationRegion>,
    regions_wide: usize,
    regions_tall: usize,
    field_width: usize,
    field_height: usize,
}

impl RegionMap {
    /// The regions, by region index.
    pub closed spec fn regions(&self) -> Seq<ActivationRegion> {
        self.regions@
    }

    /// Regions per grid row.
    pub closed spec fn wide(&self) -> int {
        self.regions_wide as int
    }

    /// Regions per grid column.
    pub closed spec fn tall(&self) -> int {
        self.regions_tall as int
    }

    /// Width of the field in cells.
    pub closed spec fn width(&self) -> int {
        self.field_width as int
    }

    /// Height of the field in cells.
    pub closed spec fn height(&self) -> int {
        self.field_height as int
    }

    /// The grid covers the field: one region per `REGION_SIZE` square (the
    /// last ones cut at the field's edge), each at its own index.
    pub closed spec fn well_formed(&self) -> bool {
        &&& self.regions_wide == regions_along(self.field_width as int)
        &&& self.regions_tall == regions_along(self.field_height as int)
        &&& self.regions_wide * REGION_SIZE <= usize::MAX
        &&& self.regions_tall * REGION_SIZE <= usize::MAX
        &&& self.regions_wide * self.regions_tall <= usize::MAX
        &&& self.regions@.len() == self.regions_wide * self.regions_tall
        &&& forall|k: int|
            0 <= k < self.regions@.len() ==> {
                &&& (#[trigger] self.regions@[k]).region_idx == k
                &&& self.regions@[k].bounds == bounds_at(
                    k % (self.regions_wide as int),
                    k / (self.regions_wide as int),
                    self.field_width as int,
                    self.field_height as int,
                )
            }
    }

    /// The grid for a `width × height` field, every region dormant with
    /// zero statistics.
    pub fn new(width: usize, height: usize) -> (m: Self)
        requires
            regions_along(width as int) * REGION_SIZE <= usize::MAX,
            regions_along(height as int) * REGION_SIZE <= usize::MAX,
            regions_along(width as int) * regions_along(height as int) <= usize::MAX,
        ensures
            m.well_formed(),
            m.width() == width,
            m.height() == height,
            forall|k: int| 0 <= k < m.regions().len() ==> {
                &&& (#[trigger] m.regions()[k]).activity == RegionActivityState::Dormant
                &&& m.regions()[k].mean_probability == 0
                &&& m.regions()[k].peak_probability == 0
                &&& m.regions()[k].active_cell_count == 0
            },
    {
        let rw = width / REGION_SIZE + if width % REGION_SIZE != 0 { 1 } else { 0 };
        let rt = height / REGION_SIZE + if height % REGION_SIZE != 0 { 1 } else { 0 };
        proof {
            assert(rw == regions_along(width as int));
            assert(rt == regions_along(height as int));
        }
        let mut regions: Vec<ActivationRegion> = Vec::new();
        let mut ry: usize = 0;
        while ry < rt
            invariant
                rw == regions_along(width as int),
                rt == regions_along(height as int),
                rw * REGION_SIZE <= usize::MAX,
                rt * REGION_SIZE <= usize::MAX,
                rw * rt <= usize::MAX,
                ry <= rt,
                regions@.len() == ry * rw,
                forall|k: int|
                    0 <= k < regions@.len() ==> {
                        &&& (#[trigger] regions@[k]).region_idx == k
                        &&& regions@[k].bounds == bounds_at(k % (rw as int), k / (rw as int), width as int, height as int)
                        &&& regions@[k].activity == RegionActivityState::Dormant
                        &&& regions@[k].mean_probability == 0
                        &&& regions@[k].peak_probability == 0
                        &&& regions@[k].active_cell_count == 0
                    },
            decreases rt - ry,
        {
            let mut rx: usize = 0;
            proof {
                assert(ry * rw + rw <= rt * rw) by (nonlinear_arith)
                    requires
                        ry < rt,
                ;
                assert(ry * REGION_SIZE + REGION_SIZE <= rt * REGION_SIZE) by (nonlinear_arith)
                    requires
                        ry < rt,
                ;
            }
            while rx < rw
                invariant
                    rw == regions_along(width as int),
                    rt == regions_along(height as int),
                    rw * REGION_SIZE <= usize::MAX,
                    rt * REGION_SIZE <= usize::MAX,
                    rw * rt <= usize::MAX,
                    ry < rt,
                    ry * rw + rw <= rt * rw,
                    ry * REGION_SIZE + REGION_SIZE <= rt * REGION_SIZE,
                    rx <= rw,
                    regions@.len() == ry * rw + rx,
                    forall|k: int|
                        0 <= k < regions@.len() ==> {
                            &&& (#[trigger] regions@[k]).region_idx == k
                            &&& regions@[k].bounds == bounds_at(k % (rw as int), k / (rw as int), width as int, height as int)
                            &&& regions@[k].activity == RegionActivityState::Dormant
                            &&& regions@[k].mean_probability == 0
                            &&& regions@[k].peak_probability == 0
                            &&& regions@[k].active_cell_count == 0
                        },
                decreases rw - rx,
            {
                proof {
                    assert(rx * REGION_SIZE + REGION_SIZE <= rw * REGION_SIZE) by (nonlinear_arith)
                        requires
                            rx < rw,
                    ;
                    vstd::arithmetic::div_mod::lemma_fundamental_div_mod_converse(
                        (ry * rw + rx) as int,
                        rw as int,
                        ry as int,
                        rx as int,
                    );
                }
                let x_start = rx * REGION_SIZE;
                let y_start = ry * REGION_SIZE;
                let x_end = if x_start + REGION_SIZE < width { x_start + REGION_SIZE } else { width };
                let y_end = if y_start + REGION_SIZE < height { y_start + REGION_SIZE } else { height };
                regions.push(ActivationRegion {
                    region_idx: ry * rw + rx,
                    bounds: RegionBounds { x_start, x_end, y_start, y_end, field_width: width },
                    activity: RegionActivityState::Dormant,
                    mean_probability: 0,
                    peak_probability: 0,
                    active_cell_count: 0,
                });
                rx += 1;
            }
            proof {
                assert((ry + 1) * rw == ry * rw + rw) by (nonlinear_arith);
            }
            ry += 1;
        }
        proof {
            assert(rt * rw == rw * rt) by (nonlinear_arith);
        }
        RegionMap { regions, regions_wide: rw, regions_tall: rt, field_width: width, field_height: height }
    }

    /// The region at `region_idx`, if any.
    pub fn get(&self, region_idx: usize) -> (r: Option<&ActivationRegion>)
        ensures
            r == (if region_idx < self.regions().len() { Some(&self.regions()[region_idx as int]) } else { None }),
    {
        if region_idx < self.regions.len() { Some(&self.regions[region_idx]) } else { None }
    }

    /// All regions, by region index.
    pub fn iter(&self) -> (r: &[ActivationRegion])
        ensures
            r@ == self.regions(),
    {
        self.regions.as_slice()
    }

    /// Number of regions.
    pub fn region_count(&self) -> (n: usize)
        ensures
            n == self.regions().len(),
    {
        self.regions.len()
    }

    /// The region holding field cell `cell_idx`.
    pub fn region_for_cell(&self, cell_idx: usize) -> (r: usize)
        requires
            self.width() > 0,
            cell_region(cell_idx as int, self.width(), self.wide()) <= usize::MAX,
        ensures
            r == cell_region(cell_idx as int, self.width(), self.wide()),
    {
        let x = cell_idx % self.field_width;
        let y = cell_idx / self.field_width;
        let rx = x / REGION_SIZE;
        let ry = y / REGION_SIZE;
        proof {
            assert(0 <= ry * self.regions_wide) by (nonlinear_arith)
                requires
                    0 <= ry,
                    0 <= self.regions_wide,
            ;
        }
        ry * self.regions_wide + rx
    }

    /// Whether field cell `cell_idx` lies in a dormant region; a cell outside
    /// the grid counts as dormant.
    pub fn cell_is_dormant(&self, cell_idx: usize) -> (r: bool)
        requires
            self.width() > 0,
            cell_region(cell_idx as int, self.width(), self.wide()) <= usize::MAX,
        ensures
            r == (cell_region(cell_idx as int, self.width(), self.wide()) >= self.regions().len()
                || self.regions()[cell_region(cell_idx as int, self.width(), self.wide())].activity
                == RegionActivityState::Dormant),
    {
        let region_idx = self.region_for_cell(cell_idx);
        if region_idx < self.regions.len() {
            self.regions[region_idx].activity == RegionActivityState::Dormant
        } else {
            true
        }
    }

    /// Number of regions in each activity state.
    pub fn activity_stats(&self) -> (st: RegionStats)
        ensures
            st.total == self.regions().len(),
            st.dormant == count_in_state(self.regions(), RegionActivityState::Dormant),
            st.warming == count_in_state(self.regions(), RegionActivityState::Warming),
            st.active == count_in_state(self.regions(), RegionActivityState::Active),
            st.hot == count_in_state(self.regions(), RegionActivityState::Hot),
    {
        let mut st = RegionStats { total: self.regions.len(), dormant: 0, warming: 0, active: 0, hot: 0 };
        let mut i: usize = 0;
        while i < self.regions.len()
            invariant
                i <= self.regions@.len(),
                st.total == self.regions@.len(),
                st.dormant == count_in_state(self.regions@.take(i as int), RegionActivityState::Dormant),
                st.warming == count_in_state(self.regions@.take(i as int), RegionActivityState::Warming),
                st.active == count_in_state(self.regions@.take(i as int), RegionActivityState::Active),
                st.hot == count_in_state(self.regions@.take(i as int), RegionActivityState::Hot),
                st.dormant + st.warming + st.active + st.hot == i,
            decreases self.regions@.len() - i,
        {
            proof {
                assert(self.regions@.take(i + 1).drop_last() =~= self.regions@.take(i as int));
            }
            match self.regions[i].activity {
                RegionActivityState::Dormant => st.dormant = st.dormant + 1,
                RegionActivityState::Warming => st.warming = st.warming + 1,
                RegionActivityState::Active => st.active = st.active + 1,
                RegionActivityState::Hot => st.hot = st.hot + 1,
            }
            i += 1;
        }
        proof {
            assert(self.regions@.take(i as int) =~= self.regions@);
        }
        st
    }

    /// The regions that need execution, in region order.
    pub fn iter_active(&self) -> (r: Vec<ActivationRegion>)
        ensures
            r@ == regions_in(self.regions(), |s: RegionActivityState| s == RegionActivityState::Active
                || s == RegionActivityState::Hot),
    {
        let ghost keep = |s: RegionActivityState| s == RegionActivityState::Active || s == RegionActivityState::Hot;
        let mut r: Vec<ActivationRegion> = Vec::new();
        let mut i: usize = 0;
        while i < self.regions.len()
            invariant
                i <= self.regions@.len(),
                keep == (|s: RegionActivityState| s == RegionActivityState::Active || s == RegionActivityState::Hot),
                r@ == regions_in(self.regions@.take(i as int), keep),
            decreases self.regions@.len() - i,
        {
            proof {
                assert(self.regions@.take(i + 1).drop_last() =~= self.regions@.take(i as int));
            }
            if self.regions[i].activity.needs_execution() {
                r.push(self.regions[i]);
            }
            i += 1;
        }
        proof {
            assert(self.regions@.take(i as int) =~= self.regions@);
        }
        r
    }

    /// The regions that need streaming consideration, in region order.
    pub fn iter_streaming_eligible(&self) -> (r: Vec<ActivationRegion>)
        ensures
            r@ == regions_in(self.regions(), |s: RegionActivityState| s != RegionActivityState::Dormant),
    {
        let ghost keep = |s: RegionActivityState| s != RegionActivityState::Dormant;
        let mut r: Vec<ActivationRegion> = Vec::new();
        let mut i: usize = 0;
        while i < self.regions.len()
            invariant
                i <= self.regions@.len(),
                keep == (|s: RegionActivityState| s != RegionActivityState::Dormant),
                r@ == regions_in(self.regions@.take(i as int), keep),
            decreases self.regions@.len() - i,
        {
            proof {
                assert(self.regions@.take(i + 1).drop_last() =~= self.regions@.take(i as int));
            }
            if self.regions[i].activity.needs_streaming() {
                r.push(self.regions[i]);
            }
            i += 1;
        }
        proof {
            assert(self.regions@.take(i as int) =~= self.regions@);
        }
        r
    }

    /// The non-averaged part of a region scan: walk the region's cells in
    /// row-major order until the first one outside a field of
    /// `probabilities.len()` cells, and return the peak probability (from
    /// `+0.0`), the number of cells above `ACTIVE_THRESHOLD`, and how many
    /// cells were walked.
    pub fn scan_region(&self, region_idx: usize, probabilities: &[u32]) -> (r: (u32, usize, usize))
        requires
            self.well_formed(),
            region_idx < self.regions().len(),
            self.width() * self.height() <= usize::MAX,
        ensures
            ({
                let cells = self.regions()[region_idx as int].bounds.cells();
                let n = probabilities@.len() as int;
                &&& r.2 <= cells.len()
                &&& forall|j: int| 0 <= j < r.2 ==> #[trigger] cells[j] < n
                &&& (r.2 == cells.len() || cells[r.2 as int] >= n)
                &&& r.0 == peak_over(probabilities@, cells, r.2 as int)
                &&& r.1 == active_over(probabilities@, cells, r.2 as int)
            }),
    {
        let ghost p = probabilities@;
        let bounds = self.regions[region_idx].bounds;
        let ghost cells_spec = bounds.cells();
        proof {
            let k = region_idx as int;
            let w = self.field_width as int;
            let h = self.field_height as int;
            assert(self.regions@[k].region_idx == k);
            assert(self.regions_wide > 0) by (nonlinear_arith)
                requires
                    0 <= k < self.regions_wide * self.regions_tall,
            ;
            let wd = self.regions_wide as int;
            assert(k % wd >= 0 && k / wd >= 0) by (nonlinear_arith)
                requires
                    wd > 0,
                    k >= 0,
            ;
            let xe = min_nat((k % wd) * REGION_SIZE + REGION_SIZE, w);
            let ye = min_nat((k / wd) * REGION_SIZE + REGION_SIZE, h);
            assert(0 <= xe <= w);
            assert(0 <= ye <= h);
            assert(bounds.x_end == xe);
            assert(bounds.y_end == ye);
            assert(bounds.x_end <= w);
            assert(bounds.y_end <= h);
            assert(bounds.field_width == w);
            if bounds.y_end > 0 {
                assert((bounds.y_end - 1) * w + bounds.x_end <= h * w) by (nonlinear_arith)
                    requires
                        bounds.y_end <= h,
                        bounds.x_end <= w,
                        bounds.y_end >= 1,
                        w >= 0,
                ;
                assert(h * w == w * h) by (nonlinear_arith);
            }
        }
        let cells = bounds.iter_cells();
        let n = probabilities.len();
        let mut peak: u32 = 0;
        let mut active: usize = 0;
        let mut k: usize = 0;
        while k < cells.len() && cells[k] < n
            invariant
                cells@.len() == cells_spec.len(),
                forall|j: int| 0 <= j < cells@.len() ==> cells@[j] as int == #[trigger] cells_spec[j],
                n == p.len(),
                p == probabilities@,
                k <= cells@.len(),
                forall|j: int| 0 <= j < k ==> #[trigger] cells_spec[j] < n,
                peak == peak_over(p, cells_spec, k as int),
                active == active_over(p, cells_spec, k as int),
                active <= k,
            decreases cells@.len() - k,
        {
            let v = probabilities[cells[k]];
            proof {
                assert(cells_spec[k as int] == cells@[k as int]);
            }
            if f32_bits_greater(v, peak) {
                peak = v;
            }
            if f32_bits_greater(v, ACTIVE_THRESHOLD) {
                active = active + 1;
            }
            k += 1;
        }
        proof {
            if k < cells@.len() {
                assert(cells_spec[k as int] == cells@[k as int]);
            }
        }
        (peak, active, k)
    }

    /// Record a region's scan statistics and the activity they call for.
    pub fn apply_region_stats(&mut self, region_idx: usize, mean: u32, peak: u32, active_cells: usize)
        requires
            old(self).well_formed(),
            region_idx < old(self).regions().len(),
        ensures
            final(self).well_formed(),
            final(self).width() == old(self).width(),
            final(self).height() == old(self).height(),
            final(self).wide() == old(self).wide(),
            final(self).tall() == old(self).tall(),
            final(self).regions() == old(self).regions().update(
                region_idx as int,
                ActivationRegion {
                    activity: activity_for(peak, active_cells, mean),
                    mean_probability: mean,
                    peak_probability: peak,
                    active_cell_count: active_cells,
                    ..old(self).regions()[region_idx as int]
                },
            ),
    {
        let old_region = self.regions[region_idx];
        let activity = classify_region(peak, active_cells, mean);
        let region = ActivationRegion {
            region_idx: old_region.region_idx,
            bounds: old_region.bounds,
            activity,
            mean_probability: mean,
            peak_probability: peak,
            active_cell_count: active_cells,
        };
        self.regions.set(region_idx, region);
        proof {
            assert forall|k: int| 0 <= k < self.regions@.len() implies {
                &&& (#[trigger] self.regions@[k]).region_idx == k
                &&& self.regions@[k].bounds == bounds_at(
                    k % (self.regions_wide as int),
                    k / (self.regions_wide as int),
                    self.field_width as int,
                    self.field_height as int,
                )
            } by {
                assert(old(self).regions@[k].region_idx == k);
            }
        }
    }

    /// The regions holding a changed cell inside a field of `field_len`
    /// cells, each once.
    pub fn changed_regions(&self, delta_mask: &FieldDeltaMask, field_len: usize) -> (r: Vec<usize>)
        requires
            self.width() > 0,
            delta_mask.well_formed(),
            forall|i: int| #[trigger] delta_mask.changed().contains(i) && 0 <= i < field_len && i < delta_mask.cell_count()
                ==> cell_region(i, self.width(), self.wide()) <= usize::MAX,
        ensures
            forall|a: int, b: int| 0 <= a < b < r@.len() ==> r@[a] != r@[b],
            forall|x: usize| #[trigger] r@.contains(x) <==> exists|i: int| {
                &&& #[trigger] delta_mask.changed().contains(i)
                &&& 0 <= i < field_len
                &&& i < delta_mask.cell_count()
                &&& cell_region(i, self.width(), self.wide()) == x
            },
    {
        let cells = delta_mask.iter_changed();
        let mut r: Vec<usize> = Vec::new();
        let mut j: usize = 0;
        while j < cells.len() && cells[j] < field_len
            invariant
                self.width() > 0,
                delta_mask.well_formed(),
                forall|i: int| #[trigger] delta_mask.changed().contains(i) && 0 <= i < field_len && i < delta_mask.cell_count()
                    ==> cell_region(i, self.width(), self.wide()) <= usize::MAX,
                forall|a: int, b: int| 0 <= a < b < cells@.len() ==> cells@[a] < cells@[b],
                forall|i: usize|
                    #![trigger cells@.contains(i)]
                    cells@.contains(i) <==> (delta_mask.changed().contains(i as int) && i
                        < delta_mask.cell_count()),
                j <= cells@.len(),
                forall|k: int| 0 <= k < j ==> #[trigger] cells@[k] < field_len,
                forall|a: int, b: int| 0 <= a < b < r@.len() ==> r@[a] != r@[b],
                forall|x: usize| #[trigger] r@.contains(x) <==> exists|k: int| 0 <= k < j && cell_region(#[trigger] cells@[k] as int, self.width(), self.wide()) == x,
            decreases cells@.len() - j,
        {
            let idx = cells[j];
            proof {
                assert(cells@.contains(idx));
                assert(delta_mask.changed().contains(idx as int));
            }
            let region_idx = self.region_for_cell(idx);
            let mut seen = false;
            let mut m: usize = 0;
            while m < r.len()
                invariant
                    m <= r@.len(),
                    seen == exists|q: int| 0 <= q < m && r@[q] == region_idx,
                decreases r@.len() - m,
            {
                if r[m] == region_idx {
                    seen = true;
                }
                m += 1;
            }
            let ghost before = r@;
            if !seen {
                r.push(region_idx);
            }
            proof {
                assert forall|x: usize| #[trigger] r@.contains(x) <==> exists|k: int| 0 <= k < j + 1 && cell_region(#[trigger] cells@[k] as int, self.width(), self.wide()) == x by {
                    if r@.contains(x) {
                        if before.contains(x) {
                            let k = choose|k: int| 0 <= k < j && cell_region(#[trigger] cells@[k] as int, self.width(), self.wide()) == x;
                            assert(0 <= k < j + 1 && cell_region(cells@[k] as int, self.width(), self.wide()) == x);
                        } else {
                            let q = choose|q: int| 0 <= q < r@.len() && r@[q] == x;
                            assert(x == region_idx);
                            assert(cell_region(cells@[j as int] as int, self.width(), self.wide()) == x);
                        }
                    }
                    if exists|k: int| 0 <= k < j + 1 && cell_region(#[trigger] cells@[k] as int, self.width(), self.wide()) == x {
                        let k = choose|k: int| 0 <= k < j + 1 && cell_region(#[trigger] cells@[k] as int, self.width(), self.wide()) == x;
                        if k < j {
                            assert(before.contains(x));
                            let q = choose|q: int| 0 <= q < before.len() && before[q] == x;
                            assert(r@[q] == x);
                        } else if seen {
                            let q = choose|q: int| 0 <= q < r@.len() && r@[q] == region_idx;
                            assert(r@[q] == x);
                        } else {
                            assert(r@[before.len() as int] == x);
                        }
                    }
                }
            }
            j += 1;
        }
        proof {
            assert forall|x: usize| #[trigger] r@.contains(x) <==> exists|i: int| {
                &&& #[trigger] delta_mask.changed().contains(i)
                &&& 0 <= i < field_len
                &&& i < delta_mask.cell_count()
                &&& cell_region(i, self.width(), self.wide()) == x
            } by {
                if r@.contains(x) {
                    let k = choose|k: int| 0 <= k < j && cell_region(#[trigger] cells@[k] as int, self.width(), self.wide()) == x;
                    assert(cells@.contains(cells@[k]));
                }
                if exists|i: int| {
                    &&& #[trigger] delta_mask.changed().contains(i)
                    &&& 0 <= i < field_len
                    &&& i < delta_mask.cell_count()
                    &&& cell_region(i, self.width(), self.wide()) == x
                } {
                    let i = choose|i: int| {
                        &&& #[trigger] delta_mask.changed().contains(i)
                        &&& 0 <= i < field_len
                        &&& i < delta_mask.cell_count()
                        &&& cell_region(i, self.width(), self.wide()) == x
                    };
                    assert(cells@.contains(i as usize));
                    let m = choose|m: int| 0 <= m < cells@.len() && cells@[m] == i as usize;
                    if m >= j {
                        if m > j {
                            assert(cells@[j as int] < cells@[m]);
                        }
                        assert(false);
                    }
                    assert(cell_region(cells@[m] as int, self.width(), self.wide()) == x);
                }
            }
        }
        r
    }

    /// Regions per grid row and per grid column.
    pub fn region_grid_dims(&self) -> (d: (usize, usize))
        ensures
            d.0 == self.wide(),
            d.1 == self.tall(),
    {
        (self.regions_wide, self.regions_tall)
    }
}

/// The region of field cell `cell` in a field `width` cells wide with
/// `wide` regions per grid row.
pub open spec fn cell_region(cell: int, width: int, wide: int) -> int {
    ((cell / width) / (REGION_SIZE as int)) * wide + (cell % width) / (REGION_SIZE as int)
}

/// Number of regions of `s` in activity state `st`.
pub open spec fn count_in_state(s: Seq<ActivationRegion>, st: RegionActivityState) -> nat
    decreases s.len(),
{
    if s.len() == 0 {
        0
    } else {
        count_in_state(s.drop_last(), st) + if s.last().activity == st { 1nat } else { 0nat }
    }
}

/// The regions of `s` whose activity `keep` selects, in order.
pub open spec fn regions_in(s: Seq<ActivationRegion>, keep: spec_fn(RegionActivityState) -> bool) -> Seq<ActivationRegion>
    decreases s.len(),
{
    if s.len() == 0 {
        Seq::empty()
    } else if keep(s.last().activity) {
        regions_in(s.drop_last(), keep).push(s.last())
    } else {
        regions_in(s.drop_last(), keep)
    }
}

/// The peak over the first `k` cells of `cells` (from `+0.0`, `f32` order).
pub open spec fn peak_over(p: Seq<u32>, cells: Seq<int>, k: int) -> u32
    decreases k,
{
    if k <= 0 {
        0
    } else {
        let prev = peak_over(p, cells, k - 1);
        let v = p[cells[k - 1]];
        if f32_bits_gt(v, prev) { v } else { prev }
    }
}

/// Number of the first `k` cells of `cells` above `ACTIVE_THRESHOLD`.
pub open spec fn active_over(p: Seq<u32>, cells: Seq<int>, k: int) -> nat
    decreases k,
{
    if k <= 0 {
        0
    } else {
        active_over(p, cells, k - 1) + if f32_bits_gt(p[cells[k - 1]], ACTIVE_THRESHOLD) { 1nat } else { 0nat }
    }
}

/// Region statistics depend only on the probabilities of the region's own
/// cells: two fields that agree on the first `k` cells of a region give the
/// same peak and the same active-cell count over them, so a region that
/// holds no changed cell scans as it did before.
pub proof fn lemma_region_scan_local(p: Seq<u32>, q: Seq<u32>, cells: Seq<int>, k: int)
    requires
        0 <= k <= cells.len(),
        forall|j: int| 0 <= j < k ==> p[#[trigger] cells[j]] == q[cells[j]],
    ensures
        peak_over(p, cells, k) == peak_over(q, cells, k),
        active_over(p, cells, k) == active_over(q, cells, k),
    decreases k,
{
    if k > 0 {
        lemma_region_scan_local(p, q, cells, k - 1);
        assert(p[cells[k - 1]] == q[cells[k - 1]]);
    }
}

/// The peak over the first `k` cells is their largest probability (in
/// `f32` order, NaNs ignored, `+0.0` when none is larger): a number, at
/// least every scanned probability that is a number, and `+0.0` or one of
/// them.  The active count is zero exactly when no scanned cell is above
/// `ACTIVE_THRESHOLD`, and never exceeds the cells scanned.
pub proof fn lemma_region_scan_peak(p: Seq<u32>, cells: Seq<int>, k: int)
    requires
        0 <= k <= cells.len(),
        forall|j: int| 0 <= j < k ==> 0 <= #[trigger] cells[j] < p.len(),
    ensures
        !f32_bits_is_nan(peak_over(p, cells, k)),
        f32_bits_rank(peak_over(p, cells, k)) >= 0,
        forall|j: int| 0 <= j < k && !f32_bits_is_nan(p[#[trigger] cells[j]]) ==> f32_bits_rank(peak_over(p, cells, k))
            >= f32_bits_rank(p[cells[j]]),
        peak_over(p, cells, k) == 0 || exists|j: int| 0 <= j < k && peak_over(p, cells, k) == p[#[trigger] cells[j]],
        active_over(p, cells, k) <= k,
        (active_over(p, cells, k) == 0) == (forall|j: int| 0 <= j < k ==> !f32_bits_gt(p[#[trigger] cells[j]], ACTIVE_THRESHOLD)),
    decreases k,
{
    if k > 0 {
        lemma_region_scan_peak(p, cells, k - 1);
        let prev = peak_over(p, cells, k - 1);
        let v = p[cells[k - 1]];
        if !f32_bits_gt(v, prev) && !f32_bits_is_nan(v) {
            assert(f32_bits_rank(prev) >= f32_bits_rank(v));
        }
        if peak_over(p, cells, k) != 0 {
            if peak_over(p, cells, k) == v {
            } else {
                let j = choose|j: int| 0 <= j < k - 1 && prev == p[#[trigger] cells[j]];
                assert(0 <= j < k && peak_over(p, cells, k) == p[cells[j]]);
            }
        }
        if active_over(p, cells, k) == 0 {
            assert forall|j: int| 0 <= j < k implies !f32_bits_gt(p[#[trigger] cells[j]], ACTIVE_THRESHOLD) by {
                if j < k - 1 {
                }
            }
        }
    } else {
        assert(!f32_bits_is_nan(0u32)) by (bit_vector);
    }
}

/// Number of positions below `n` at which the activities of `a` and `b` differ.
pub open spec fn activity_mismatches(a: Seq<ActivationRegion>, b: Seq<ActivationRegion>, n: int) -> nat
    decreases n,
{
    if n <= 0 {
        0
    } else {
        activity_mismatches(a, b, n - 1) + if a[n - 1].activity != b[n - 1].activity { 1nat } else { 0nat }
    }
}

/// `r` is the parity report of a shadow region grid against the
/// authoritative one: regions compared index by index over the common
/// count, state counts compared over each whole grid.
pub open spec fn region_parity_of(shadow: Seq<ActivationRegion>, authoritative: Seq<ActivationRegion>, r: RegionParityReport) -> bool {
    let n = min_nat(shadow.len() as int, authoritative.len() as int);
    &&& r.region_transitions_checked == n
    &&& r.mismatched_region_states == activity_mismatches(shadow, authoritative, n)
    &&& r.severe_divergence == (r.mismatched_region_states > 0)
    &&& r.active_region_count_match == (count_in_state(shadow, RegionActivityState::Active)
        == count_in_state(authoritative, RegionActivityState::Active))
    &&& r.dormant_region_count_match == (count_in_state(shadow, RegionActivityState::Dormant)
        == count_in_state(authoritative, RegionActivityState::Dormant))
    &&& r.hot_region_count_match == (count_in_state(shadow, RegionActivityState::Hot)
        == count_in_state(authoritative, RegionActivityState::Hot))
}

proof fn lemma_activity_mismatches(a: Seq<ActivationRegion>, b: Seq<ActivationRegion>, n: int)
    requires
        0 <= n <= a.len(),
        n <= b.len(),
    ensures
        activity_mismatches(a, b, n) <= n,
        (activity_mismatches(a, b, n) == 0) == (forall|i: int| 0 <= i < n ==> #[trigger] a[i].activity == b[i].activity),
    decreases n,
{
    if n > 0 {
        lemma_activity_mismatches(a, b, n - 1);
    }
}

/// The region parity report counts a mismatch at most once per compared
/// region, finds none exactly when every compared region has the same
/// activity in both grids, and a grid compared with itself passes.
pub proof fn lemma_region_parity(shadow: Seq<ActivationRegion>, authoritative: Seq<ActivationRegion>, r: RegionParityReport)
    requires
        region_parity_of(shadow, authoritative, r),
    ensures
        r.mismatched_region_states <= r.region_transitions_checked,
        r.region_transitions_checked <= shadow.len() && r.region_transitions_checked <= authoritative.len(),
        (r.mismatched_region_states == 0) == (forall|i: int| 0 <= i < r.region_transitions_checked ==> #[trigger] shadow[i].activity
            == authoritative[i].activity),
        shadow == authoritative ==> r.mismatched_region_states == 0 && !r.severe_divergence && r.active_region_count_match
            && r.dormant_region_count_match && r.hot_region_count_match,
{
    let n = min_nat(shadow.len() as int, authoritative.len() as int);
    lemma_activity_mismatches(shadow, authoritative, n);
}

impl RegionParityReport {
    /// Compare a shadow region grid with the authoritative one.
    pub fn compare(shadow: &RegionMap, authoritative: &RegionMap) -> (r: Self)
        ensures
            region_parity_of(shadow.regions(), authoritative.regions(), r),
    {
        let mut checked: usize = 0;
        let mut mismatched: usize = 0;
        let n = authoritative.region_count();
        let mut idx: usize = 0;
        while idx < n
            invariant
                n == authoritative.regions().len(),
                idx <= n,
                checked == min_nat(idx as int, shadow.regions().len() as int),
                mismatched == activity_mismatches(shadow.regions(), authoritative.regions(), checked as int),
                mismatched <= checked,
            decreases n - idx,
        {
            let s = shadow.get(idx);
            let a = authoritative.get(idx);
            match (s, a) {
                (Some(sr), Some(ar)) => {
                    checked = checked + 1;
                    if sr.activity != ar.activity {
                        mismatched = mismatched + 1;
                    }
                },
                _ => {},
            }
            idx += 1;
        }
        let shadow_stats = shadow.activity_stats();
        let authoritative_stats = authoritative.activity_stats();
        RegionParityReport {
            mismatched_region_states: mismatched,
            active_region_count_match: shadow_stats.active == authoritative_stats.active,
            dormant_region_count_match: shadow_stats.dormant == authoritative_stats.dormant,
            hot_region_count_match: shadow_stats.hot == authoritative_stats.hot,
            region_transitions_checked: checked,
            severe_divergence: mismatched > 0,
        }
    }
}

/// A shadow region grid refreshed sparsely and compared each tick with the
/// authoritative grid, with the accumulated results.
pub struct RegionShadowValidator {
    pub mode: DifferentialRegionMode,
    pub shadow_region_map: RegionMap,
    pub last_report: Option<RegionParityReport>,
    pub validation_report: DifferentialRegionValidationReport,
}

impl RegionShadowValidator {
    /// A disabled validator with a fresh shadow grid for a `width × height`
    /// field and no history.
    pub fn new(width: usize, height: usize) -> (v: Self)
        requires
            regions_along(width as int) * REGION_SIZE <= usize::MAX,
            regions_along(height as int) * REGION_SIZE <= usize::MAX,
            regions_along(width as int) * regions_along(height as int) <= usize::MAX,
        ensures
            v.mode == DifferentialRegionMode::Disabled,
            v.shadow_region_map.well_formed(),
            v.shadow_region_map.width() == width,
            v.shadow_region_map.height() == height,
            v.last_report == None::<RegionParityReport>,
            v.validation_report == (DifferentialRegionValidationReport {
                ticks_run: 0,
                ticks_passed: 0,
                ticks_failed: 0,
                consecutive_passes: 0,
                severe_divergence_events: 0,
                peak_mismatched_regions: 0,
            }),
    {
        RegionShadowValidator {
            mode: DifferentialRegionMode::Disabled,
            shadow_region_map: RegionMap::new(width, height),
            last_report: None,
            validation_report: DifferentialRegionValidationReport {
                ticks_run: 0,
                ticks_passed: 0,
                ticks_failed: 0,
                consecutive_passes: 0,
                severe_divergence_events: 0,
                peak_mismatched_regions: 0,
            },
        }
    }

    /// Turn shadow validation on.
    pub fn enable_shadow(&mut self)
        ensures
            *final(self) == (RegionShadowValidator { mode: DifferentialRegionMode::ShadowValidation, ..*old(self) }),
    {
        self.mode = DifferentialRegionMode::ShadowValidation;
    }

    /// Turn validation off.
    pub fn disable(&mut self)
        ensures
            *final(self) == (RegionShadowValidator { mode: DifferentialRegionMode::Disabled, ..*old(self) }),
    {
        self.mode = DifferentialRegionMode::Disabled;
    }

    /// Whether validation runs: any mode but disabled.
    pub fn is_active(&self) -> (b: bool)
        ensures
            b == (self.mode != DifferentialRegionMode::Disabled),
    {
        match self.mode {
            DifferentialRegionMode::Disabled => false,
            _ => true,
        }
    }

    /// When active, compare the (already refreshed) shadow grid with
    /// `authoritative` and record the result; when inactive, do nothing.
    pub fn record_parity(&mut self, authoritative: &RegionMap)
        requires
            old(self).validation_report.ticks_run < u64::MAX,
            old(self).validation_report.ticks_passed < u64::MAX,
            old(self).validation_report.ticks_failed < u64::MAX,
            old(self).validation_report.consecutive_passes < u64::MAX,
            old(self).validation_report.severe_divergence_events < u64::MAX,
        ensures
            final(self).mode == old(self).mode,
            final(self).shadow_region_map == old(self).shadow_region_map,
            old(self).mode == DifferentialRegionMode::Disabled ==> *final(self) == *old(self),
            old(self).mode != DifferentialRegionMode::Disabled ==> {
                &&& final(self).last_report is Some
                &&& region_parity_of(
                    old(self).shadow_region_map.regions(),
                    authoritative.regions(),
                    final(self).last_report->0,
                )
                &&& final(self).validation_report == region_recorded(
                    old(self).validation_report,
                    final(self).last_report->0,
                )
            },
    {
        if !self.is_active() {
            return;
        }
        let report = RegionParityReport::compare(&self.shadow_region_map, authoritative);
        self.validation_report.record(&report);
        self.last_report = Some(report);
    }
}

} // verus!
