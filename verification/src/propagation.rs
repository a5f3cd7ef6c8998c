//! Disturbance propagation over a square chunk grid.
use vstd::prelude::*;
use crate::regions::{lemma_rows_cells_exact, rows_cells};

verus! {

/// The visited window `(z_start, z_end, x_start, x_end)`: the rows and
/// columns within `radius` steps of the origin, clipped to the grid.
pub open spec fn propagation_window(origin_chunk: u32, radius: i32, world_grid_size: u32) -> (int, int, int, int) {
    let g = world_grid_size as int;
    let ox = (origin_chunk % world_grid_size) as int;
    let oz = (origin_chunk / world_grid_size) as int;
    (
        if oz - radius > 0 { oz - radius } else { 0 },
        if oz + radius + 1 < g { oz + radius + 1 } else { g },
        if ox - radius > 0 { ox - radius } else { 0 },
        if ox + radius + 1 < g { ox + radius + 1 } else { g },
    )
}

/// The chunks within `radius` grid steps (in both axes) of `origin_chunk`
/// on a `world_grid_size × world_grid_size` grid, row by row.
///
/// The radius is the whole number of steps covered by the disturbance's
/// real-valued radius.  The grid side, the origin's row and column, and
/// both ends of each range are `i32` values, and every visited chunk index
/// is a `u32`: the inputs are those on which none of these overflows.
pub fn compute_propagation_cells(origin_chunk: u32, radius: i32, world_grid_size: u32) -> (affected: Vec<u32>)
    requires
        0 < world_grid_size <= i32::MAX,
        origin_chunk / world_grid_size <= i32::MAX,
        i32::MIN <= (origin_chunk / world_grid_size) - radius,
        (origin_chunk / world_grid_size) + radius <= i32::MAX,
        i32::MIN <= (origin_chunk % world_grid_size) - radius,
        (origin_chunk % world_grid_size) + radius <= i32::MAX,
        ({
            let (zs, ze, xs, xe) = propagation_window(origin_chunk, radius, world_grid_size);
            zs < ze && xs < xe ==> (ze - 1) * world_grid_size + (xe - 1) <= u32::MAX
        }),
    ensures
        ({
            let (zs, ze, xs, xe) = propagation_window(origin_chunk, radius, world_grid_size);
            let cells = rows_cells(zs, ze, xs, xe, world_grid_size as int);
            &&& affected@.len() == cells.len()
            &&& forall|k: int| 0 <= k < affected@.len() ==> affected@[k] as int == #[trigger] cells[k]
        }),
{
    let g = world_grid_size as i64;
    let ox = (origin_chunk % world_grid_size) as i64;
    let oz = (origin_chunk / world_grid_size) as i64;
    let r = radius as i64;
    let z_start: i64 = if oz - r > 0 { oz - r } else { 0 };
    let z_end: i64 = if oz + r + 1 < g { oz + r + 1 } else { g };
    let x_start: i64 = if ox - r > 0 { ox - r } else { 0 };
    let x_end: i64 = if ox + r + 1 < g { ox + r + 1 } else { g };
    let ghost fw = g as int;
    let mut affected: Vec<u32> = Vec::new();
    if x_start >= x_end {
        proof {
            assert forall|a: int, b: int| a <= b implies rows_cells(a, b, x_start as int, x_end as int, fw).len() == 0 by {
                lemma_rows_empty(a, b, x_start as int, x_end as int, fw);
            }
        }
        return affected;
    }
    let mut z = z_start;
    while z < z_end
        invariant
            0 <= z_start <= z,
            z <= z_end || z == z_start,
            z_end <= g,
            x_start < x_end,
            x_end <= g,
            0 <= x_start,
            g == world_grid_size,
            0 < g <= i32::MAX,
            z_start < z_end ==> (z_end - 1) * g + (x_end - 1) <= u32::MAX,
            fw == g,
            affected@.len() == rows_cells(z_start as int, z as int, x_start as int, x_end as int, fw).len(),
            forall|k: int| 0 <= k < affected@.len() ==> affected@[k] as int == #[trigger] rows_cells(z_start as int, z as int, x_start as int, x_end as int, fw)[k],
        decreases z_end - z,
    {
        let ghost before = affected@;
        let ghost prefix = rows_cells(z_start as int, z as int, x_start as int, x_end as int, fw);
        let ghost row = crate::regions::row_cells(z as int, x_start as int, x_end as int, fw);
        proof {
            assert(z * g <= (z_end - 1) * g) by (nonlinear_arith)
                requires
                    z <= z_end - 1,
                    g > 0,
            ;
            assert(z * g <= 0x7fff_ffff * 0x7fff_ffff) by (nonlinear_arith)
                requires
                    0 <= z <= 0x7fff_ffff,
                    0 < g <= 0x7fff_ffff,
            ;
        }
        let base = z * g;
        let mut x = x_start;
        while x < x_end
            invariant
                x_start <= x,
                x <= x_end,
                0 <= x_start,
                x_end <= g,
                base == z * g,
                0 <= base,
                base + x_end - 1 <= u32::MAX,
                row == crate::regions::row_cells(z as int, x_start as int, x_end as int, fw),
                fw == g,
                affected@.len() == before.len() + (x - x_start),
                forall|k: int| 0 <= k < before.len() ==> affected@[k] == before[k],
                forall|k: int| 0 <= k < x - x_start ==> affected@[before.len() + k] as int == #[trigger] row[k],
            decreases x_end - x,
        {
            affected.push((base + x) as u32);
            x = x + 1;
        }
        proof {
            assert(x - x_start == row.len());
            let next = rows_cells(z_start as int, z + 1, x_start as int, x_end as int, fw);
            assert(next == prefix + row);
            assert forall|k: int| 0 <= k < affected@.len() implies affected@[k] as int == #[trigger] next[k] by {
                if k < before.len() {
                    assert(affected@[k] == before[k]);
                } else {
                    assert(affected@[before.len() + (k - before.len())] as int == row[k - before.len()]);
                }
            }
        }
        z = z + 1;
    }
    affected
}

proof fn lemma_rows_empty(y_start: int, y_end: int, x_start: int, x_end: int, fw: int)
    requires
        x_end <= x_start,
    ensures
        rows_cells(y_start, y_end, x_start, x_end, fw).len() == 0,
    decreases y_end - y_start,
{
    if y_end > y_start {
        lemma_rows_empty(y_start, y_end - 1, x_start, x_end, fw);
    }
}

/// The propagation cells come in ascending order and are exactly the chunks
/// of the grid whose row and whose column each lie within `radius` of the
/// origin chunk's.
pub proof fn lemma_propagation_cells_exact(origin_chunk: u32, radius: i32, world_grid_size: u32, affected: Seq<u32>)
    requires
        world_grid_size > 0,
        ({
            let (zs, ze, xs, xe) = propagation_window(origin_chunk, radius, world_grid_size);
            let cells = rows_cells(zs, ze, xs, xe, world_grid_size as int);
            &&& affected.len() == cells.len()
            &&& forall|k: int| 0 <= k < affected.len() ==> affected[k] as int == #[trigger] cells[k]
        }),
    ensures
        forall|a: int, b: int| 0 <= a < b < affected.len() ==> affected[a] < affected[b],
        forall|c: u32| #[trigger] affected.contains(c) <==> ({
            let g = world_grid_size as int;
            let oz = (origin_chunk / world_grid_size) as int;
            let ox = (origin_chunk % world_grid_size) as int;
            &&& (c as int) < g * g
            &&& oz - radius <= (c as int) / g <= oz + radius
            &&& ox - radius <= (c as int) % g <= ox + radius
        }),
{
    let g = world_grid_size as int;
    let (zs, ze, xs, xe) = propagation_window(origin_chunk, radius, world_grid_size);
    let cells = rows_cells(zs, ze, xs, xe, g);
    lemma_rows_cells_exact(zs, ze, xs, xe, g);
    assert forall|a: int, b: int| 0 <= a < b < affected.len() implies affected[a] < affected[b] by {
        assert(cells[a] < cells[b]);
    }
    assert forall|c: u32| #[trigger] affected.contains(c) <==> ({
        let oz = (origin_chunk / world_grid_size) as int;
        let ox = (origin_chunk % world_grid_size) as int;
        &&& (c as int) < g * g
        &&& oz - radius <= (c as int) / g <= oz + radius
        &&& ox - radius <= (c as int) % g <= ox + radius
    }) by {
        let ci = c as int;
        vstd::arithmetic::div_mod::lemma_fundamental_div_mod(ci, g);
        vstd::arithmetic::div_mod::lemma_mod_bound(ci, g);
        assert((ci < g * g) == (ci / g < g)) by (nonlinear_arith)
            requires
                ci == g * (ci / g) + ci % g,
                0 <= ci % g < g,
                ci >= 0,
                g > 0,
        ;
        if affected.contains(c) {
            let m = choose|m: int| 0 <= m < affected.len() && affected[m] == c;
            assert(cells[m] == ci);
            assert(cells.contains(ci));
        }
        if cells.contains(ci) {
            let m = choose|m: int| 0 <= m < cells.len() && cells[m] == ci;
            assert(affected[m] as int == ci);
            assert(affected[m] == c);
        }
    }
}

} // verus!
