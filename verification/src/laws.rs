//! Global guarantees of the engine, stated over the grid model and
//! proved once and for all: a fluid at rest stays at rest, walls stay
//! impermeable, repeating a state transition changes nothing, and the
//! sampler reproduces stored samples exactly.

use vstd::prelude::*;
use vstd::arithmetic::div_mod::lemma_div_multiples_vanish;
use vstd::arithmetic::div_mod::lemma_div_pos_is_pos;
use vstd::arithmetic::div_mod::lemma_mod_division_less_than_divisor;
use vstd::arithmetic::div_mod::lemma_multiply_divide_lt;
use crate::fixed::{FX_SCALE, FX_HALF, fadd, fsub, fmul, fdivn, fx_floor, int_to_fx, lemma_tdiv_of0, lemma_tdiv_scale_cancel};
use crate::fluid_engine::{
    FluidCell,
    cell_at,
    gidx,
    u_at,
    v_at,
    is_wall,
    open_faces,
    raw_divergence,
    relax_cell,
    sweep_x,
    sweep_y,
    sweep_k,
    solve_iters,
    advect_u_bits,
    advect_v_bits,
    advect_grid,
    sample_u_spec,
    sample_v_spec,
    bilinear,
    clamp_idx,
    set_state_spec,
    lemma_gidx_bound,
    lemma_gidx_distinct,
    CellState,
};
use vstd::arithmetic::div_mod::lemma_fundamental_div_mod_converse;
use vstd::arithmetic::div_mod::lemma_fundamental_div_mod;
use vstd::arithmetic::div_mod::lemma_div_of0;
use vstd::arithmetic::div_mod::lemma_small_mod;

verus! {

/// Every stored face velocity of the grid is exactly zero.
pub open spec fn all_velocities_zero(g: Seq<FluidCell>) -> bool {
    forall|i: int|
        0 <= i < g.len() ==> (#[trigger] g[i]).velocity.0.bits == 0 && g[i].velocity.1.bits == 0
}

/// The `k`-th cell of a sweep lies in the interior.
pub proof fn lemma_sweep_xy_range(w: int, h: int, k: int)
    requires
        3 <= w,
        3 <= h,
        0 <= k < (w - 2) * (h - 2),
    ensures
        1 <= sweep_x(h, k) <= w - 2,
        1 <= sweep_y(h, k) <= h - 2,
{
    lemma_div_pos_is_pos(k, h - 2);
    lemma_mod_division_less_than_divisor(k, h - 2);
    assert(k < (h - 2) * (w - 2)) by (nonlinear_arith)
        requires
            k < (w - 2) * (h - 2),
    ;
    lemma_multiply_divide_lt(k, h - 2, w - 2);
}

/// A relaxation of a grid at rest moves nothing: every correction term
/// is zero, so all velocities stay exactly zero.
pub proof fn lemma_relax_cell_zero(
    g: Seq<FluidCell>,
    w: int,
    h: int,
    ts: int,
    dens: int,
    om: int,
    first: bool,
    x: int,
    y: int,
)
    requires
        g.len() == w * h,
        3 <= w,
        3 <= h,
        1 <= x <= w - 2,
        1 <= y <= h - 2,
        all_velocities_zero(g),
    ensures
        relax_cell(g, h, ts, dens, om, first, x, y).len() == g.len(),
        all_velocities_zero(relax_cell(g, h, ts, dens, om, first, x, y)),
{
    lemma_gidx_bound(h, w, x, y);
    lemma_gidx_bound(h, w, x - 1, y);
    lemma_gidx_bound(h, w, x + 1, y);
    lemma_gidx_bound(h, w, x, y - 1);
    lemma_gidx_bound(h, w, x, y + 1);
    let c = cell_at(g, h, x, y);
    if c.state != CellState::Wall {
        let n = open_faces(g, h, x, y);
        if n != 0 {
            lemma_tdiv_of0(FX_SCALE as int);
            lemma_tdiv_of0(n);
            assert(raw_divergence(g, h, x, y) == 0);
            assert(0int * om == 0) by (nonlinear_arith);
            assert(fmul(0, om) == 0);
            assert(fdivn(fmul(raw_divergence(g, h, x, y), om), n) == 0);
        }
    }
}

/// A partial sweep of a grid at rest leaves it at rest.
pub proof fn lemma_sweep_k_zero(
    g0: Seq<FluidCell>,
    w: int,
    h: int,
    ts: int,
    dens: int,
    om: int,
    first: bool,
    k: int,
)
    requires
        g0.len() == w * h,
        3 <= w,
        3 <= h,
        0 <= k <= (w - 2) * (h - 2),
        all_velocities_zero(g0),
    ensures
        sweep_k(g0, h, ts, dens, om, first, k).len() == g0.len(),
        all_velocities_zero(sweep_k(g0, h, ts, dens, om, first, k)),
    decreases k,
{
    if k > 0 {
        lemma_sweep_k_zero(g0, w, h, ts, dens, om, first, k - 1);
        lemma_sweep_xy_range(w, h, k - 1);
        lemma_relax_cell_zero(
            sweep_k(g0, h, ts, dens, om, first, k - 1),
            w,
            h,
            ts,
            dens,
            om,
            first,
            sweep_x(h, k - 1),
            sweep_y(h, k - 1),
        );
    }
}

/// Any number of relaxation sweeps of a grid at rest leaves it at rest.
pub proof fn lemma_solve_iters_zero(
    g0: Seq<FluidCell>,
    w: int,
    h: int,
    ts: int,
    dens: int,
    om: int,
    n: int,
)
    requires
        g0.len() == w * h,
        3 <= w,
        3 <= h,
        all_velocities_zero(g0),
    ensures
        solve_iters(g0, w, h, ts, dens, om, n).len() == g0.len(),
        all_velocities_zero(solve_iters(g0, w, h, ts, dens, om, n)),
    decreases n,
{
    if n > 0 {
        lemma_solve_iters_zero(g0, w, h, ts, dens, om, n - 1);
        assert((w - 2) * (h - 2) >= 0) by (nonlinear_arith)
            requires
                3 <= w,
                3 <= h,
        ;
        lemma_sweep_k_zero(
            solve_iters(g0, w, h, ts, dens, om, n - 1),
            w,
            h,
            ts,
            dens,
            om,
            n == 1,
            (w - 2) * (h - 2),
        );
    }
}

/// Sampling any point of a grid at rest yields exactly zero: all four
/// corner samples are zero and every blend term vanishes.
pub proof fn lemma_sample_u_zero(g: Seq<FluidCell>, w: int, h: int, xb: int, yb: int)
    requires
        g.len() == w * h,
        3 <= w,
        3 <= h,
        all_velocities_zero(g),
    ensures
        sample_u_spec(g, w, h, xb, yb) == 0,
{
    let xi = clamp_idx(crate::fixed::fx_floor(xb), w);
    let yi = clamp_idx(crate::fixed::fx_floor(fsub(yb, crate::fixed::FX_HALF as int)), h);
    lemma_gidx_bound(h, w, xi, yi);
    lemma_gidx_bound(h, w, xi + 1, yi);
    lemma_gidx_bound(h, w, xi + 1, yi + 1);
    lemma_gidx_bound(h, w, xi, yi + 1);
    lemma_tdiv_of0(FX_SCALE as int);
}

/// See [`lemma_sample_u_zero`].
pub proof fn lemma_sample_v_zero(g: Seq<FluidCell>, w: int, h: int, xb: int, yb: int)
    requires
        g.len() == w * h,
        3 <= w,
        3 <= h,
        all_velocities_zero(g),
    ensures
        sample_v_spec(g, w, h, xb, yb) == 0,
{
    let xi = clamp_idx(crate::fixed::fx_floor(fsub(xb, crate::fixed::FX_HALF as int)), w);
    let yi = clamp_idx(crate::fixed::fx_floor(yb), h);
    lemma_gidx_bound(h, w, xi, yi);
    lemma_gidx_bound(h, w, xi + 1, yi);
    lemma_gidx_bound(h, w, xi + 1, yi + 1);
    lemma_gidx_bound(h, w, xi, yi + 1);
    lemma_tdiv_of0(FX_SCALE as int);
}

/// Advecting a grid at rest leaves it at rest: valid faces resample a
/// field of zeros, and wall-adjacent faces are forced to zero anyway.
pub proof fn lemma_advect_grid_zero(g: Seq<FluidCell>, w: int, h: int, ts: int)
    requires
        g.len() == w * h,
        3 <= w,
        3 <= h,
        all_velocities_zero(g),
    ensures
        advect_grid(g, w, h, ts).len() == g.len(),
        all_velocities_zero(advect_grid(g, w, h, ts)),
{
    let g2 = advect_grid(g, w, h, ts);
    assert forall|i: int| 0 <= i < g2.len() implies (#[trigger] g2[i]).velocity.0.bits == 0
        && g2[i].velocity.1.bits == 0 by {
        reveal(advect_u_bits);
        reveal(advect_v_bits);
        let x = i / h;
        let y = i % h;
        if 1 <= x < w - 1 && 1 <= y < h - 1 {
            lemma_gidx_bound(h, w, x - 1, y);
            lemma_gidx_bound(h, w, x + 1, y);
            lemma_gidx_bound(h, w, x, y - 1);
            lemma_gidx_bound(h, w, x, y + 1);
            lemma_gidx_bound(h, w, x - 1, y + 1);
            lemma_gidx_bound(h, w, x + 1, y - 1);
            lemma_gidx_bound(h, w, x, y);
            lemma_tdiv_of0(FX_SCALE as int);
            lemma_tdiv_of0(4);
            if !is_wall(g, h, x, y) && !is_wall(g, h, x - 1, y) {
                lemma_sample_u_zero(
                    g,
                    w,
                    h,
                    fsub(int_to_fx(x), fmul(ts, 0)),
                    fsub(fadd(int_to_fx(y), crate::fixed::FX_HALF as int), fmul(ts, 0)),
                );
            }
            if !is_wall(g, h, x, y) && !is_wall(g, h, x, y - 1) {
                lemma_sample_v_zero(
                    g,
                    w,
                    h,
                    fsub(fadd(int_to_fx(x), crate::fixed::FX_HALF as int), fmul(ts, 0)),
                    fsub(int_to_fx(y), fmul(ts, 0)),
                );
            }
        }
    }
}

/// Quiescence: one full step (a solve followed by an advection) of a
/// grid whose velocities are all exactly zero leaves every velocity
/// exactly zero.  By induction the fluid stays at rest for any number
/// of steps, whatever the walls, timestep or configuration.
pub proof fn lemma_step_quiescent(
    g0: Seq<FluidCell>,
    w: int,
    h: int,
    ts: int,
    dens: int,
    om: int,
    n: int,
)
    requires
        g0.len() == w * h,
        3 <= w,
        3 <= h,
        all_velocities_zero(g0),
    ensures
        all_velocities_zero(advect_grid(solve_iters(g0, w, h, ts, dens, om, n), w, h, ts)),
        advect_grid(solve_iters(g0, w, h, ts, dens, om, n), w, h, ts).len() == g0.len(),
{
    lemma_solve_iters_zero(g0, w, h, ts, dens, om, n);
    lemma_advect_grid_zero(solve_iters(g0, w, h, ts, dens, om, n), w, h, ts);
}

/// The two grids have the same cell states everywhere.
pub open spec fn same_states(a: Seq<FluidCell>, b: Seq<FluidCell>) -> bool {
    a.len() == b.len() && (forall|i: int|
        0 <= i < a.len() ==> (#[trigger] b[i]).state == a[i].state)
}

/// Every face shared between two cells of which one is a wall carries
/// an exactly zero velocity component.
pub open spec fn wall_faces_zero(g: Seq<FluidCell>, w: int, h: int) -> bool {
    (forall|x: int, y: int|
        1 <= x < w && 0 <= y < h && (is_wall(g, h, x - 1, y) || is_wall(g, h, x, y))
            ==> #[trigger] u_at(g, h, x, y) == 0) && (forall|x: int, y: int|
        0 <= x < w && 1 <= y < h && (is_wall(g, h, x, y - 1) || is_wall(g, h, x, y))
            ==> #[trigger] v_at(g, h, x, y) == 0)
}

/// A relaxation never pushes a correction through a wall face: every
/// write is guarded by the fluid indicator of the neighbor behind the
/// face, so wall-adjacent faces keep their exact zero, and no state
/// changes.
pub proof fn lemma_relax_cell_walls(
    g: Seq<FluidCell>,
    w: int,
    h: int,
    ts: int,
    dens: int,
    om: int,
    first: bool,
    x: int,
    y: int,
)
    requires
        g.len() == w * h,
        3 <= w,
        3 <= h,
        1 <= x <= w - 2,
        1 <= y <= h - 2,
        wall_faces_zero(g, w, h),
    ensures
        same_states(g, relax_cell(g, h, ts, dens, om, first, x, y)),
        wall_faces_zero(relax_cell(g, h, ts, dens, om, first, x, y), w, h),
{
    lemma_gidx_bound(h, w, x, y);
    lemma_gidx_bound(h, w, x - 1, y);
    lemma_gidx_bound(h, w, x + 1, y);
    lemma_gidx_bound(h, w, x, y - 1);
    lemma_gidx_bound(h, w, x, y + 1);
    let g2 = relax_cell(g, h, ts, dens, om, first, x, y);
    assert forall|i: int| 0 <= i < g.len() implies (#[trigger] g2[i]).state == g[i].state by {
        lemma_gidx_distinct(h, x, y, x, y + 1);
        lemma_gidx_distinct(h, x, y, x + 1, y);
        lemma_gidx_distinct(h, x, y + 1, x + 1, y);
    }
    assert forall|a: int, b: int|
        1 <= a < w && 0 <= b < h && (is_wall(g2, h, a - 1, b) || is_wall(
            g2,
            h,
            a,
            b,
        )) implies #[trigger] u_at(g2, h, a, b) == 0 by {
        lemma_gidx_bound(h, w, a, b);
        lemma_gidx_bound(h, w, a - 1, b);
        lemma_gidx_distinct(h, a, b, x, y);
        lemma_gidx_distinct(h, a, b, x, y + 1);
        lemma_gidx_distinct(h, a, b, x + 1, y);
        lemma_gidx_distinct(h, a - 1, b, x, y);
        lemma_gidx_distinct(h, a - 1, b, x, y + 1);
        lemma_gidx_distinct(h, a - 1, b, x + 1, y);
        lemma_gidx_distinct(h, x, y, x, y + 1);
        lemma_gidx_distinct(h, x, y, x + 1, y);
        lemma_gidx_distinct(h, x, y + 1, x + 1, y);
        assert(is_wall(g2, h, a - 1, b) == is_wall(g, h, a - 1, b));
        assert(is_wall(g2, h, a, b) == is_wall(g, h, a, b));
        assert(u_at(g, h, a, b) == 0);
    }
    assert forall|a: int, b: int|
        0 <= a < w && 1 <= b < h && (is_wall(g2, h, a, b - 1) || is_wall(
            g2,
            h,
            a,
            b,
        )) implies #[trigger] v_at(g2, h, a, b) == 0 by {
        lemma_gidx_bound(h, w, a, b);
        lemma_gidx_bound(h, w, a, b - 1);
        lemma_gidx_distinct(h, a, b, x, y);
        lemma_gidx_distinct(h, a, b, x, y + 1);
        lemma_gidx_distinct(h, a, b, x + 1, y);
        lemma_gidx_distinct(h, a, b - 1, x, y);
        lemma_gidx_distinct(h, a, b - 1, x, y + 1);
        lemma_gidx_distinct(h, a, b - 1, x + 1, y);
        lemma_gidx_distinct(h, x, y, x, y + 1);
        lemma_gidx_distinct(h, x, y, x + 1, y);
        lemma_gidx_distinct(h, x, y + 1, x + 1, y);
        assert(is_wall(g2, h, a, b - 1) == is_wall(g, h, a, b - 1));
        assert(is_wall(g2, h, a, b) == is_wall(g, h, a, b));
        assert(v_at(g, h, a, b) == 0);
    }
}

/// A partial sweep keeps every wall face at zero and every state as it
/// was.
pub proof fn lemma_sweep_k_walls(
    g0: Seq<FluidCell>,
    w: int,
    h: int,
    ts: int,
    dens: int,
    om: int,
    first: bool,
    k: int,
)
    requires
        g0.len() == w * h,
        3 <= w,
        3 <= h,
        0 <= k <= (w - 2) * (h - 2),
        wall_faces_zero(g0, w, h),
    ensures
        same_states(g0, sweep_k(g0, h, ts, dens, om, first, k)),
        wall_faces_zero(sweep_k(g0, h, ts, dens, om, first, k), w, h),
    decreases k,
{
    if k > 0 {
        lemma_sweep_k_walls(g0, w, h, ts, dens, om, first, k - 1);
        lemma_sweep_xy_range(w, h, k - 1);
        lemma_relax_cell_walls(
            sweep_k(g0, h, ts, dens, om, first, k - 1),
            w,
            h,
            ts,
            dens,
            om,
            first,
            sweep_x(h, k - 1),
            sweep_y(h, k - 1),
        );
    }
}

/// Any number of sweeps keeps every wall face at zero.
pub proof fn lemma_solve_iters_walls(
    g0: Seq<FluidCell>,
    w: int,
    h: int,
    ts: int,
    dens: int,
    om: int,
    n: int,
)
    requires
        g0.len() == w * h,
        3 <= w,
        3 <= h,
        wall_faces_zero(g0, w, h),
    ensures
        same_states(g0, solve_iters(g0, w, h, ts, dens, om, n)),
        wall_faces_zero(solve_iters(g0, w, h, ts, dens, om, n), w, h),
    decreases n,
{
    if n > 0 {
        lemma_solve_iters_walls(g0, w, h, ts, dens, om, n - 1);
        assert((w - 2) * (h - 2) >= 0) by (nonlinear_arith)
            requires
                3 <= w,
                3 <= h,
        ;
        lemma_sweep_k_walls(
            solve_iters(g0, w, h, ts, dens, om, n - 1),
            w,
            h,
            ts,
            dens,
            om,
            n == 1,
            (w - 2) * (h - 2),
        );
    }
}

/// Advection forces every interior wall-adjacent face to exactly zero
/// and leaves border-stored faces untouched, so a grid whose wall faces
/// were all zero keeps them all zero; no state changes.
pub proof fn lemma_advect_grid_walls(g: Seq<FluidCell>, w: int, h: int, ts: int)
    requires
        g.len() == w * h,
        3 <= w,
        3 <= h,
        wall_faces_zero(g, w, h),
    ensures
        same_states(g, advect_grid(g, w, h, ts)),
        wall_faces_zero(advect_grid(g, w, h, ts), w, h),
{
    let g2 = advect_grid(g, w, h, ts);
    assert forall|i: int| 0 <= i < g.len() implies (#[trigger] g2[i]).state == g[i].state by {}
    assert forall|a: int, b: int|
        1 <= a < w && 0 <= b < h && (is_wall(g2, h, a - 1, b) || is_wall(
            g2,
            h,
            a,
            b,
        )) implies #[trigger] u_at(g2, h, a, b) == 0 by {
        reveal(advect_u_bits);
        lemma_gidx_bound(h, w, a, b);
        lemma_gidx_bound(h, w, a - 1, b);
        lemma_fundamental_div_mod_converse(gidx(h, a, b), h, a, b);
        assert(is_wall(g2, h, a - 1, b) == is_wall(g, h, a - 1, b));
        assert(is_wall(g2, h, a, b) == is_wall(g, h, a, b));
        assert(u_at(g, h, a, b) == 0);
    }
    assert forall|a: int, b: int|
        0 <= a < w && 1 <= b < h && (is_wall(g2, h, a, b - 1) || is_wall(
            g2,
            h,
            a,
            b,
        )) implies #[trigger] v_at(g2, h, a, b) == 0 by {
        reveal(advect_v_bits);
        lemma_gidx_bound(h, w, a, b);
        lemma_gidx_bound(h, w, a, b - 1);
        lemma_fundamental_div_mod_converse(gidx(h, a, b), h, a, b);
        assert(is_wall(g2, h, a, b - 1) == is_wall(g, h, a, b - 1));
        assert(is_wall(g2, h, a, b) == is_wall(g, h, a, b));
        assert(v_at(g, h, a, b) == 0);
    }
}

/// The advector forces every interior wall-adjacent face to exactly
/// zero, whatever the field held before the step: the zero is written,
/// not preserved.
pub proof fn lemma_advect_forces_interior_wall_faces(g: Seq<FluidCell>, w: int, h: int, ts: int)
    requires
        g.len() == w * h,
        3 <= w,
        3 <= h,
    ensures
        forall|x: int, y: int|
            1 <= x < w - 1 && 1 <= y < h - 1 && (is_wall(g, h, x - 1, y) || is_wall(g, h, x, y))
                ==> #[trigger] u_at(advect_grid(g, w, h, ts), h, x, y) == 0,
        forall|x: int, y: int|
            1 <= x < w - 1 && 1 <= y < h - 1 && (is_wall(g, h, x, y - 1) || is_wall(g, h, x, y))
                ==> #[trigger] v_at(advect_grid(g, w, h, ts), h, x, y) == 0,
{
    assert forall|x: int, y: int|
        1 <= x < w - 1 && 1 <= y < h - 1 && (is_wall(g, h, x - 1, y) || is_wall(
            g,
            h,
            x,
            y,
        )) implies #[trigger] u_at(advect_grid(g, w, h, ts), h, x, y) == 0 by {
        reveal(advect_u_bits);
        lemma_gidx_bound(h, w, x, y);
        lemma_fundamental_div_mod_converse(gidx(h, x, y), h, x, y);
    }
    assert forall|x: int, y: int|
        1 <= x < w - 1 && 1 <= y < h - 1 && (is_wall(g, h, x, y - 1) || is_wall(
            g,
            h,
            x,
            y,
        )) implies #[trigger] v_at(advect_grid(g, w, h, ts), h, x, y) == 0 by {
        reveal(advect_v_bits);
        lemma_gidx_bound(h, w, x, y);
        lemma_fundamental_div_mod_converse(gidx(h, x, y), h, x, y);
    }
}

/// Wall impermeability: a full step (a solve followed by an advection)
/// of a grid whose wall-adjacent faces are all exactly zero leaves
/// every wall-adjacent face exactly zero, and changes no cell state.
/// Fresh grids have no wall, and [`lemma_set_state_walls`] shows that
/// marking walls keeps the property, so it holds after every step of
/// any caller that never writes a velocity into a wall face.
pub proof fn lemma_step_wall_impermeable(
    g0: Seq<FluidCell>,
    w: int,
    h: int,
    ts: int,
    dens: int,
    om: int,
    n: int,
)
    requires
        g0.len() == w * h,
        3 <= w,
        3 <= h,
        wall_faces_zero(g0, w, h),
    ensures
        same_states(g0, advect_grid(solve_iters(g0, w, h, ts, dens, om, n), w, h, ts)),
        wall_faces_zero(advect_grid(solve_iters(g0, w, h, ts, dens, om, n), w, h, ts), w, h),
{
    lemma_solve_iters_walls(g0, w, h, ts, dens, om, n);
    lemma_advect_grid_walls(solve_iters(g0, w, h, ts, dens, om, n), w, h, ts);
}

/// Marking or clearing a wall keeps every wall-adjacent face at zero:
/// a cell becoming a wall has its own faces and the two abutting
/// neighbor faces zeroed, and a wall becoming fluid only weakens the
/// condition.
pub proof fn lemma_set_state_walls(
    g: Seq<FluidCell>,
    w: int,
    h: int,
    x: int,
    y: int,
    s: CellState,
)
    requires
        g.len() == w * h,
        3 <= w,
        3 <= h,
        0 <= x < w,
        0 <= y < h,
        wall_faces_zero(g, w, h),
    ensures
        wall_faces_zero(set_state_spec(g, w, h, x, y, s), w, h),
{
    lemma_gidx_bound(h, w, x, y);
    if y + 1 < h {
        lemma_gidx_bound(h, w, x, y + 1);
    }
    if x + 1 < w {
        lemma_gidx_bound(h, w, x + 1, y);
    }
    let g2 = set_state_spec(g, w, h, x, y, s);
    assert forall|a: int, b: int|
        1 <= a < w && 0 <= b < h && (is_wall(g2, h, a - 1, b) || is_wall(
            g2,
            h,
            a,
            b,
        )) implies #[trigger] u_at(g2, h, a, b) == 0 by {
        lemma_gidx_bound(h, w, a, b);
        lemma_gidx_bound(h, w, a - 1, b);
        lemma_gidx_distinct(h, a, b, x, y);
        lemma_gidx_distinct(h, a - 1, b, x, y);
        if y + 1 < h {
            lemma_gidx_distinct(h, a, b, x, y + 1);
            lemma_gidx_distinct(h, a - 1, b, x, y + 1);
            lemma_gidx_distinct(h, x, y, x, y + 1);
        }
        if x + 1 < w {
            lemma_gidx_distinct(h, a, b, x + 1, y);
            lemma_gidx_distinct(h, a - 1, b, x + 1, y);
            lemma_gidx_distinct(h, x, y, x + 1, y);
            if y + 1 < h {
                lemma_gidx_distinct(h, x, y + 1, x + 1, y);
            }
        }
        let c0 = cell_at(g, h, x, y);
        if c0.state == s {
            assert(u_at(g, h, a, b) == 0);
        } else if c0.state == CellState::Fluid {
            if a == x && b == y {
                assert(u_at(g2, h, a, b) == 0);
            } else if a - 1 == x && b == y {
                assert(u_at(g2, h, a, b) == 0);
            } else {
                assert(is_wall(g2, h, a - 1, b) == is_wall(g, h, a - 1, b) || (a - 1 == x && b
                    == y));
                assert(is_wall(g2, h, a, b) == is_wall(g, h, a, b) || (a == x && b == y));
                assert(u_at(g, h, a, b) == 0);
                assert(u_at(g2, h, a, b) == u_at(g, h, a, b));
            }
        } else {
            assert(u_at(g2, h, a, b) == u_at(g, h, a, b));
            if (a == x && b == y) || (a - 1 == x && b == y) {
                assert(is_wall(g, h, x, y));
                assert(u_at(g, h, a, b) == 0);
            } else {
                assert(u_at(g, h, a, b) == 0);
            }
        }
    }
    assert forall|a: int, b: int|
        0 <= a < w && 1 <= b < h && (is_wall(g2, h, a, b - 1) || is_wall(
            g2,
            h,
            a,
            b,
        )) implies #[trigger] v_at(g2, h, a, b) == 0 by {
        lemma_gidx_bound(h, w, a, b);
        lemma_gidx_bound(h, w, a, b - 1);
        lemma_gidx_distinct(h, a, b, x, y);
        lemma_gidx_distinct(h, a, b - 1, x, y);
        if y + 1 < h {
            lemma_gidx_distinct(h, a, b, x, y + 1);
            lemma_gidx_distinct(h, a, b - 1, x, y + 1);
            lemma_gidx_distinct(h, x, y, x, y + 1);
        }
        if x + 1 < w {
            lemma_gidx_distinct(h, a, b, x + 1, y);
            lemma_gidx_distinct(h, a, b - 1, x + 1, y);
            lemma_gidx_distinct(h, x, y, x + 1, y);
            if y + 1 < h {
                lemma_gidx_distinct(h, x, y + 1, x + 1, y);
            }
        }
        let c0 = cell_at(g, h, x, y);
        if c0.state == s {
            assert(v_at(g, h, a, b) == 0);
        } else if c0.state == CellState::Fluid {
            if a == x && b == y {
                assert(v_at(g2, h, a, b) == 0);
            } else if a == x && b - 1 == y {
                assert(v_at(g2, h, a, b) == 0);
            } else {
                assert(is_wall(g2, h, a, b - 1) == is_wall(g, h, a, b - 1) || (a == x && b - 1
                    == y));
                assert(is_wall(g2, h, a, b) == is_wall(g, h, a, b) || (a == x && b == y));
                assert(v_at(g, h, a, b) == 0);
                assert(v_at(g2, h, a, b) == v_at(g, h, a, b));
            }
        } else {
            assert(v_at(g2, h, a, b) == v_at(g, h, a, b));
            if (a == x && b == y) || (a == x && b - 1 == y) {
                assert(is_wall(g, h, x, y));
                assert(v_at(g, h, a, b) == 0);
            } else {
                assert(v_at(g, h, a, b) == 0);
            }
        }
    }
}

/// State-transition idempotence: applying `set_cell_state` a second
/// time with the same target state changes nothing, because after the
/// first application the cell's state already equals the target and
/// the transition is a no-op.
pub proof fn lemma_set_cell_state_idempotent(
    g: Seq<FluidCell>,
    w: int,
    h: int,
    x: int,
    y: int,
    s: CellState,
)
    requires
        g.len() == w * h,
        3 <= w,
        3 <= h,
        0 <= x < w,
        0 <= y < h,
    ensures
        set_state_spec(set_state_spec(g, w, h, x, y, s), w, h, x, y, s) == set_state_spec(
            g,
            w,
            h,
            x,
            y,
            s,
        ),
{
    lemma_gidx_bound(h, w, x, y);
    if y + 1 < h {
        lemma_gidx_bound(h, w, x, y + 1);
        lemma_gidx_distinct(h, x, y, x, y + 1);
    }
    if x + 1 < w {
        lemma_gidx_bound(h, w, x + 1, y);
        lemma_gidx_distinct(h, x, y, x + 1, y);
    }
    let g1 = set_state_spec(g, w, h, x, y, s);
    assert(cell_at(g1, h, x, y).state == s);
}

/// The four-corner blend with both fractional offsets exactly zero
/// collapses to the base corner, bit for bit.
pub proof fn lemma_bilinear_exact(c00: int, c10: int, c11: int, c01: int)
    requires
        i64::MIN <= c00 <= i64::MAX,
    ensures
        bilinear(c00, c10, c11, c01, 0, 0) == c00,
{
    let s = FX_SCALE as int;
    lemma_tdiv_scale_cancel(s);
    assert(fmul(s, s) == s);
    lemma_tdiv_scale_cancel(c00);
    assert(fmul(s, c00) == c00);
    lemma_tdiv_of0(s);
    assert(0int * c10 == 0) by (nonlinear_arith);
    assert(0int * c11 == 0) by (nonlinear_arith);
    assert(0int * c01 == 0) by (nonlinear_arith);
    assert(fmul(0, c10) == 0);
    assert(fmul(0, c11) == 0);
    assert(fmul(0, c01) == 0);
    assert(fmul(fmul(0, s), c10) == 0);
    assert(fmul(fmul(0, 0), c11) == 0);
    assert(fmul(fmul(s, 0), c01) == 0);
}

/// Sampler exactness for `u`: querying exactly at the stored location
/// of the `u` sample of interior cell `(i, j)` -- the point
/// `(i, j + 1/2)` -- returns the stored value bit for bit, because the
/// interpolation weights collapse to zeros and ones.
pub proof fn lemma_sample_u_exact(g: Seq<FluidCell>, w: int, h: int, i: int, j: int)
    requires
        g.len() == w * h,
        3 <= w <= 0x80000000,
        3 <= h <= 0x80000000,
        1 <= i <= w - 2,
        1 <= j <= h - 2,
    ensures
        sample_u_spec(g, w, h, int_to_fx(i), fadd(int_to_fx(j), FX_HALF as int)) == u_at(
            g,
            h,
            i,
            j,
        ),
{
    let s = FX_SCALE as int;
    let xb = int_to_fx(i);
    let yb = fadd(int_to_fx(j), FX_HALF as int);
    assert(xb == i * s);
    assert(yb == j * s + FX_HALF);
    lemma_div_multiples_vanish(i, s);
    lemma_div_multiples_vanish(j, s);
    assert(fx_floor(xb) == i);
    assert(fsub(yb, FX_HALF as int) == j * s);
    assert(fx_floor(fsub(yb, FX_HALF as int)) == j);
    assert(clamp_idx(i, w) == i);
    assert(clamp_idx(j, h) == j);
    assert(fsub(xb, int_to_fx(i)) == 0);
    assert(fsub(yb, fadd(int_to_fx(j), FX_HALF as int)) == 0);
    lemma_gidx_bound(h, w, i, j);
    lemma_bilinear_exact(
        u_at(g, h, i, j),
        u_at(g, h, i + 1, j),
        u_at(g, h, i + 1, j + 1),
        u_at(g, h, i, j + 1),
    );
}

/// Sampler exactness for `v`: querying at `(i + 1/2, j)` returns the
/// stored `v` sample of interior cell `(i, j)` bit for bit.
pub proof fn lemma_sample_v_exact(g: Seq<FluidCell>, w: int, h: int, i: int, j: int)
    requires
        g.len() == w * h,
        3 <= w <= 0x80000000,
        3 <= h <= 0x80000000,
        1 <= i <= w - 2,
        1 <= j <= h - 2,
    ensures
        sample_v_spec(g, w, h, fadd(int_to_fx(i), FX_HALF as int), int_to_fx(j)) == v_at(
            g,
            h,
            i,
            j,
        ),
{
    let s = FX_SCALE as int;
    let xb = fadd(int_to_fx(i), FX_HALF as int);
    let yb = int_to_fx(j);
    assert(xb == i * s + FX_HALF);
    assert(yb == j * s);
    lemma_div_multiples_vanish(i, s);
    lemma_div_multiples_vanish(j, s);
    assert(fsub(xb, FX_HALF as int) == i * s);
    assert(fx_floor(fsub(xb, FX_HALF as int)) == i);
    assert(fx_floor(yb) == j);
    assert(clamp_idx(i, w) == i);
    assert(clamp_idx(j, h) == j);
    assert(fsub(xb, fadd(int_to_fx(i), FX_HALF as int)) == 0);
    assert(fsub(yb, int_to_fx(j)) == 0);
    lemma_gidx_bound(h, w, i, j);
    lemma_bilinear_exact(
        v_at(g, h, i, j),
        v_at(g, h, i + 1, j),
        v_at(g, h, i + 1, j + 1),
        v_at(g, h, i, j + 1),
    );
}

/// A relaxation writes the divergence diagnostic of its own cell
/// during the first sweep and never touches any other cell's
/// diagnostic.
pub proof fn lemma_relax_cell_keeps_divergence(
    g: Seq<FluidCell>,
    w: int,
    h: int,
    ts: int,
    dens: int,
    om: int,
    first: bool,
    x: int,
    y: int,
)
    requires
        g.len() == w * h,
        3 <= w,
        3 <= h,
        1 <= x <= w - 2,
        1 <= y <= h - 2,
    ensures
        relax_cell(g, h, ts, dens, om, first, x, y).len() == g.len(),
        forall|i: int|
            0 <= i < g.len() && (!first || i != gidx(h, x, y)) ==> (#[trigger] relax_cell(
                g,
                h,
                ts,
                dens,
                om,
                first,
                x,
                y,
            )[i]).divergence == g[i].divergence,
{
    lemma_gidx_bound(h, w, x, y);
    lemma_gidx_bound(h, w, x + 1, y);
    lemma_gidx_bound(h, w, x, y + 1);
    lemma_gidx_distinct(h, x, y, x, y + 1);
    lemma_gidx_distinct(h, x, y, x + 1, y);
    lemma_gidx_distinct(h, x, y + 1, x + 1, y);
}

/// A sweep without the first-sweep flag leaves every divergence
/// diagnostic as it was.
pub proof fn lemma_sweep_k_keeps_divergence(
    g0: Seq<FluidCell>,
    w: int,
    h: int,
    ts: int,
    dens: int,
    om: int,
    k: int,
)
    requires
        g0.len() == w * h,
        3 <= w,
        3 <= h,
        0 <= k <= (w - 2) * (h - 2),
    ensures
        sweep_k(g0, h, ts, dens, om, false, k).len() == g0.len(),
        forall|i: int|
            0 <= i < g0.len() ==> (#[trigger] sweep_k(g0, h, ts, dens, om, false, k)[i]).divergence
                == g0[i].divergence,
    decreases k,
{
    if k > 0 {
        lemma_sweep_k_keeps_divergence(g0, w, h, ts, dens, om, k - 1);
        lemma_sweep_xy_range(w, h, k - 1);
        lemma_relax_cell_keeps_divergence(
            sweep_k(g0, h, ts, dens, om, false, k - 1),
            w,
            h,
            ts,
            dens,
            om,
            false,
            sweep_x(h, k - 1),
            sweep_y(h, k - 1),
        );
    }
}

/// During the first sweep, once cell `(1, 1)` -- the first cell the
/// sweep visits -- has recorded its raw divergence, no later relaxation
/// of the sweep overwrites it.
pub proof fn lemma_sweep_k_first_cell_snapshot(
    g0: Seq<FluidCell>,
    w: int,
    h: int,
    ts: int,
    dens: int,
    om: int,
    k: int,
)
    requires
        g0.len() == w * h,
        3 <= w,
        3 <= h,
        1 <= k <= (w - 2) * (h - 2),
        !is_wall(g0, h, 1, 1),
        open_faces(g0, h, 1, 1) != 0,
    ensures
        sweep_k(g0, h, ts, dens, om, true, k).len() == g0.len(),
        cell_at(sweep_k(g0, h, ts, dens, om, true, k), h, 1, 1).divergence.bits as int
            == raw_divergence(g0, h, 1, 1),
    decreases k,
{
    lemma_gidx_bound(h, w, 1, 1);
    if k == 1 {
        lemma_div_of0(h - 2);
        lemma_small_mod(0, (h - 2) as nat);
        assert(sweep_x(h, 0) == 1);
        assert(sweep_y(h, 0) == 1);
        lemma_gidx_bound(h, w, 2, 1);
        lemma_gidx_bound(h, w, 1, 2);
        lemma_gidx_bound(h, w, 0, 1);
        lemma_gidx_bound(h, w, 1, 0);
        lemma_gidx_distinct(h, 1, 1, 1, 2);
        lemma_gidx_distinct(h, 1, 1, 2, 1);
        lemma_gidx_distinct(h, 1, 2, 2, 1);
    } else {
        lemma_sweep_k_first_cell_snapshot(g0, w, h, ts, dens, om, k - 1);
        lemma_sweep_xy_range(w, h, k - 1);
        let x = sweep_x(h, k - 1);
        let y = sweep_y(h, k - 1);
        lemma_fundamental_div_mod(k - 1, h - 2);
        if x == 1 && y == 1 {
            assert((h - 2) * ((k - 1) / (h - 2)) == 0) by (nonlinear_arith)
                requires
                    (k - 1) / (h - 2) == 0,
            ;
            assert(false);
        }
        assert(!(x == 1 && y == 1));
        lemma_gidx_distinct(h, 1, 1, x, y);
        lemma_relax_cell_keeps_divergence(
            sweep_k(g0, h, ts, dens, om, true, k - 1),
            w,
            h,
            ts,
            dens,
            om,
            true,
            x,
            y,
        );
    }
}

/// Divergence snapshot exactness: after a solve of one or more sweeps,
/// the divergence diagnostic of cell `(1, 1)` -- the first interior
/// cell the first sweep visits -- holds exactly the raw divergence that
/// cell had in the grid the solve started from, provided the cell took
/// part in the relaxation (not a wall, at least one open face).  Only
/// the first sweep records diagnostics; later sweeps never overwrite
/// them.
pub proof fn lemma_divergence_snapshot(
    g0: Seq<FluidCell>,
    w: int,
    h: int,
    ts: int,
    dens: int,
    om: int,
    n: int,
)
    requires
        g0.len() == w * h,
        3 <= w,
        3 <= h,
        n >= 1,
        !is_wall(g0, h, 1, 1),
        open_faces(g0, h, 1, 1) != 0,
    ensures
        solve_iters(g0, w, h, ts, dens, om, n).len() == g0.len(),
        cell_at(solve_iters(g0, w, h, ts, dens, om, n), h, 1, 1).divergence.bits as int
            == raw_divergence(g0, h, 1, 1),
    decreases n,
{
    assert((w - 2) * (h - 2) >= 1) by (nonlinear_arith)
        requires
            3 <= w,
            3 <= h,
    ;
    if n == 1 {
        lemma_sweep_k_first_cell_snapshot(g0, w, h, ts, dens, om, (w - 2) * (h - 2));
    } else {
        lemma_divergence_snapshot(g0, w, h, ts, dens, om, n - 1);
        lemma_gidx_bound(h, w, 1, 1);
        lemma_sweep_k_keeps_divergence(
            solve_iters(g0, w, h, ts, dens, om, n - 1),
            w,
            h,
            ts,
            dens,
            om,
            (w - 2) * (h - 2),
        );
    }
}

} // verus!
