//! The MAC-grid data model and the state-transition rule.
//!
//! A [`FluidDomain`] owns a rectangular array of [`FluidCell`]s with a
//! staggered velocity layout: the `u` component of a cell lives on its
//! left face and the `v` component on its bottom face.  Cells are kept
//! in a flat backing vector in column-major order (`x * height + y`).

use vstd::prelude::*;
use vstd::arithmetic::div_mod::lemma_fundamental_div_mod_converse;
use crate::fixed::{Fixed, FX_SCALE, FX_HALF, fadd, fsub, fmul, fdiv, fdivn, fx_floor, int_to_fx};

verus! {

/// What a grid cell is made of: solid wall or fluid.
#[derive(Clone, Copy, PartialEq, Eq, Structural, Debug)]
pub enum CellState {
    Wall,
    Fluid,
}

/// One grid cell: staggered face velocities, the diagnostic divergence
/// snapshot of the first relaxation sweep, the accumulated pressure
/// correction, and the cell state.
#[derive(Clone, Copy, PartialEq, Eq, Debug)]
pub struct FluidCell {
    /// `(u, v)`: `u` on the left face, `v` on the bottom face.
    pub velocity: (Fixed, Fixed),
    /// Raw divergence recorded during the first sweep of the last solve.
    pub divergence: Fixed,
    /// Wall or Fluid.
    pub state: CellState,
    /// Accumulated pressure correction of the last solve.
    pub pressure: Fixed,
}

/// The state every cell starts in: fluid, at rest, with no recorded
/// divergence or pressure.
pub open spec fn default_cell() -> FluidCell {
    FluidCell {
        velocity: (Fixed { bits: 0 }, Fixed { bits: 0 }),
        divergence: Fixed { bits: 0 },
        state: CellState::Fluid,
        pressure: Fixed { bits: 0 },
    }
}

impl Default for FluidCell {
    fn default() -> (r: Self)
        ensures
            r == default_cell(),
    {
        FluidCell {
            velocity: (Fixed { bits: 0 }, Fixed { bits: 0 }),
            divergence: Fixed { bits: 0 },
            state: CellState::Fluid,
            pressure: Fixed { bits: 0 },
        }
    }
}

/// Linear index of cell `(x, y)` in a grid of height `h`.
pub open spec fn gidx(h: int, x: int, y: int) -> int {
    x * h + y
}

/// The cell at `(x, y)` of the flat grid `g` with height `h`.
pub open spec fn cell_at(g: Seq<FluidCell>, h: int, x: int, y: int) -> FluidCell {
    g[gidx(h, x, y)]
}

/// Bit value of the `u` face velocity stored at `(x, y)`.
pub open spec fn u_at(g: Seq<FluidCell>, h: int, x: int, y: int) -> int {
    cell_at(g, h, x, y).velocity.0.bits as int
}

/// Bit value of the `v` face velocity stored at `(x, y)`.
pub open spec fn v_at(g: Seq<FluidCell>, h: int, x: int, y: int) -> int {
    cell_at(g, h, x, y).velocity.1.bits as int
}

/// Whether the cell at `(x, y)` is a wall.
pub open spec fn is_wall(g: Seq<FluidCell>, h: int, x: int, y: int) -> bool {
    cell_at(g, h, x, y).state == CellState::Wall
}

/// 1 for a fluid cell, 0 for a wall: the weight with which a neighbor
/// takes part in a divergence correction.
pub open spec fn fluid_ind(g: Seq<FluidCell>, h: int, x: int, y: int) -> int {
    if is_wall(g, h, x, y) {
        0
    } else {
        1
    }
}

/// In-bounds coordinates give an in-bounds linear index.
pub proof fn lemma_gidx_bound(h: int, w: int, x: int, y: int)
    by (nonlinear_arith)
    requires
        0 <= x < w,
        0 <= y < h,
    ensures
        0 <= x * h + y < w * h,
{
}

/// Two in-bounds coordinate pairs share a linear index exactly when
/// they are the same pair.
pub proof fn lemma_gidx_distinct(h: int, x1: int, y1: int, x2: int, y2: int)
    by (nonlinear_arith)
    requires
        0 <= y1 < h,
        0 <= y2 < h,
    ensures
        (x1 * h + y1 == x2 * h + y2) <==> (x1 == x2 && y1 == y2),
{
}

/// Why a domain could not be constructed.
#[derive(Clone, Copy, PartialEq, Eq, Structural, Debug)]
pub enum ConfigError {
    /// Width or height below 3: there would be no interior.
    GridTooSmall,
    /// Timestep zero or negative: the pressure correction divides by it.
    InvalidTimestep,
}

/// A rectangular staggered grid of cells together with the simulation
/// configuration: the timestep, the fluid density, the over-relaxation
/// factor and the number of relaxation sweeps per solve.
#[derive(Debug)]
pub struct FluidDomain {
    /// The cells, flat, cell `(x, y)` at index `x * height + y`.
    pub fluid_grid: Vec<FluidCell>,
    /// Number of columns.
    pub width: usize,
    /// Number of rows.
    pub height: usize,
    /// Timestep used by the pressure correction and the advection.
    pub timestep: Fixed,
    /// Fluid density used by the pressure correction.
    pub density: Fixed,
    /// Over-relaxation factor applied to each divergence correction.
    pub relaxation: Fixed,
    /// Number of relaxation sweeps each solve runs.
    pub sweeps: u32,
}

impl FluidDomain {
    /// Well-formedness: at least a one-cell interior in each axis, grid
    /// extents representable in the Q31.32 coordinate space, a backing
    /// vector of exactly `width * height` cells and a positive timestep.
    pub open spec fn wf(self) -> bool {
        &&& 3 <= self.width <= 0x80000000
        &&& 3 <= self.height <= 0x80000000
        &&& self.fluid_grid@.len() == self.width * self.height
        &&& self.timestep.bits > 0
    }

    /// The cell at `(x, y)`.
    pub open spec fn cell(self, x: int, y: int) -> FluidCell {
        cell_at(self.fluid_grid@, self.height as int, x, y)
    }

    /// Everything but the cells: dimensions and configuration.
    pub open spec fn same_config(self, o: FluidDomain) -> bool {
        &&& self.width == o.width
        &&& self.height == o.height
        &&& self.timestep == o.timestep
        &&& self.density == o.density
        &&& self.relaxation == o.relaxation
        &&& self.sweeps == o.sweeps
    }

    /// Build a domain of `width x height` cells, all fluid and at rest,
    /// with the default water density, over-relaxation factor and sweep
    /// count.  Rejects grids that would have no interior and timesteps
    /// that the pressure correction could not divide by.
    ///
    /// The two `requires` are machine limits: the cells live in one
    /// allocation, and cell coordinates must be representable in the
    /// integer part of a Q31.32 scalar.
    pub fn new(width: usize, height: usize, timestep: Fixed) -> (r: Result<
        FluidDomain,
        ConfigError,
    >)
        requires
            width * height <= usize::MAX,
            width <= 0x80000000,
            height <= 0x80000000,
        ensures
            ({
                let ok = width >= 3 && height >= 3 && timestep.bits > 0;
                match r {
                    Ok(d) => {
                        &&& ok
                        &&& d.wf()
                        &&& d.width == width
                        &&& d.height == height
                        &&& d.timestep == timestep
                        &&& d.density.bits as int == int_to_fx(1000)
                        &&& d.relaxation.bits as int == fdiv(19, 10)
                        &&& d.sweeps == 40
                        &&& forall|i: int|
                            0 <= i < d.fluid_grid@.len() ==> d.fluid_grid@[i] == default_cell()
                    },
                    Err(e) => {
                        &&& !ok
                        &&& e == (if width < 3 || height < 3 {
                            ConfigError::GridTooSmall
                        } else {
                            ConfigError::InvalidTimestep
                        })
                    },
                }
            }),
    {
        if width < 3 || height < 3 {
            return Err(ConfigError::GridTooSmall);
        }
        if timestep.bits <= 0 {
            return Err(ConfigError::InvalidTimestep);
        }
        let n = width * height;
        let mut cells: Vec<FluidCell> = Vec::new();
        let mut i: usize = 0;
        while i < n
            invariant
                i <= n,
                cells@.len() == i,
                forall|j: int| 0 <= j < i ==> cells@[j] == default_cell(),
            decreases n - i,
        {
            cells.push(FluidCell::default());
            i = i + 1;
        }
        Ok(
            FluidDomain {
                fluid_grid: cells,
                width,
                height,
                timestep,
                density: Fixed::from_int(1000),
                relaxation: Fixed::from_ratio(19, 10),
                sweeps: 40,
            },
        )
    }

    /// Read the cell at `(x, y)`.
    pub fn get_cell(&self, x: usize, y: usize) -> (c: FluidCell)
        requires
            self.wf(),
            x < self.width,
            y < self.height,
        ensures
            c == self.cell(x as int, y as int),
    {
        proof {
            lemma_gidx_bound(self.height as int, self.width as int, x as int, y as int);
            assert(self.fluid_grid.len() == self.fluid_grid@.len());
        }
        self.fluid_grid[x * self.height + y]
    }

    /// Overwrite the cell at `(x, y)`.  This is the mutation access a
    /// caller uses to inject forces and to reset the pressure field.
    pub fn set_cell(&mut self, x: usize, y: usize, c: FluidCell)
        requires
            old(self).wf(),
            x < old(self).width,
            y < old(self).height,
        ensures
            final(self).wf(),
            final(self).same_config(*old(self)),
            final(self).fluid_grid@ == old(self).fluid_grid@.update(
                gidx(old(self).height as int, x as int, y as int),
                c,
            ),
    {
        proof {
            lemma_gidx_bound(self.height as int, self.width as int, x as int, y as int);
            assert(self.fluid_grid.len() == self.fluid_grid@.len());
        }
        let i = x * self.height + y;
        self.fluid_grid[i] = c;
    }
}

/// The grid after `set_cell_state(x, y, s)`: a no-op when the state
/// already is `s`; when a fluid cell becomes a wall, its own velocity
/// pair and the two neighbor-owned faces that coincide with its top and
/// right boundary are zeroed first; a wall becoming fluid keeps any
/// residual velocity.  The cell's state always ends up as `s`.
pub open spec fn set_state_spec(
    g: Seq<FluidCell>,
    w: int,
    h: int,
    x: int,
    y: int,
    s: CellState,
) -> Seq<FluidCell> {
    let c = cell_at(g, h, x, y);
    if c.state == s {
        g
    } else {
        let g1 = if c.state == CellState::Fluid {
            let ga = g.update(
                gidx(h, x, y),
                FluidCell { velocity: (Fixed { bits: 0 }, Fixed { bits: 0 }), ..c },
            );
            let gb = if y + 1 < h {
                let cn = cell_at(ga, h, x, y + 1);
                ga.update(
                    gidx(h, x, y + 1),
                    FluidCell { velocity: (cn.velocity.0, Fixed { bits: 0 }), ..cn },
                )
            } else {
                ga
            };
            if x + 1 < w {
                let ce = cell_at(gb, h, x + 1, y);
                gb.update(
                    gidx(h, x + 1, y),
                    FluidCell { velocity: (Fixed { bits: 0 }, ce.velocity.1), ..ce },
                )
            } else {
                gb
            }
        } else {
            g
        };
        let c2 = cell_at(g1, h, x, y);
        g1.update(gidx(h, x, y), FluidCell { state: s, ..c2 })
    }
}

impl FluidDomain {
    /// Change the state of cell `(x, y)` to `new_state`, zeroing the
    /// abutting face velocities when a fluid cell becomes a wall.
    pub fn set_cell_state(&mut self, x_id: usize, y_id: usize, new_state: CellState)
        requires
            old(self).wf(),
            x_id < old(self).width,
            y_id < old(self).height,
        ensures
            final(self).wf(),
            final(self).same_config(*old(self)),
            final(self).fluid_grid@ == set_state_spec(
                old(self).fluid_grid@,
                old(self).width as int,
                old(self).height as int,
                x_id as int,
                y_id as int,
                new_state,
            ),
    {
        let c = self.get_cell(x_id, y_id);
        if c.state == new_state {
            return ;
        }
        if c.state == CellState::Fluid {
            self.set_cell(
                x_id,
                y_id,
                FluidCell { velocity: (Fixed { bits: 0 }, Fixed { bits: 0 }), ..c },
            );
            if y_id + 1 < self.height {
                let cn = self.get_cell(x_id, y_id + 1);
                self.set_cell(
                    x_id,
                    y_id + 1,
                    FluidCell { velocity: (cn.velocity.0, Fixed { bits: 0 }), ..cn },
                );
            }
            if x_id + 1 < self.width {
                let ce = self.get_cell(x_id + 1, y_id);
                self.set_cell(
                    x_id + 1,
                    y_id,
                    FluidCell { velocity: (Fixed { bits: 0 }, ce.velocity.1), ..ce },
                );
            }
        }
        let c2 = self.get_cell(x_id, y_id);
        self.set_cell(x_id, y_id, FluidCell { state: new_state, ..c2 });
    }
}

/// A bit value as a scalar: the bridge from spec arithmetic back into
/// stored cells.
pub open spec fn fxv(b: int) -> Fixed {
    Fixed { bits: b as i64 }
}

/// Clamp a base index so the 2x2 stencil `[r, r+1]` always lies inside
/// `[0, n-1]`: negative indices go to 0 and indices past `n-2` go to
/// `n-2`.  This is the sampler's silent-clamp policy, not an error.
pub open spec fn clamp_idx(f: int, n: int) -> int {
    let a = if f < 0 {
        0
    } else {
        f
    };
    if a >= n - 1 {
        n - 2
    } else {
        a
    }
}

/// Bilinear blend of four corner samples with fractional offsets
/// `xr, yr`: weight `(1-xr)(1-yr)` for the base corner, `xr(1-yr)` for
/// `+x`, `xr*yr` for `+x+y` and `(1-xr)yr` for `+y`, summed in that
/// order.
pub open spec fn bilinear(c00: int, c10: int, c11: int, c01: int, xr: int, yr: int) -> int {
    let w00 = fsub(FX_SCALE as int, xr);
    let w10 = fsub(FX_SCALE as int, yr);
    let w01 = xr;
    let w11 = yr;
    fadd(
        fadd(
            fadd(fmul(fmul(w00, w10), c00), fmul(fmul(w01, w10), c10)),
            fmul(fmul(w01, w11), c11),
        ),
        fmul(fmul(w00, w11), c01),
    )
}

/// The sampled `u` velocity at the point with bit coordinates
/// `(xb, yb)`: `u` samples live at integer x and half-integer y, so the
/// base index is `floor(x)` horizontally and `floor(y - 1/2)`
/// vertically, both clamped.
pub open spec fn sample_u_spec(g: Seq<FluidCell>, w: int, h: int, xb: int, yb: int) -> int {
    let xi = clamp_idx(fx_floor(xb), w);
    let yi = clamp_idx(fx_floor(fsub(yb, FX_HALF as int)), h);
    let xr = fsub(xb, int_to_fx(xi));
    let yr = fsub(yb, fadd(int_to_fx(yi), FX_HALF as int));
    bilinear(
        u_at(g, h, xi, yi),
        u_at(g, h, xi + 1, yi),
        u_at(g, h, xi + 1, yi + 1),
        u_at(g, h, xi, yi + 1),
        xr,
        yr,
    )
}

/// The sampled `v` velocity at `(xb, yb)`: `v` samples live at
/// half-integer x and integer y.
pub open spec fn sample_v_spec(g: Seq<FluidCell>, w: int, h: int, xb: int, yb: int) -> int {
    let xi = clamp_idx(fx_floor(fsub(xb, FX_HALF as int)), w);
    let yi = clamp_idx(fx_floor(yb), h);
    let xr = fsub(xb, fadd(int_to_fx(xi), FX_HALF as int));
    let yr = fsub(yb, int_to_fx(yi));
    bilinear(
        v_at(g, h, xi, yi),
        v_at(g, h, xi + 1, yi),
        v_at(g, h, xi + 1, yi + 1),
        v_at(g, h, xi, yi + 1),
        xr,
        yr,
    )
}

/// Clamp a floored coordinate into a valid stencil base index.
fn clamp_index(f: i64, n: usize) -> (r: usize)
    requires
        3 <= n <= 0x80000000,
    ensures
        r as int == clamp_idx(f as int, n as int),
        r + 1 < n,
{
    let a: i64 = if f < 0 {
        0
    } else {
        f
    };
    let nlast: i64 = (n as i64) - 1;
    if a >= nlast {
        n - 2
    } else {
        a as usize
    }
}

/// The four-corner blend over `Fixed` scalars.
fn bilinear_exec(c00: Fixed, c10: Fixed, c11: Fixed, c01: Fixed, xr: Fixed, yr: Fixed) -> (r:
    Fixed)
    ensures
        r.bits as int == bilinear(
            c00.bits as int,
            c10.bits as int,
            c11.bits as int,
            c01.bits as int,
            xr.bits as int,
            yr.bits as int,
        ),
{
    let w00 = Fixed::one().sub(xr);
    let w10 = Fixed::one().sub(yr);
    let w01 = xr;
    let w11 = yr;
    w00.mul(w10).mul(c00).add(w01.mul(w10).mul(c10)).add(w01.mul(w11).mul(c11)).add(
        w00.mul(w11).mul(c01),
    )
}

impl FluidDomain {
    /// Interpolate the `u` velocity component at the continuous point
    /// `(x, y)`, bilinearly over the 2x2 nearest staggered samples,
    /// with out-of-range base indices silently clamped.
    pub fn sample_grid_velocity_u(&self, x: Fixed, y: Fixed) -> (r: Fixed)
        requires
            self.wf(),
        ensures
            r.bits as int == sample_u_spec(
                self.fluid_grid@,
                self.width as int,
                self.height as int,
                x.bits as int,
                y.bits as int,
            ),
    {
        let xi = clamp_index(x.floor(), self.width);
        let yi = clamp_index(y.sub(Fixed::half()).floor(), self.height);
        let xr = x.sub(Fixed::from_int(xi as i64));
        let yr = y.sub(Fixed::from_int(yi as i64).add(Fixed::half()));
        let c00 = self.get_cell(xi, yi).velocity.0;
        let c10 = self.get_cell(xi + 1, yi).velocity.0;
        let c11 = self.get_cell(xi + 1, yi + 1).velocity.0;
        let c01 = self.get_cell(xi, yi + 1).velocity.0;
        bilinear_exec(c00, c10, c11, c01, xr, yr)
    }

    /// Interpolate the `v` velocity component at `(x, y)`.
    pub fn sample_grid_velocity_v(&self, x: Fixed, y: Fixed) -> (r: Fixed)
        requires
            self.wf(),
        ensures
            r.bits as int == sample_v_spec(
                self.fluid_grid@,
                self.width as int,
                self.height as int,
                x.bits as int,
                y.bits as int,
            ),
    {
        let xi = clamp_index(x.sub(Fixed::half()).floor(), self.width);
        let yi = clamp_index(y.floor(), self.height);
        let xr = x.sub(Fixed::from_int(xi as i64).add(Fixed::half()));
        let yr = y.sub(Fixed::from_int(yi as i64));
        let c00 = self.get_cell(xi, yi).velocity.1;
        let c10 = self.get_cell(xi + 1, yi).velocity.1;
        let c11 = self.get_cell(xi + 1, yi + 1).velocity.1;
        let c01 = self.get_cell(xi, yi + 1).velocity.1;
        bilinear_exec(c00, c10, c11, c01, xr, yr)
    }
}

/// Number of the four axis neighbors of `(x, y)` that are fluid, in the
/// order east, west, north, south.
pub open spec fn open_faces(g: Seq<FluidCell>, h: int, x: int, y: int) -> int {
    fluid_ind(g, h, x + 1, y) + fluid_ind(g, h, x - 1, y) + fluid_ind(g, h, x, y + 1)
        + fluid_ind(g, h, x, y - 1)
}

/// Net outflow of cell `(x, y)` in face-velocity terms:
/// `u_left - u_right - v_top + v_bottom`, folded left to right.
pub open spec fn raw_divergence(g: Seq<FluidCell>, h: int, x: int, y: int) -> int {
    fadd(fsub(fsub(u_at(g, h, x, y), u_at(g, h, x + 1, y)), v_at(g, h, x, y + 1)), v_at(g, h, x, y))
}

/// One Gauss-Seidel relaxation of interior cell `(x, y)`: walls and
/// cells without a fluid neighbor are skipped; otherwise the raw
/// divergence (recorded into the cell on the first sweep) is scaled by
/// the over-relaxation factor `om`, split over the open faces, pushed
/// outward through each fluid-adjacent face, and the matching pressure
/// correction `share * dens / ts` is subtracted from the cell.
pub open spec fn relax_cell(
    g: Seq<FluidCell>,
    h: int,
    ts: int,
    dens: int,
    om: int,
    first: bool,
    x: int,
    y: int,
) -> Seq<FluidCell> {
    let c = cell_at(g, h, x, y);
    if c.state == CellState::Wall {
        g
    } else {
        let n = open_faces(g, h, x, y);
        if n == 0 {
            g
        } else {
            let div0 = raw_divergence(g, h, x, y);
            let g1 = if first {
                g.update(gidx(h, x, y), FluidCell { divergence: fxv(div0), ..c })
            } else {
                g
            };
            let share = fdivn(fmul(div0, om), n);
            let g2 = if fluid_ind(g, h, x, y - 1) == 1 {
                let c2 = cell_at(g1, h, x, y);
                g1.update(
                    gidx(h, x, y),
                    FluidCell {
                        velocity: (c2.velocity.0, fxv(fsub(c2.velocity.1.bits as int, share))),
                        ..c2
                    },
                )
            } else {
                g1
            };
            let g3 = if fluid_ind(g, h, x, y + 1) == 1 {
                let c3 = cell_at(g2, h, x, y + 1);
                g2.update(
                    gidx(h, x, y + 1),
                    FluidCell {
                        velocity: (c3.velocity.0, fxv(fadd(c3.velocity.1.bits as int, share))),
                        ..c3
                    },
                )
            } else {
                g2
            };
            let g4 = if fluid_ind(g, h, x - 1, y) == 1 {
                let c4 = cell_at(g3, h, x, y);
                g3.update(
                    gidx(h, x, y),
                    FluidCell {
                        velocity: (fxv(fsub(c4.velocity.0.bits as int, share)), c4.velocity.1),
                        ..c4
                    },
                )
            } else {
                g3
            };
            let g5 = if fluid_ind(g, h, x + 1, y) == 1 {
                let c5 = cell_at(g4, h, x + 1, y);
                g4.update(
                    gidx(h, x + 1, y),
                    FluidCell {
                        velocity: (fxv(fadd(c5.velocity.0.bits as int, share)), c5.velocity.1),
                        ..c5
                    },
                )
            } else {
                g4
            };
            let c6 = cell_at(g5, h, x, y);
            g5.update(
                gidx(h, x, y),
                FluidCell {
                    pressure: fxv(fsub(c6.pressure.bits as int, fmul(share, fdiv(dens, ts)))),
                    ..c6
                },
            )
        }
    }
}

/// Interior cell visited `k`-th by a sweep (0-based), x outer, y inner.
pub open spec fn sweep_x(h: int, k: int) -> int {
    1 + k / (h - 2)
}

/// See [`sweep_x`].
pub open spec fn sweep_y(h: int, k: int) -> int {
    1 + k % (h - 2)
}

/// The grid after the first `k` cells of one relaxation sweep.
pub open spec fn sweep_k(
    g0: Seq<FluidCell>,
    h: int,
    ts: int,
    dens: int,
    om: int,
    first: bool,
    k: int,
) -> Seq<FluidCell>
    decreases k,
{
    if k <= 0 {
        g0
    } else {
        relax_cell(
            sweep_k(g0, h, ts, dens, om, first, k - 1),
            h,
            ts,
            dens,
            om,
            first,
            sweep_x(h, k - 1),
            sweep_y(h, k - 1),
        )
    }
}

/// One full relaxation sweep over the `(w-2) * (h-2)` interior cells in
/// row-major order (x outer, y inner), applied in place: a correction
/// made earlier in the sweep is visible to later cells.
pub open spec fn sweep_all(
    g0: Seq<FluidCell>,
    w: int,
    h: int,
    ts: int,
    dens: int,
    om: int,
    first: bool,
) -> Seq<FluidCell> {
    sweep_k(g0, h, ts, dens, om, first, (w - 2) * (h - 2))
}

/// The grid after `n` relaxation sweeps; only the very first sweep
/// records the divergence diagnostic.
pub open spec fn solve_iters(
    g0: Seq<FluidCell>,
    w: int,
    h: int,
    ts: int,
    dens: int,
    om: int,
    n: int,
) -> Seq<FluidCell>
    decreases n,
{
    if n <= 0 {
        g0
    } else {
        sweep_all(solve_iters(g0, w, h, ts, dens, om, n - 1), w, h, ts, dens, om, n == 1)
    }
}

/// Where cell `k` of a sweep lies, given its row-major construction.
pub proof fn lemma_sweep_coords(h: int, x: int, y: int)
    requires
        h >= 3,
        1 <= x,
        1 <= y <= h - 2,
    ensures
        sweep_x(h, (x - 1) * (h - 2) + (y - 1)) == x,
        sweep_y(h, (x - 1) * (h - 2) + (y - 1)) == y,
{
    lemma_fundamental_div_mod_converse((x - 1) * (h - 2) + (y - 1), h - 2, x - 1, y - 1);
}

/// The fluid indicator of a state value, as the solver counts it.
fn cell_ind(s: CellState) -> (r: u64)
    ensures
        r as int == (if s == CellState::Wall {
            0int
        } else {
            1int
        }),
{
    match s {
        CellState::Wall => 0,
        CellState::Fluid => 1,
    }
}

impl FluidDomain {
    /// One relaxation of interior cell `(x, y)`; see [`relax_cell`].
    fn relax_one(&mut self, x: usize, y: usize, first: bool)
        requires
            old(self).wf(),
            1 <= x && x + 1 < old(self).width,
            1 <= y && y + 1 < old(self).height,
        ensures
            final(self).wf(),
            final(self).same_config(*old(self)),
            final(self).fluid_grid@ == relax_cell(
                old(self).fluid_grid@,
                old(self).height as int,
                old(self).timestep.bits as int,
                old(self).density.bits as int,
                old(self).relaxation.bits as int,
                first,
                x as int,
                y as int,
            ),
    {
        let c = self.get_cell(x, y);
        if c.state == CellState::Wall {
            return ;
        }
        let east = self.get_cell(x + 1, y);
        let west = self.get_cell(x - 1, y);
        let north = self.get_cell(x, y + 1);
        let south = self.get_cell(x, y - 1);
        let n: u64 = cell_ind(east.state) + cell_ind(west.state) + cell_ind(north.state)
            + cell_ind(south.state);
        if n == 0 {
            return ;
        }
        let div0 = c.velocity.0.sub(east.velocity.0).sub(north.velocity.1).add(c.velocity.1);
        if first {
            self.set_cell(x, y, FluidCell { divergence: div0, ..c });
        }
        let share = div0.mul(self.relaxation).div_n(n);
        if south.state == CellState::Fluid {
            let c2 = self.get_cell(x, y);
            self.set_cell(
                x,
                y,
                FluidCell { velocity: (c2.velocity.0, c2.velocity.1.sub(share)), ..c2 },
            );
        }
        if north.state == CellState::Fluid {
            let c3 = self.get_cell(x, y + 1);
            self.set_cell(
                x,
                y + 1,
                FluidCell { velocity: (c3.velocity.0, c3.velocity.1.add(share)), ..c3 },
            );
        }
        if west.state == CellState::Fluid {
            let c4 = self.get_cell(x, y);
            self.set_cell(
                x,
                y,
                FluidCell { velocity: (c4.velocity.0.sub(share), c4.velocity.1), ..c4 },
            );
        }
        if east.state == CellState::Fluid {
            let c5 = self.get_cell(x + 1, y);
            self.set_cell(
                x + 1,
                y,
                FluidCell { velocity: (c5.velocity.0.add(share), c5.velocity.1), ..c5 },
            );
        }
        let factor = self.density.div(self.timestep);
        let c6 = self.get_cell(x, y);
        self.set_cell(x, y, FluidCell { pressure: c6.pressure.sub(share.mul(factor)), ..c6 });
    }

    /// Run the fixed number of relaxation sweeps over the interior,
    /// driving every fluid cell's net outflow towards zero and
    /// accumulating the pressure correction.  The first sweep also
    /// records each visited cell's raw divergence.
    pub fn solve_grid_incompressibility(&mut self)
        requires
            old(self).wf(),
        ensures
            final(self).wf(),
            final(self).same_config(*old(self)),
            final(self).fluid_grid@ == solve_iters(
                old(self).fluid_grid@,
                old(self).width as int,
                old(self).height as int,
                old(self).timestep.bits as int,
                old(self).density.bits as int,
                old(self).relaxation.bits as int,
                old(self).sweeps as int,
            ),
    {
        let w = self.width;
        let h = self.height;
        let ghost g0 = self.fluid_grid@;
        let ghost ts = self.timestep.bits as int;
        let ghost dens = self.density.bits as int;
        let ghost om = self.relaxation.bits as int;
        let mut it: u32 = 0;
        while it < self.sweeps
            invariant
                old(self).wf(),
                self.wf(),
                self.same_config(*old(self)),
                it <= self.sweeps,
                w == self.width,
                h == self.height,
                g0 == old(self).fluid_grid@,
                ts == self.timestep.bits as int,
                dens == self.density.bits as int,
                om == self.relaxation.bits as int,
                self.fluid_grid@ == solve_iters(g0, w as int, h as int, ts, dens, om, it as int),
            decreases self.sweeps - it,
        {
            let first = it == 0;
            let ghost cur = self.fluid_grid@;
            let mut x: usize = 1;
            while x < w - 1
                invariant
                    self.wf(),
                    self.same_config(*old(self)),
                    1 <= x <= w - 1,
                    w == self.width,
                    h == self.height,
                    ts == self.timestep.bits as int,
                    dens == self.density.bits as int,
                    om == self.relaxation.bits as int,
                    self.fluid_grid@ == sweep_k(
                        cur,
                        h as int,
                        ts,
                        dens,
                        om,
                        first,
                        (x - 1) * (h - 2),
                    ),
                decreases w - 1 - x,
            {
                let mut y: usize = 1;
                while y < h - 1
                    invariant
                        self.wf(),
                        self.same_config(*old(self)),
                        1 <= x <= w - 2,
                        1 <= y <= h - 1,
                        w == self.width,
                        h == self.height,
                        ts == self.timestep.bits as int,
                        dens == self.density.bits as int,
                        om == self.relaxation.bits as int,
                        self.fluid_grid@ == sweep_k(
                            cur,
                            h as int,
                            ts,
                            dens,
                            om,
                            first,
                            (x - 1) * (h - 2) + (y - 1),
                        ),
                    decreases h - 1 - y,
                {
                    proof {
                        lemma_sweep_coords(h as int, x as int, y as int);
                    }
                    self.relax_one(x, y, first);
                    y = y + 1;
                }
                proof {
                    assert((x - 1) * (h - 2) + (h - 2) == ((x + 1) - 1) * (h - 2))
                        by (nonlinear_arith);
                }
                x = x + 1;
            }
            proof {
                assert(self.fluid_grid@ == sweep_all(cur, w as int, h as int, ts, dens, om, first));
                assert(solve_iters(g0, w as int, h as int, ts, dens, om, it + 1) == sweep_all(
                    solve_iters(g0, w as int, h as int, ts, dens, om, it as int),
                    w as int,
                    h as int,
                    ts,
                    dens,
                    om,
                    it == 0,
                ));
            }
            it = it + 1;
        }
    }
}

/// New `u` face value of interior cell `(x, y)` after advection: 0 when
/// the face touches a wall (this cell or its west neighbor); otherwise
/// the face position is traced back by `timestep` along the local
/// velocity (its own `u`, and the average of the four surrounding `v`
/// samples) and the pre-step field's `u` is sampled there.
#[verifier::opaque]
pub open spec fn advect_u_bits(g: Seq<FluidCell>, w: int, h: int, ts: int, x: int, y: int) -> int {
    if !is_wall(g, h, x, y) && !is_wall(g, h, x - 1, y) {
        let u = u_at(g, h, x, y);
        let v = fdivn(
            fadd(
                fadd(fadd(v_at(g, h, x, y), v_at(g, h, x, y + 1)), v_at(g, h, x - 1, y)),
                v_at(g, h, x - 1, y + 1),
            ),
            4,
        );
        let px = fsub(int_to_fx(x), fmul(ts, u));
        let py = fsub(fadd(int_to_fx(y), FX_HALF as int), fmul(ts, v));
        sample_u_spec(g, w, h, px, py)
    } else {
        0
    }
}

/// New `v` face value of interior cell `(x, y)` after advection,
/// symmetric to [`advect_u_bits`] with the south neighbor as the wall
/// test and the four surrounding `u` samples averaged.
#[verifier::opaque]
pub open spec fn advect_v_bits(g: Seq<FluidCell>, w: int, h: int, ts: int, x: int, y: int) -> int {
    if !is_wall(g, h, x, y) && !is_wall(g, h, x, y - 1) {
        let u = fdivn(
            fadd(
                fadd(fadd(u_at(g, h, x, y), u_at(g, h, x + 1, y)), u_at(g, h, x, y - 1)),
                u_at(g, h, x + 1, y - 1),
            ),
            4,
        );
        let v = v_at(g, h, x, y);
        let px = fsub(fadd(int_to_fx(x), FX_HALF as int), fmul(ts, u));
        let py = fsub(int_to_fx(y), fmul(ts, v));
        sample_v_spec(g, w, h, px, py)
    } else {
        0
    }
}

/// Cell `i` of the advected grid: interior cells get both faces
/// replaced (all reads go to the pre-step grid `g`), border cells and
/// all non-velocity fields are untouched.
pub open spec fn advected_cell(g: Seq<FluidCell>, w: int, h: int, ts: int, i: int) -> FluidCell {
    let x = i / h;
    let y = i % h;
    let c = g[i];
    if 1 <= x < w - 1 && 1 <= y < h - 1 {
        FluidCell {
            velocity: (
                fxv(advect_u_bits(g, w, h, ts, x, y)),
                fxv(advect_v_bits(g, w, h, ts, x, y)),
            ),
            ..c
        }
    } else {
        c
    }
}

/// The whole grid after one advection step.
pub open spec fn advect_grid(g: Seq<FluidCell>, w: int, h: int, ts: int) -> Seq<FluidCell> {
    Seq::new(g.len(), |i: int| advected_cell(g, w, h, ts, i))
}

impl FluidDomain {
    /// Replace the interior velocities with the semi-Lagrangian
    /// advection of the current field.  All reads go to a snapshot of
    /// the grid as it was when the call began, so no write of this step
    /// is ever read back; faces touching a wall are forced to zero.
    pub fn apply_advection(&mut self)
        requires
            old(self).wf(),
        ensures
            final(self).wf(),
            final(self).same_config(*old(self)),
            final(self).fluid_grid@ == advect_grid(
                old(self).fluid_grid@,
                old(self).width as int,
                old(self).height as int,
                old(self).timestep.bits as int,
            ),
    {
        let w = self.width;
        let h = self.height;
        let ghost g0 = self.fluid_grid@;
        let ghost ts = self.timestep.bits as int;
        let len = self.fluid_grid.len();
        let mut new_grid: Vec<FluidCell> = Vec::new();
        let mut i: usize = 0;
        while i < len
            invariant
                i <= len,
                len == self.fluid_grid@.len(),
                g0 == self.fluid_grid@,
                new_grid@.len() == i,
                forall|j: int| 0 <= j < i ==> new_grid@[j] == g0[j],
            decreases len - i,
        {
            new_grid.push(self.fluid_grid[i]);
            i = i + 1;
        }
        proof {
            assert forall|j: int| 0 <= j < g0.len() implies #[trigger] new_grid@[j] == (if j < h
                + 1 {
                advected_cell(g0, w as int, h as int, ts, j)
            } else {
                g0[j]
            }) by {
                if j < h {
                    lemma_fundamental_div_mod_converse(j, h as int, 0, j);
                } else if j < h + 1 {
                    lemma_fundamental_div_mod_converse(j, h as int, 1, 0);
                }
            }
        }
        let mut x: usize = 1;
        while x < w - 1
            invariant
                self.wf(),
                w == self.width,
                h == self.height,
                g0 == self.fluid_grid@,
                ts == self.timestep.bits as int,
                1 <= x <= w - 1,
                new_grid@.len() == g0.len(),
                forall|j: int|
                    0 <= j < g0.len() ==> #[trigger] new_grid@[j] == (if j < x * h + 1 {
                        advected_cell(g0, w as int, h as int, ts, j)
                    } else {
                        g0[j]
                    }),
            decreases w - 1 - x,
        {
            let mut y: usize = 1;
            while y < h - 1
                invariant
                    self.wf(),
                    w == self.width,
                    h == self.height,
                    g0 == self.fluid_grid@,
                    ts == self.timestep.bits as int,
                    1 <= x <= w - 2,
                    1 <= y <= h - 1,
                    new_grid@.len() == g0.len(),
                    forall|j: int|
                        0 <= j < g0.len() ==> #[trigger] new_grid@[j] == (if j < x * h + y {
                            advected_cell(g0, w as int, h as int, ts, j)
                        } else {
                            g0[j]
                        }),
                decreases h - 1 - y,
            {
                let c = self.get_cell(x, y);
                let west = self.get_cell(x - 1, y);
                let south = self.get_cell(x, y - 1);
                let east = self.get_cell(x + 1, y);
                let new_u = if c.state != CellState::Wall && west.state != CellState::Wall {
                    let u = c.velocity.0;
                    let vavg = c.velocity.1.add(self.get_cell(x, y + 1).velocity.1).add(
                        west.velocity.1,
                    ).add(self.get_cell(x - 1, y + 1).velocity.1).div_n(4);
                    let px = Fixed::from_int(x as i64).sub(self.timestep.mul(u));
                    let py = Fixed::from_int(y as i64).add(Fixed::half()).sub(
                        self.timestep.mul(vavg),
                    );
                    self.sample_grid_velocity_u(px, py)
                } else {
                    Fixed::zero()
                };
                let new_v = if c.state != CellState::Wall && south.state != CellState::Wall {
                    let uavg = c.velocity.0.add(east.velocity.0).add(south.velocity.0).add(
                        self.get_cell(x + 1, y - 1).velocity.0,
                    ).div_n(4);
                    let v = c.velocity.1;
                    let px = Fixed::from_int(x as i64).add(Fixed::half()).sub(
                        self.timestep.mul(uavg),
                    );
                    let py = Fixed::from_int(y as i64).sub(self.timestep.mul(v));
                    self.sample_grid_velocity_v(px, py)
                } else {
                    Fixed::zero()
                };
                proof {
                    reveal(advect_u_bits);
                    reveal(advect_v_bits);
                    lemma_gidx_bound(h as int, w as int, x as int, y as int);
                    assert(new_grid.len() == new_grid@.len());
                    lemma_fundamental_div_mod_converse(
                        (x as int) * (h as int) + (y as int),
                        h as int,
                        x as int,
                        y as int,
                    );
                }
                let idx = x * h + y;
                new_grid[idx] = FluidCell { velocity: (new_u, new_v), ..c };
                y = y + 1;
            }
            proof {
                assert((x as int) * (h as int) + (h as int) == ((x as int) + 1) * (h as int))
                    by (nonlinear_arith);
                assert forall|j: int|
                    (x as int) * (h as int) + ((h as int) - 1) <= j < (x as int) * (h as int) + (
                    h as int) + 1 implies advected_cell(g0, w as int, h as int, ts, j) == g0[j] by {
                    if j == (x as int) * (h as int) + ((h as int) - 1) {
                        lemma_fundamental_div_mod_converse(
                            j,
                            h as int,
                            x as int,
                            (h as int) - 1,
                        );
                    } else {
                        lemma_fundamental_div_mod_converse(j, h as int, (x as int) + 1, 0);
                    }
                }
            }
            x = x + 1;
        }
        proof {
            assert forall|j: int| 0 <= j < g0.len() implies #[trigger] new_grid@[j]
                == advected_cell(g0, w as int, h as int, ts, j) by {
                if j >= (w as int - 1) * (h as int) + 1 {
                    lemma_gidx_bound(h as int, w as int, (w as int) - 1, 0);
                    let q = j / (h as int);
                    let r = j % (h as int);
                    vstd::arithmetic::div_mod::lemma_fundamental_div_mod(j, h as int);
                    vstd::arithmetic::div_mod::lemma_mod_division_less_than_divisor(j, h as int);
                    assert(q >= w - 1) by (nonlinear_arith)
                        requires
                            j == q * (h as int) + r,
                            0 <= r < h as int,
                            j >= (w as int - 1) * (h as int) + 1,
                            h as int >= 3,
                    ;
                }
            }
            assert(new_grid@ =~= advect_grid(g0, w as int, h as int, ts));
        }
        self.fluid_grid = new_grid;
    }
}

} // verus!
