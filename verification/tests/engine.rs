//! Tests of construction, the state-transition rule and the sampler.

use fluid2d::fixed::Fixed;
use fluid2d::fluid_engine::{CellState, ConfigError, FluidCell, FluidDomain};

fn domain(w: usize, h: usize) -> FluidDomain {
    FluidDomain::new(w, h, Fixed::from_ratio(1, 10)).unwrap()
}

#[test]
fn new_rejects_a_grid_without_interior() {
    let ts = Fixed::from_ratio(1, 10);
    assert_eq!(
        FluidDomain::new(2, 5, ts).unwrap_err(),
        ConfigError::GridTooSmall
    );
    assert_eq!(
        FluidDomain::new(5, 2, ts).unwrap_err(),
        ConfigError::GridTooSmall
    );
}

#[test]
fn new_rejects_a_non_positive_timestep() {
    assert_eq!(
        FluidDomain::new(5, 5, Fixed::zero()).unwrap_err(),
        ConfigError::InvalidTimestep
    );
    assert_eq!(
        FluidDomain::new(5, 5, Fixed::from_int(-1)).unwrap_err(),
        ConfigError::InvalidTimestep
    );
}

#[test]
fn new_builds_an_all_fluid_grid_at_rest_with_default_configuration() {
    let d = domain(4, 3);
    assert_eq!(d.width, 4);
    assert_eq!(d.height, 3);
    assert_eq!(d.density.bits, 1000 * 4294967296);
    assert_eq!(d.relaxation.bits, 8160437862);
    assert_eq!(d.sweeps, 40);
    assert_eq!(d.fluid_grid.len(), 12);
    for x in 0..4 {
        for y in 0..3 {
            let c = d.get_cell(x, y);
            assert_eq!(c.state, CellState::Fluid);
            assert_eq!(c.velocity.0.bits, 0);
            assert_eq!(c.velocity.1.bits, 0);
            assert_eq!(c.pressure.bits, 0);
            assert_eq!(c.divergence.bits, 0);
        }
    }
}

#[test]
fn becoming_wall_zeroes_own_and_abutting_faces() {
    let mut d = domain(5, 5);
    for x in 1..4usize {
        for y in 1..4usize {
            let c = d.get_cell(x, y);
            d.set_cell(
                x,
                y,
                FluidCell {
                    velocity: (Fixed::from_int(2), Fixed::from_int(3)),
                    ..c
                },
            );
        }
    }
    d.set_cell_state(2, 2, CellState::Wall);
    let c = d.get_cell(2, 2);
    assert_eq!(c.state, CellState::Wall);
    assert_eq!(c.velocity.0.bits, 0);
    assert_eq!(c.velocity.1.bits, 0);
    // The north neighbor's v and the east neighbor's u coincide with
    // this cell's top and right boundary, so they are zeroed too.
    assert_eq!(d.get_cell(2, 3).velocity.1.bits, 0);
    assert_eq!(d.get_cell(2, 3).velocity.0.bits, Fixed::from_int(2).bits);
    assert_eq!(d.get_cell(3, 2).velocity.0.bits, 0);
    assert_eq!(d.get_cell(3, 2).velocity.1.bits, Fixed::from_int(3).bits);
    // Unrelated neighbors keep their values.
    assert_eq!(d.get_cell(1, 2).velocity.0.bits, Fixed::from_int(2).bits);
    assert_eq!(d.get_cell(2, 1).velocity.1.bits, Fixed::from_int(3).bits);
}

#[test]
fn becoming_fluid_keeps_residual_velocity() {
    let mut d = domain(4, 4);
    d.set_cell_state(1, 1, CellState::Wall);
    // Write a residual velocity into the wall cell, then reopen it.
    let c = d.get_cell(1, 1);
    d.set_cell(
        1,
        1,
        FluidCell {
            velocity: (Fixed::from_int(7), Fixed::from_int(8)),
            ..c
        },
    );
    d.set_cell_state(1, 1, CellState::Fluid);
    let c = d.get_cell(1, 1);
    assert_eq!(c.state, CellState::Fluid);
    assert_eq!(c.velocity.0.bits, Fixed::from_int(7).bits);
    assert_eq!(c.velocity.1.bits, Fixed::from_int(8).bits);
}

#[test]
fn set_cell_state_is_idempotent() {
    let mut d = domain(5, 4);
    let c = d.get_cell(2, 2);
    d.set_cell(
        2,
        2,
        FluidCell {
            velocity: (Fixed::from_int(1), Fixed::from_int(2)),
            ..c
        },
    );
    let mut e = domain(5, 4);
    let c = e.get_cell(2, 2);
    e.set_cell(
        2,
        2,
        FluidCell {
            velocity: (Fixed::from_int(1), Fixed::from_int(2)),
            ..c
        },
    );
    d.set_cell_state(2, 2, CellState::Wall);
    e.set_cell_state(2, 2, CellState::Wall);
    e.set_cell_state(2, 2, CellState::Wall);
    assert_eq!(d.fluid_grid, e.fluid_grid);
    // A same-state call on its own is a strict no-op.
    let before = d.fluid_grid.clone();
    d.set_cell_state(2, 2, CellState::Wall);
    assert_eq!(d.fluid_grid, before);
}

#[test]
fn sampling_u_at_a_stored_sample_is_exact() {
    let mut d = domain(6, 5);
    let v = Fixed::from_ratio(7, 3);
    let c = d.get_cell(2, 3);
    d.set_cell(
        2,
        3,
        FluidCell {
            velocity: (v, c.velocity.1),
            ..c
        },
    );
    // u of cell (2, 3) lives at the point (2, 3.5).
    let x = Fixed::from_int(2);
    let y = Fixed::from_int(3).add(Fixed::half());
    assert_eq!(d.sample_grid_velocity_u(x, y).bits, v.bits);
}

#[test]
fn sampling_v_at_a_stored_sample_is_exact() {
    let mut d = domain(6, 5);
    let v = Fixed::from_ratio(-11, 7);
    let c = d.get_cell(3, 2);
    d.set_cell(
        3,
        2,
        FluidCell {
            velocity: (c.velocity.0, v),
            ..c
        },
    );
    // v of cell (3, 2) lives at the point (3.5, 2).
    let x = Fixed::from_int(3).add(Fixed::half());
    let y = Fixed::from_int(2);
    assert_eq!(d.sample_grid_velocity_v(x, y).bits, v.bits);
}

#[test]
fn sampling_out_of_range_clamps_to_the_border_stencil() {
    let mut d = domain(4, 4);
    let v = Fixed::from_int(5);
    let c = d.get_cell(0, 0);
    d.set_cell(
        0,
        0,
        FluidCell {
            velocity: (v, c.velocity.1),
            ..c
        },
    );
    // At x = -1 the base index clamps to 0, and the fractional offset
    // is measured from the clamped base: the blend extrapolates the
    // stencil at the low edge, here 2 * u(0,0) - u(1,0) = 10 exactly.
    let r = d.sample_grid_velocity_u(Fixed::from_int(-1), Fixed::half());
    assert_eq!(r.bits, Fixed::from_int(10).bits);
}
