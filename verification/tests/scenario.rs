//! Whole-step scenarios: quiescence, wall impermeability, divergence
//! reduction and a 50-step channel run.

use fluid2d::fixed::Fixed;
use fluid2d::fluid_engine::{CellState, FluidCell, FluidDomain};

/// Every face shared with a wall carries exactly zero velocity.
fn assert_wall_faces_zero(d: &FluidDomain) {
    for x in 0..d.width {
        for y in 0..d.height {
            if x >= 1 {
                let wall = d.get_cell(x - 1, y).state == CellState::Wall
                    || d.get_cell(x, y).state == CellState::Wall;
                if wall {
                    assert_eq!(d.get_cell(x, y).velocity.0.bits, 0);
                }
            }
            if y >= 1 {
                let wall = d.get_cell(x, y - 1).state == CellState::Wall
                    || d.get_cell(x, y).state == CellState::Wall;
                if wall {
                    assert_eq!(d.get_cell(x, y).velocity.1.bits, 0);
                }
            }
        }
    }
}

#[test]
fn quiescence_a_walled_grid_at_rest_stays_at_rest() {
    let mut d = FluidDomain::new(10, 6, Fixed::from_ratio(1, 10)).unwrap();
    for x in 0..10usize {
        d.set_cell_state(x, 0, CellState::Wall);
        d.set_cell_state(x, 5, CellState::Wall);
    }
    for y in 1..5usize {
        d.set_cell_state(0, y, CellState::Wall);
        d.set_cell_state(9, y, CellState::Wall);
    }
    for _ in 0..4 {
        d.solve_grid_incompressibility();
        d.apply_advection();
        for x in 0..10usize {
            for y in 0..6usize {
                let c = d.get_cell(x, y);
                assert_eq!(c.velocity.0.bits, 0);
                assert_eq!(c.velocity.1.bits, 0);
            }
        }
    }
}

#[test]
fn wall_impermeability_survives_a_step_with_forcing() {
    let mut d = FluidDomain::new(8, 8, Fixed::from_ratio(1, 10)).unwrap();
    for i in 0..8usize {
        d.set_cell_state(i, 0, CellState::Wall);
        d.set_cell_state(i, 7, CellState::Wall);
        d.set_cell_state(0, i, CellState::Wall);
        d.set_cell_state(7, i, CellState::Wall);
    }
    // An interior obstacle.
    d.set_cell_state(4, 4, CellState::Wall);
    // Force a face that does not touch any wall.
    let c = d.get_cell(2, 2);
    d.set_cell(
        2,
        2,
        FluidCell {
            velocity: (Fixed::from_int(6), Fixed::from_int(-2)),
            ..c
        },
    );
    assert_wall_faces_zero(&d);
    for _ in 0..3 {
        d.solve_grid_incompressibility();
        d.apply_advection();
        assert_wall_faces_zero(&d);
    }
}

#[test]
fn first_sweep_divergence_dominates_the_residual_after_the_solve() {
    let mut d = FluidDomain::new(5, 5, Fixed::from_ratio(1, 10)).unwrap();
    // (1, 1) is the first interior cell a sweep visits, so its recorded
    // divergence is the raw initial one, before any in-place update.
    let c = d.get_cell(1, 1);
    d.set_cell(
        1,
        1,
        FluidCell {
            velocity: (Fixed::from_int(10), c.velocity.1),
            ..c
        },
    );
    d.solve_grid_incompressibility();
    // The diagnostic holds the raw first-sweep divergence of (1, 1):
    // u(1,1) - u(2,1) - v(1,2) + v(1,1) = 10 before any correction.
    let recorded = d.get_cell(1, 1).divergence.bits;
    assert_eq!(recorded, Fixed::from_int(10).bits);
    // Recompute the net face divergence after all 40 sweeps: the solve
    // must not have made it worse than the recorded first-sweep value.
    let after = d
        .get_cell(1, 1)
        .velocity
        .0
        .sub(d.get_cell(2, 1).velocity.0)
        .sub(d.get_cell(1, 2).velocity.1)
        .add(d.get_cell(1, 1).velocity.1)
        .bits;
    assert!(after.abs() <= recorded.abs());
}

#[test]
fn channel_run_stays_bounded_and_keeps_wall_rows_still() {
    // A 10 x 6 channel: walls on the rows y = 0 and y = 5, fluid
    // elsewhere, timestep 0.1; u = 10 injected on the left and right
    // boundary faces every step, 50 steps.
    let mut d = FluidDomain::new(10, 6, Fixed::from_ratio(1, 10)).unwrap();
    for x in 0..10usize {
        d.set_cell_state(x, 0, CellState::Wall);
        d.set_cell_state(x, 5, CellState::Wall);
    }
    let ten = Fixed::from_int(10);
    for _ in 0..50 {
        for y in 1..5usize {
            let c = d.get_cell(0, y);
            d.set_cell(
                0,
                y,
                FluidCell {
                    velocity: (ten, c.velocity.1),
                    ..c
                },
            );
            let c = d.get_cell(9, y);
            d.set_cell(
                9,
                y,
                FluidCell {
                    velocity: (ten, c.velocity.1),
                    ..c
                },
            );
        }
        for x in 0..10usize {
            for y in 0..6usize {
                let c = d.get_cell(x, y);
                d.set_cell(
                    x,
                    y,
                    FluidCell {
                        pressure: Fixed::zero(),
                        ..c
                    },
                );
            }
        }
        d.solve_grid_incompressibility();
        d.apply_advection();
        for x in 0..10usize {
            for y in 0..6usize {
                let c = d.get_cell(x, y);
                // The saturating scalars have no infinity; a value at
                // the saturation rail would be the analogue of one.
                assert!(c.velocity.0.bits.abs() < i64::MAX);
                assert!(c.velocity.1.bits.abs() < i64::MAX);
                assert!(c.pressure.bits.abs() < i64::MAX);
            }
            // u stays exactly zero on every cell of the wall rows.
            assert_eq!(d.get_cell(x, 0).velocity.0.bits, 0);
            assert_eq!(d.get_cell(x, 5).velocity.0.bits, 0);
        }
        assert_wall_faces_zero(&d);
    }
}

#[test]
fn one_sweep_applies_the_exact_correction_and_pressure_formula() {
    // A 3 x 3 grid has a single interior cell (1, 1) with four fluid
    // neighbors.  With u(1,1) = 1 its raw divergence is exactly 1; one
    // sweep scales it by 1.9, splits it over 4 open faces and applies
    // the pressure correction share * density / timestep.  All values
    // below are the exact Q31.32 results of those operations.
    let mut d = FluidDomain::new(3, 3, Fixed::from_ratio(1, 10)).unwrap();
    d.sweeps = 1;
    let c = d.get_cell(1, 1);
    d.set_cell(
        1,
        1,
        FluidCell {
            velocity: (Fixed::from_int(1), c.velocity.1),
            ..c
        },
    );
    d.solve_grid_incompressibility();
    let c = d.get_cell(1, 1);
    assert_eq!(c.divergence.bits, 4294967296);
    // share = trunc(trunc(1.0 * 1.9) / 4)
    assert_eq!(c.velocity.1.bits, -2040109465);
    assert_eq!(d.get_cell(1, 2).velocity.1.bits, 2040109465);
    assert_eq!(c.velocity.0.bits, 4294967296 - 2040109465);
    assert_eq!(d.get_cell(2, 1).velocity.0.bits, 2040109465);
    // pressure -= share * (density / timestep)
    assert_eq!(c.pressure.bits, -20401094678499);
}

#[test]
fn advection_resamples_exactly_when_the_backtrace_lands_on_a_sample() {
    // With timestep 1/2 and u(2,2) = 2, the u face of (2, 2) traces
    // back by exactly one cell and lands on the stored u sample of
    // (1, 2); with all v zero the resampled value is u(1,2), bit for
    // bit.
    let mut d = FluidDomain::new(5, 4, Fixed::from_ratio(1, 2)).unwrap();
    let a = Fixed::from_ratio(13, 4);
    let c = d.get_cell(1, 2);
    d.set_cell(
        1,
        2,
        FluidCell {
            velocity: (a, c.velocity.1),
            ..c
        },
    );
    let c = d.get_cell(2, 2);
    d.set_cell(
        2,
        2,
        FluidCell {
            velocity: (Fixed::from_int(2), c.velocity.1),
            ..c
        },
    );
    d.apply_advection();
    assert_eq!(d.get_cell(2, 2).velocity.0.bits, a.bits);
}
