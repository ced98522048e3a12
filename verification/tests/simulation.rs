use jacobi::sim::{SimConfig, Simulation};
use jacobi::{SimError, FIELD_MAX, FX_SCALE};

fn base_config() -> SimConfig {
    SimConfig {
        width: 256,
        height: 256,
        frames: 200,
        jacobi_iters: 50,
        source_x: 126,
        source_y: 0,
        source_width: 4,
        source_vel_x: 0,
        source_vel_y: 3 * FX_SCALE,
        source_color: FX_SCALE,
    }
}

#[test]
fn config_rejects_bad_dimensions() {
    let mut c = base_config();
    c.width = 0;
    c.height = 0;
    assert!(matches!(Simulation::new(c), Err(SimError::Configuration)));

    let mut c = base_config();
    c.height = 32;
    assert!(matches!(Simulation::new(c), Err(SimError::Configuration)));

    let mut c = base_config();
    c.width = 1;
    c.height = 1;
    assert!(matches!(Simulation::new(c), Err(SimError::Configuration)));
}

#[test]
fn config_rejects_bad_counts_and_source() {
    let mut c = base_config();
    c.frames = 0;
    assert!(matches!(Simulation::new(c), Err(SimError::Configuration)));

    let mut c = base_config();
    c.jacobi_iters = 0;
    assert!(matches!(Simulation::new(c), Err(SimError::Configuration)));

    let mut c = base_config();
    c.source_x = 254;
    c.source_width = 4;
    assert!(matches!(Simulation::new(c), Err(SimError::Configuration)));

    let mut c = base_config();
    c.source_y = 256;
    assert!(matches!(Simulation::new(c), Err(SimError::Configuration)));

    let mut c = base_config();
    c.source_vel_y = FIELD_MAX + 1;
    assert!(matches!(Simulation::new(c), Err(SimError::Configuration)));
}

#[test]
fn config_accepts_default_shape() {
    let sim = Simulation::new(base_config()).unwrap();
    assert_eq!(sim.color.len(), 256 * 256);
    assert!(sim.color.iter().all(|&v| v == 0));
    assert!(sim.pressure.iter().all(|&v| v == 0));
}

#[test]
fn step_reports_numeric_anomaly_on_saturated_velocity() {
    // A velocity plane already at the representable limit makes the wall
    // divergence sum exceed the limit, which the driver detects.
    let c = SimConfig {
        width: 2,
        height: 2,
        frames: 1,
        jacobi_iters: 1,
        source_x: 0,
        source_y: 0,
        source_width: 1,
        source_vel_x: FIELD_MAX,
        source_vel_y: FIELD_MAX,
        source_color: 0,
    };
    let mut sim = Simulation::new(c).unwrap();
    sim.vel_x = vec![FIELD_MAX; 4];
    sim.vel_y = vec![FIELD_MAX; 4];
    assert_eq!(sim.step(), Err(SimError::NumericAnomaly));
}

#[test]
fn plume_scenario_stays_in_range() {
    // The full-size run: a 256x256 grid, the 4-neighbour stencil with
    // id_inverse -1/4, 50 Jacobi sweeps per frame, a 4-cell source band
    // at row 0 with velocity (0, 3) and full colour, for 200 frames.
    // Colour must stay inside the unit range every frame, colour mass
    // must not shrink beyond the resampling loss while the source is
    // active, and no step may report an anomaly.
    let cfg = base_config();
    let mut sim = Simulation::new(cfg).unwrap();
    let mut prev_mass: i64 = 0;
    for frame in 0..cfg.frames {
        assert_eq!(sim.step(), Ok(()), "frame {} failed", frame);
        let mut mass: i64 = 0;
        for &v in sim.color.iter() {
            assert!(0 <= v && v <= FX_SCALE, "colour {} out of range at frame {}", v, frame);
            mass += v;
        }
        // The backward-trace resampling is not exactly conservative:
        // allow it a small fraction of the mass per frame.
        assert!(
            mass >= prev_mass - prev_mass / 200,
            "colour mass shrank from {} to {} at frame {}",
            prev_mass,
            mass,
            frame
        );
        prev_mass = mass;
    }
    assert!(prev_mass > 0, "the source never left any colour behind");
}
