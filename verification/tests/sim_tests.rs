use vantamorph::{
    MotionParams, MotionSimulator, MotionStyle, Particle, ParticleGrid, SimError, UNIT,
};

fn corner(x: i64, y: i64, red: u8) -> Particle {
    Particle { x, y, red, green: 128, blue: 9 }
}

fn source_grid() -> ParticleGrid {
    ParticleGrid::from_particles(
        2,
        vec![
            corner(0, 0, 10),
            corner(UNIT, 0, 20),
            corner(UNIT, UNIT, 30),
            corner(0, UNIT, 40),
        ],
    )
    .unwrap()
}

fn target_grid() -> ParticleGrid {
    ParticleGrid::from_particles(
        2,
        vec![
            corner(UNIT / 2, UNIT / 4, 200),
            corner(UNIT / 4, UNIT / 2, 210),
            corner(UNIT / 8, UNIT / 8, 220),
            corner(UNIT, UNIT / 2, 230),
        ],
    )
    .unwrap()
}

fn params(style: MotionStyle) -> MotionParams {
    MotionParams {
        style,
        swirl_amount: UNIT / 2,
        turbulence: UNIT / 2,
        snap_strength: UNIT / 2,
    }
}

fn simulator(style: MotionStyle) -> MotionSimulator {
    MotionSimulator::new(
        source_grid(),
        target_grid(),
        vec![2, 3, 0, 1],
        params(style),
        UNIT / 4,
        false,
    )
    .unwrap()
}

const ALL_STYLES: [MotionStyle; 5] = [
    MotionStyle::Linear,
    MotionStyle::Float,
    MotionStyle::Swirl,
    MotionStyle::Dust,
    MotionStyle::MagnetSnap,
];

#[test]
fn every_style_is_exact_at_both_endpoints() {
    for style in ALL_STYLES {
        let sim = simulator(style);
        let mut st = sim.initial_state(false);

        st.phase = 0;
        sim.render(&mut st);
        for i in 0..4 {
            assert_eq!(st.outputs[i], sim.src[i], "style {:?} at phase 0", style);
        }

        st.phase = UNIT;
        sim.render(&mut st);
        for i in 0..4 {
            assert_eq!(
                st.outputs[i],
                sim.tgt[sim.assign[i]],
                "style {:?} at phase 1",
                style
            );
        }
    }
}

#[test]
fn forward_then_reverse_returns_to_the_source() {
    for style in ALL_STYLES {
        let sim = simulator(style);
        let mut st = sim.initial_state(false);
        // more than enough ticks to reach phase 1 (tick is UNIT / 4)
        for _ in 0..6 {
            sim.update(&mut st);
        }
        assert_eq!(st.phase, UNIT);
        sim.prepare_play(&mut st, true);
        for _ in 0..6 {
            sim.update(&mut st);
        }
        assert_eq!(st.phase, 0);
        for i in 0..4 {
            assert_eq!(st.outputs[i], sim.src[i], "style {:?} after round trip", style);
        }
    }
}

#[test]
fn set_assignments_with_wrong_length_leaves_state_alone() {
    let mut sim = simulator(MotionStyle::Linear);
    let before = sim.assign.clone();
    // a permutation of length N + 1 against a simulator configured for N
    let r = sim.set_assignments(vec![0, 1, 2, 3, 4]);
    assert_eq!(r.unwrap_err(), SimError::LengthMismatch);
    assert_eq!(sim.assign, before);

    let r2 = sim.set_assignments(vec![0, 1, 2, 9]);
    assert_eq!(r2.unwrap_err(), SimError::IndexOutOfRange);
    assert_eq!(sim.assign, before);

    assert!(sim.set_assignments(vec![1, 0, 3, 2]).is_ok());
    assert_eq!(sim.assign, vec![1, 0, 3, 2]);
}

#[test]
fn full_snap_matches_linear_then_jumps() {
    let full_snap = MotionParams {
        style: MotionStyle::MagnetSnap,
        swirl_amount: 0,
        turbulence: 0,
        snap_strength: UNIT,
    };
    let linear = MotionParams {
        style: MotionStyle::Linear,
        swirl_amount: 0,
        turbulence: 0,
        snap_strength: UNIT,
    };
    let magnet_sim = MotionSimulator::new(
        source_grid(),
        target_grid(),
        vec![2, 3, 0, 1],
        full_snap,
        UNIT / 4,
        false,
    )
    .unwrap();
    let linear_sim = MotionSimulator::new(
        source_grid(),
        target_grid(),
        vec![2, 3, 0, 1],
        linear,
        UNIT / 4,
        false,
    )
    .unwrap();
    let threshold = UNIT - UNIT / 2;

    let mut m_st = magnet_sim.initial_state(false);
    let mut l_st = linear_sim.initial_state(false);
    for phase in [0, 9000, 20000, threshold - 1] {
        m_st.phase = phase;
        l_st.phase = phase;
        magnet_sim.render(&mut m_st);
        linear_sim.render(&mut l_st);
        assert_eq!(m_st.outputs, l_st.outputs, "below threshold at phase {}", phase);
    }
    for phase in [threshold, threshold + 5000, UNIT] {
        m_st.phase = phase;
        magnet_sim.render(&mut m_st);
        for i in 0..4 {
            assert_eq!(
                m_st.outputs[i],
                magnet_sim.tgt[magnet_sim.assign[i]],
                "at or above threshold at phase {}",
                phase
            );
        }
    }
}

#[test]
fn update_advances_and_clamps_the_phase() {
    let sim = simulator(MotionStyle::Linear);
    let mut st = sim.initial_state(false);
    assert_eq!(st.phase, 0);
    sim.update(&mut st);
    assert_eq!(st.phase, UNIT / 4);
    for _ in 0..10 {
        sim.update(&mut st);
    }
    assert_eq!(st.phase, UNIT);
}

#[test]
fn looping_playback_wraps_at_the_end() {
    let sim = MotionSimulator::new(
        source_grid(),
        target_grid(),
        vec![0, 1, 2, 3],
        params(MotionStyle::Linear),
        UNIT / 2,
        true,
    )
    .unwrap();
    let mut st = sim.initial_state(false);
    sim.update(&mut st);
    sim.update(&mut st);
    assert_eq!(st.phase, UNIT);
    sim.update(&mut st);
    assert_eq!(st.phase, 0);
}

#[test]
fn simulator_rejects_bad_construction() {
    let r = MotionSimulator::new(
        source_grid(),
        target_grid(),
        vec![0, 1, 2],
        params(MotionStyle::Linear),
        UNIT / 4,
        false,
    );
    assert_eq!(r.err().unwrap(), SimError::LengthMismatch);
    let r2 = MotionSimulator::new(
        source_grid(),
        target_grid(),
        vec![0, 1, 2, 4],
        params(MotionStyle::Linear),
        UNIT / 4,
        false,
    );
    assert_eq!(r2.err().unwrap(), SimError::IndexOutOfRange);
}

#[test]
fn dust_and_float_scatter_mid_transition() {
    // mid-phase, the scatter styles leave the straight path
    let linear_sim = simulator(MotionStyle::Linear);
    let mut l_st = linear_sim.initial_state(false);
    l_st.phase = UNIT / 2;
    linear_sim.render(&mut l_st);
    for style in [MotionStyle::Float, MotionStyle::Dust] {
        let sim = simulator(style);
        let mut st = sim.initial_state(false);
        st.phase = UNIT / 2;
        sim.render(&mut st);
        let moved = (0..4).any(|i| {
            st.outputs[i].x != l_st.outputs[i].x || st.outputs[i].y != l_st.outputs[i].y
        });
        assert!(moved, "style {:?} never left the straight path", style);
    }
}

#[test]
fn motion_style_labels() {
    assert_eq!(MotionStyle::Linear.label(), "Linear");
    assert_eq!(MotionStyle::Float.label(), "Float");
    assert_eq!(MotionStyle::Swirl.label(), "Swirl");
    assert_eq!(MotionStyle::Dust.label(), "Dust");
    assert_eq!(MotionStyle::MagnetSnap.label(), "Magnet Snap");
    assert_eq!(MotionStyle::default(), MotionStyle::Linear);
}
