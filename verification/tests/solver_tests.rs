use vantamorph::{
    identity_assignment, solve, total_cost_exec, Algorithm, CancelFlag, GenerationSettings,
    GridError, Particle, ParticleGrid, ProgressMsg, SolveError, SolveOutcome, SolverJob,
    PROGRESS_FULL, UNIT,
};

fn corner(x: i64, y: i64) -> Particle {
    Particle { x, y, red: 255, green: 255, blue: 255 }
}

/// The four corners of the normalized unit square, in fixed-point.
fn square_corners() -> Vec<Particle> {
    vec![corner(0, 0), corner(UNIT, 0), corner(UNIT, UNIT), corner(0, UNIT)]
}

/// Target particle `j` sits at the position of source corner `(j + 1) % 4`.
fn rotated_corners() -> Vec<Particle> {
    vec![corner(UNIT, 0), corner(UNIT, UNIT), corner(0, UNIT), corner(0, 0)]
}

fn run_to_completion(job: &mut SolverJob) -> Vec<ProgressMsg> {
    let mut log = Vec::new();
    while job.is_running() {
        let mut msgs = job.step(false);
        log.append(&mut msgs);
    }
    log
}

fn assert_is_permutation(a: &[usize], n: usize) {
    assert_eq!(a.len(), n);
    let mut seen = vec![false; n];
    for &v in a {
        assert!(v < n, "entry {} out of range {}", v, n);
        assert!(!seen[v], "entry {} repeated", v);
        seen[v] = true;
    }
    assert!(seen.iter().all(|&b| b), "some target index is missing");
}

/// A gradient image as raw RGB bytes for a `sidelen`-wide grid.
fn gradient_pixels(sidelen: u32, offset: u8) -> Vec<u8> {
    let n = (sidelen * sidelen) as usize;
    let mut rgb = Vec::with_capacity(3 * n);
    for i in 0..n {
        rgb.push((i as u8).wrapping_add(offset));
        rgb.push((i as u8).wrapping_mul(7).wrapping_add(offset));
        rgb.push((i as u8).wrapping_mul(31));
    }
    rgb
}

#[test]
fn corner_rotation_scenario_optimal() {
    let src = ParticleGrid::from_particles(2, square_corners()).unwrap();
    let tgt = ParticleGrid::from_particles(2, rotated_corners()).unwrap();
    let mut job = SolverJob::new(&src, &tgt, 0, Algorithm::Optimal).unwrap();

    // the identity pairing walks each corner one side of the square
    let identity = identity_assignment(4);
    let id_cost =
        total_cost_exec(&src.particles, &tgt.particles, &identity, 0);
    assert_eq!(id_cost, 4 * UNIT);

    let log = run_to_completion(&mut job);
    let done = match log.last().unwrap() {
        ProgressMsg::Done(a) => a.clone(),
        other => panic!("expected Done, got {:?}", other),
    };
    // each source corner goes to the target corner at its own position:
    // the rotation itself, at no spatial cost
    assert_eq!(done, vec![3, 0, 1, 2]);
    let cost = total_cost_exec(&src.particles, &tgt.particles, &done, 0);
    assert_eq!(cost, 0);
    assert!(cost <= id_cost);
}

#[test]
fn optimal_returns_permutation_small_grid() {
    let src = ParticleGrid::from_pixels(3, &gradient_pixels(3, 0)).unwrap();
    let tgt = ParticleGrid::from_pixels(3, &gradient_pixels(3, 128)).unwrap();
    let mut job = SolverJob::new(&src, &tgt, 25, Algorithm::Optimal).unwrap();
    let log = run_to_completion(&mut job);
    match log.last().unwrap() {
        ProgressMsg::Done(a) => assert_is_permutation(a, 9),
        other => panic!("expected Done, got {:?}", other),
    }
}

#[test]
fn heuristic_returns_permutation_small_grid() {
    let src = ParticleGrid::from_pixels(3, &gradient_pixels(3, 0)).unwrap();
    let tgt = ParticleGrid::from_pixels(3, &gradient_pixels(3, 64)).unwrap();
    let mut job = SolverJob::new(&src, &tgt, 0, Algorithm::Heuristic).unwrap();
    let log = run_to_completion(&mut job);
    match log.last().unwrap() {
        ProgressMsg::Done(a) => assert_is_permutation(a, 9),
        other => panic!("expected Done, got {:?}", other),
    }
}

#[test]
fn optimal_never_beats_itself_with_identity() {
    // cost sanity: the returned assignment costs at most the identity
    let src = ParticleGrid::from_pixels(4, &gradient_pixels(4, 3)).unwrap();
    let tgt = ParticleGrid::from_pixels(4, &gradient_pixels(4, 200)).unwrap();
    let lambda = 50;
    let mut job = SolverJob::new(&src, &tgt, lambda, Algorithm::Optimal).unwrap();
    let log = run_to_completion(&mut job);
    let done = match log.last().unwrap() {
        ProgressMsg::Done(a) => a.clone(),
        other => panic!("expected Done, got {:?}", other),
    };
    let identity = identity_assignment(16);
    let id_cost = total_cost_exec(&src.particles, &tgt.particles, &identity, lambda);
    let cost = total_cost_exec(&src.particles, &tgt.particles, &done, lambda);
    assert!(cost <= id_cost);
}

#[test]
fn full_solve_progress_is_monotone_and_completes() {
    let sidelen = 64u32;
    let src = ParticleGrid::from_pixels(sidelen, &gradient_pixels(sidelen, 0)).unwrap();
    let tgt = ParticleGrid::from_pixels(sidelen, &gradient_pixels(sidelen, 90)).unwrap();
    let settings = GenerationSettings {
        sidelen,
        proximity_importance: 10,
        algorithm: Algorithm::Heuristic,
    };
    let cancel = CancelFlag::new();
    let run = solve(&src, &tgt, &settings, &cancel).unwrap();

    // the final permutation is delivered exactly once, at the end
    let n = (sidelen * sidelen) as usize;
    let done = match &run.outcome {
        SolveOutcome::Completed(a) => a.clone(),
        SolveOutcome::Cancelled => panic!("run was not cancelled"),
    };
    assert_is_permutation(&done, n);

    // progress values never decrease and end at full before Done
    let mut last = 0u32;
    for m in &run.log {
        if let ProgressMsg::Progress(p) = m {
            assert!(*p >= last, "progress went from {} down to {}", last, p);
            assert!(*p <= PROGRESS_FULL);
            last = *p;
        }
    }
    assert_eq!(last, PROGRESS_FULL);
    let len = run.log.len();
    assert!(matches!(run.log[len - 1], ProgressMsg::Done(_)));
    assert!(matches!(run.log[len - 2], ProgressMsg::Progress(p) if p == PROGRESS_FULL));
    for m in &run.log[..len - 1] {
        assert!(!matches!(
            m,
            ProgressMsg::Done(_) | ProgressMsg::Cancelled | ProgressMsg::Error(_)
        ));
    }
}

#[test]
fn cancellation_yields_exactly_one_cancelled_and_no_done() {
    let sidelen = 64u32;
    let src = ParticleGrid::from_pixels(sidelen, &gradient_pixels(sidelen, 0)).unwrap();
    let tgt = ParticleGrid::from_pixels(sidelen, &gradient_pixels(sidelen, 50)).unwrap();
    let settings = GenerationSettings {
        sidelen,
        proximity_importance: 0,
        algorithm: Algorithm::Heuristic,
    };
    let cancel = CancelFlag::new();
    cancel.request();
    let run = solve(&src, &tgt, &settings, &cancel).unwrap();
    assert!(matches!(run.outcome, SolveOutcome::Cancelled));
    let cancelled = run
        .log
        .iter()
        .filter(|m| matches!(m, ProgressMsg::Cancelled))
        .count();
    assert_eq!(cancelled, 1);
    assert!(matches!(run.log.last().unwrap(), ProgressMsg::Cancelled));
    assert!(!run.log.iter().any(|m| matches!(m, ProgressMsg::Done(_))));
}

#[test]
fn step_cancels_within_one_work_unit() {
    let src = ParticleGrid::from_particles(2, square_corners()).unwrap();
    let tgt = ParticleGrid::from_particles(2, rotated_corners()).unwrap();
    let mut job = SolverJob::new(&src, &tgt, 0, Algorithm::Optimal).unwrap();
    let msgs = job.step(true);
    assert_eq!(msgs.len(), 1);
    assert!(matches!(msgs[0], ProgressMsg::Cancelled));
    assert!(!job.is_running());
    // a terminal job stays silent
    let more = job.step(false);
    assert!(more.is_empty());
}

#[test]
fn settings_out_of_range_is_rejected_synchronously() {
    let src = ParticleGrid::from_pixels(2, &gradient_pixels(2, 0)).unwrap();
    let tgt = ParticleGrid::from_pixels(2, &gradient_pixels(2, 1)).unwrap();
    let cancel = CancelFlag::new();
    let small = GenerationSettings {
        sidelen: 32,
        proximity_importance: 0,
        algorithm: Algorithm::Optimal,
    };
    assert_eq!(solve(&src, &tgt, &small, &cancel).unwrap_err(), SolveError::SettingsOutOfRange);
    let heavy = GenerationSettings {
        sidelen: 64,
        proximity_importance: 51,
        algorithm: Algorithm::Optimal,
    };
    assert_eq!(solve(&src, &tgt, &heavy, &cancel).unwrap_err(), SolveError::SettingsOutOfRange);
}

#[test]
fn grid_size_mismatch_is_rejected_synchronously() {
    let src = ParticleGrid::from_pixels(2, &gradient_pixels(2, 0)).unwrap();
    let tgt = ParticleGrid::from_pixels(2, &gradient_pixels(2, 1)).unwrap();
    let cancel = CancelFlag::new();
    let settings = GenerationSettings {
        sidelen: 64,
        proximity_importance: 0,
        algorithm: Algorithm::Optimal,
    };
    assert_eq!(solve(&src, &tgt, &settings, &cancel).unwrap_err(), SolveError::SizeMismatch);
}

#[test]
fn mismatched_grids_refuse_a_job() {
    let src = ParticleGrid::from_pixels(2, &gradient_pixels(2, 0)).unwrap();
    let tgt = ParticleGrid::from_pixels(3, &gradient_pixels(3, 0)).unwrap();
    assert_eq!(
        SolverJob::new(&src, &tgt, 0, Algorithm::Optimal).unwrap_err(),
        SolveError::SizeMismatch
    );
}

#[test]
fn grid_construction_errors() {
    assert_eq!(
        ParticleGrid::from_pixels(0, &vec![]).unwrap_err(),
        GridError::BadSideLength
    );
    assert_eq!(
        ParticleGrid::from_pixels(300, &vec![]).unwrap_err(),
        GridError::BadSideLength
    );
    assert_eq!(
        ParticleGrid::from_pixels(2, &vec![0u8; 11]).unwrap_err(),
        GridError::WrongDataLength
    );
    let mut bad = square_corners();
    bad[2].x = -1;
    assert_eq!(
        ParticleGrid::from_particles(2, bad).unwrap_err(),
        GridError::PositionOutOfRange
    );
    let short = vec![corner(0, 0)];
    assert_eq!(
        ParticleGrid::from_particles(2, short).unwrap_err(),
        GridError::WrongDataLength
    );
}

#[test]
fn from_pixels_places_cell_centers() {
    let rgb: Vec<u8> = vec![
        10, 11, 12, //
        20, 21, 22, //
        30, 31, 32, //
        40, 41, 42,
    ];
    let g = ParticleGrid::from_pixels(2, &rgb).unwrap();
    assert_eq!(g.particles.len(), 4);
    // cell centers: (2k + 1) * UNIT / 4 for k in {0, 1}
    let lo = UNIT / 4;
    let hi = 3 * UNIT / 4;
    assert_eq!((g.particles[0].x, g.particles[0].y), (lo, lo));
    assert_eq!((g.particles[1].x, g.particles[1].y), (hi, lo));
    assert_eq!((g.particles[2].x, g.particles[2].y), (lo, hi));
    assert_eq!((g.particles[3].x, g.particles[3].y), (hi, hi));
    assert_eq!(
        (g.particles[2].red, g.particles[2].green, g.particles[2].blue),
        (30, 31, 32)
    );
}

#[test]
fn preview_messages_carry_grid_sized_images() {
    let src = ParticleGrid::from_pixels(3, &gradient_pixels(3, 0)).unwrap();
    let tgt = ParticleGrid::from_pixels(3, &gradient_pixels(3, 77)).unwrap();
    let mut job = SolverJob::new(&src, &tgt, 0, Algorithm::Heuristic).unwrap();
    let log = run_to_completion(&mut job);
    let mut saw_preview = false;
    for m in &log {
        if let ProgressMsg::UpdatePreview { width, height, data } = m {
            assert_eq!(*width, 3);
            assert_eq!(*height, 3);
            assert_eq!(data.len(), 3 * 9);
            saw_preview = true;
        }
        if let ProgressMsg::UpdateAssignments(a) = m {
            assert_is_permutation(a, 9);
        }
    }
    assert!(saw_preview);
}
