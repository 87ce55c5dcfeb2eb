use rust_md::lattice::{lattice_sites, placement_plan};
use rust_md::pairs::{interaction_partners, pair_schedule};
use rust_md::phase::{advance, StepAction, StepStage};
use rust_md::potential::{canonical_name, grav_mass_factor, parse_potential, PotentialKind};

#[test]
fn parse_lj() {
    let r = parse_potential(&String::from("lj"));
    assert_eq!(r.unwrap(), PotentialKind::LennardJones);
}

#[test]
fn parse_gravitational() {
    let r = parse_potential(&String::from("gravitational"));
    assert_eq!(r.unwrap(), PotentialKind::Gravitational);
}

#[test]
fn parse_unknown_name_reports_the_name() {
    let r = parse_potential(&String::from("buckingham"));
    match r {
        Ok(_) => panic!("an unsupported potential name must be rejected"),
        Err(e) => assert_eq!(e.name, "buckingham"),
    }
}

#[test]
fn parse_is_case_sensitive_and_exact() {
    assert!(parse_potential(&String::from("LJ")).is_err());
    assert!(parse_potential(&String::from("lj ")).is_err());
    assert!(parse_potential(&String::from("")).is_err());
}

#[test]
fn canonical_names_round_trip() {
    for kind in [PotentialKind::LennardJones, PotentialKind::Gravitational] {
        let name = String::from(canonical_name(kind));
        assert_eq!(parse_potential(&name).unwrap(), kind);
    }
    assert_eq!(canonical_name(PotentialKind::LennardJones), "lj");
    assert_eq!(canonical_name(PotentialKind::Gravitational), "gravitational");
}

#[test]
fn grav_mass_factor_is_the_product() {
    assert_eq!(grav_mass_factor(3, 4), 12);
    assert_eq!(grav_mass_factor(1, 1), 1);
    assert_eq!(grav_mass_factor(-2, 5), -10);
    assert_eq!(grav_mass_factor(0, 7), 0);
}

#[test]
fn grav_mass_factor_is_symmetric() {
    for (a, b) in [(3, 4), (-7, 11), (i32::MAX, 2), (i32::MIN, i32::MAX)] {
        assert_eq!(grav_mass_factor(a, b), grav_mass_factor(b, a));
    }
}

#[test]
fn grav_mass_factor_never_overflows() {
    assert_eq!(
        grav_mass_factor(i32::MAX, i32::MAX),
        2147483647i64 * 2147483647i64
    );
    assert_eq!(
        grav_mass_factor(i32::MIN, i32::MIN),
        (-2147483648i64) * (-2147483648i64)
    );
}

#[test]
fn empty_and_singleton_ensembles_have_no_pairs() {
    assert_eq!(pair_schedule(0), Vec::<(usize, usize)>::new());
    assert_eq!(pair_schedule(1), Vec::<(usize, usize)>::new());
}

#[test]
fn two_particles_interact_once() {
    assert_eq!(pair_schedule(2), vec![(0, 1)]);
}

#[test]
fn schedule_of_four_particles() {
    assert_eq!(
        pair_schedule(4),
        vec![(0, 1), (0, 2), (0, 3), (1, 2), (1, 3), (2, 3)]
    );
}

#[test]
fn schedule_writes_only_to_the_lower_index() {
    // The pass accumulates each pair's force into the first component only;
    // every first component is the lower index of its pair.
    for (i, j) in pair_schedule(7) {
        assert!(i < j);
        assert!(j < 7);
    }
}

#[test]
fn schedule_visits_each_pair_exactly_once() {
    let n = 6;
    let schedule = pair_schedule(n);
    assert_eq!(schedule.len(), n * (n - 1) / 2);
    for a in 0..n {
        for b in (a + 1)..n {
            assert_eq!(schedule.iter().filter(|p| **p == (a, b)).count(), 1);
        }
    }
}

#[test]
fn partners_are_the_later_indices() {
    assert_eq!(interaction_partners(0, 4), vec![1, 2, 3]);
    assert_eq!(interaction_partners(2, 4), vec![3]);
    assert_eq!(interaction_partners(3, 4), Vec::<usize>::new());
    assert_eq!(interaction_partners(9, 4), Vec::<usize>::new());
}

#[test]
fn partner_rows_flatten_to_the_schedule() {
    let n = 5;
    let mut flattened: Vec<(usize, usize)> = Vec::new();
    for i in 0..n {
        for j in interaction_partners(i, n) {
            flattened.push((i, j));
        }
    }
    assert_eq!(flattened, pair_schedule(n));
}

#[test]
fn step_cycle_accepts_the_three_phases_in_order() {
    let s1 = advance(StepStage::PositionUpdate, StepAction::UpdatePositions);
    assert_eq!(s1, Ok(StepStage::ForceComputation));
    let s2 = advance(StepStage::ForceComputation, StepAction::ComputeForces);
    assert_eq!(s2, Ok(StepStage::VelocityUpdate));
    let s3 = advance(StepStage::VelocityUpdate, StepAction::UpdateVelocities);
    assert_eq!(s3, Ok(StepStage::PositionUpdate));
}

#[test]
fn velocity_update_is_rejected_without_fresh_forces() {
    // One accepted velocity update ends the step; a second one without an
    // intervening force computation would double-count the archived forces
    // and must be rejected.
    let after = advance(StepStage::VelocityUpdate, StepAction::UpdateVelocities).unwrap();
    let repeat = advance(after, StepAction::UpdateVelocities);
    match repeat {
        Ok(_) => panic!("a repeated velocity update must be rejected"),
        Err(e) => {
            assert_eq!(e.stage, StepStage::PositionUpdate);
            assert_eq!(e.action, StepAction::UpdateVelocities);
        }
    }
}

#[test]
fn out_of_order_actions_are_rejected() {
    assert!(advance(StepStage::PositionUpdate, StepAction::ComputeForces).is_err());
    assert!(advance(StepStage::PositionUpdate, StepAction::UpdateVelocities).is_err());
    assert!(advance(StepStage::ForceComputation, StepAction::UpdatePositions).is_err());
    assert!(advance(StepStage::VelocityUpdate, StepAction::ComputeForces).is_err());
}

#[test]
fn lattice_patch_is_row_major() {
    assert_eq!(lattice_sites(0, 2), vec![(0, 0), (0, 1), (1, 0), (1, 1)]);
    assert_eq!(
        lattice_sites(-1, 2),
        vec![(-1, -1), (-1, 0), (0, -1), (0, 0)]
    );
}

#[test]
fn lattice_patch_size_is_edge_squared() {
    assert_eq!(lattice_sites(3, 3).len(), 9);
    assert_eq!(lattice_sites(5, 1), vec![(5, 5)]);
    assert_eq!(lattice_sites(0, 0), Vec::<(i32, i32)>::new());
    assert_eq!(lattice_sites(0, -4), Vec::<(i32, i32)>::new());
}

#[test]
fn placement_plan_tags_sites_with_their_object() {
    let objects = vec![(0, 1), (5, 2)];
    assert_eq!(
        placement_plan(&objects),
        vec![(0, 0, 0), (1, 5, 5), (1, 5, 6), (1, 6, 5), (1, 6, 6)]
    );
}

#[test]
fn placement_plan_of_no_objects_is_empty() {
    let objects: Vec<(i32, i32)> = Vec::new();
    assert_eq!(placement_plan(&objects), Vec::<(usize, i32, i32)>::new());
}
