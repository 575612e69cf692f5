use visual_odometry::colormap::viridis_u8;
use visual_odometry::inverse_depth::{extract_z, fuse, zip_mask_map, InverseDepth};
use visual_odometry::keyframe::usable_candidates_multires;
use visual_odometry::lm::{
    stop_criterion, Action, Continue, Kept, LmControl, StepEvent, StepOutcome, INITIAL_LM_EXPONENT,
    MAX_ITERATIONS,
};
use visual_odometry::matrix::Matrix;

type Id = InverseDepth<u32>;

fn mean((z1, v1): (u32, u32), (z2, v2): (u32, u32), (z3, v3): (u32, u32), (z4, v4): (u32, u32)) -> Id {
    Id::WithVariance((z1 + z2 + z3 + z4) / 4, (v1 + v2 + v3 + v4) / 16)
}

fn spread_limited(a: (u32, u32), b: (u32, u32), c: (u32, u32), d: (u32, u32)) -> Id {
    let zs = [a.0, b.0, c.0, d.0];
    let lo = *zs.iter().min().unwrap();
    let hi = *zs.iter().max().unwrap();
    if hi - lo > 2 { Id::Discarded } else { mean(a, b, c, d) }
}

#[test]
fn fuse_all_valid_combines() {
    let r = fuse(
        Id::WithVariance(4, 16),
        Id::WithVariance(8, 16),
        Id::WithVariance(12, 16),
        Id::WithVariance(16, 16),
        mean,
    );
    assert_eq!(r, Id::WithVariance(10, 4));
}

#[test]
fn fuse_lets_the_strategy_discard() {
    let far = fuse(
        Id::WithVariance(4, 0),
        Id::WithVariance(4, 0),
        Id::WithVariance(9, 0),
        Id::WithVariance(4, 0),
        spread_limited,
    );
    assert_eq!(far, Id::Discarded);
    let near = fuse(
        Id::WithVariance(4, 0),
        Id::WithVariance(5, 0),
        Id::WithVariance(6, 0),
        Id::WithVariance(5, 0),
        spread_limited,
    );
    assert_eq!(near, Id::WithVariance(5, 0));
}

#[test]
fn fuse_some_valid_discards() {
    let r = fuse(Id::WithVariance(4, 1), Id::Unknown, Id::WithVariance(8, 1), Id::Discarded, mean);
    assert_eq!(r, Id::Discarded);
}

#[test]
fn fuse_none_valid_is_unknown() {
    assert_eq!(fuse(Id::Unknown, Id::Discarded, Id::Unknown, Id::Discarded, mean), Id::Unknown);
    assert_eq!(fuse(Id::Unknown, Id::Unknown, Id::Unknown, Id::Unknown, mean), Id::Unknown);
}

#[test]
fn zip_mask_map_maps_only_under_the_mask() {
    let depth = Matrix::from_column_vec(2, 2, vec![0u16, 5, 7, 9]).unwrap();
    let mask = Matrix::from_column_vec(2, 2, vec![true, true, false, true]).unwrap();
    let r = zip_mask_map(&depth, &mask, Id::Unknown, |d: u16| {
        if d == 0 { Id::Unknown } else { Id::WithVariance(d as u32, 1) }
    });
    assert_eq!(r.as_slice(), &[Id::Unknown, Id::WithVariance(5, 1), Id::Unknown, Id::WithVariance(9, 1)]);
}

#[test]
fn extract_z_lists_columns_then_rows() {
    // 2 rows, 3 columns, column-major.
    let m = Matrix::from_column_vec(
        2,
        3,
        vec![Id::Unknown, Id::WithVariance(1, 0), Id::Discarded, Id::Unknown, Id::WithVariance(2, 0), Id::WithVariance(3, 0)],
    )
    .unwrap();
    let (coords, z) = extract_z(&m);
    assert_eq!(coords, vec![(0, 1), (2, 0), (2, 1)]);
    assert_eq!(z, vec![1, 2, 3]);
    let all = usable_candidates_multires(&vec![m]);
    assert_eq!(all.len(), 1);
    assert_eq!(all[0].1, vec![1, 2, 3]);
}

#[test]
fn uphill_step_is_rejected_and_damping_raised() {
    let d = stop_criterion(1, INITIAL_LM_EXPONENT, StepOutcome::Uphill);
    assert_eq!(d.kept, Kept::Previous);
    assert_eq!(d.lm_exponent, 0);
    assert_eq!(d.continuation, Continue::Forward);
}

#[test]
fn downhill_step_is_kept_and_damping_lowered() {
    let d = stop_criterion(3, 2, StepOutcome::Downhill { sufficient: true });
    assert_eq!((d.kept, d.lm_exponent, d.continuation), (Kept::New, 1, Continue::Forward));
    let d = stop_criterion(3, 2, StepOutcome::Downhill { sufficient: false });
    assert_eq!((d.kept, d.lm_exponent, d.continuation), (Kept::New, 1, Continue::Stop));
}

#[test]
fn too_many_iterations_stop() {
    let d = stop_criterion(MAX_ITERATIONS + 1, 4, StepOutcome::Uphill);
    assert_eq!((d.kept, d.lm_exponent, d.continuation), (Kept::Previous, 4, Continue::Stop));
    let d = stop_criterion(MAX_ITERATIONS + 1, 4, StepOutcome::Downhill { sufficient: true });
    assert_eq!((d.kept, d.lm_exponent, d.continuation), (Kept::New, 4, Continue::Stop));
    let d = stop_criterion(MAX_ITERATIONS, 4, StepOutcome::Uphill);
    assert_eq!(d.continuation, Continue::Forward);
}

#[test]
fn no_step_fails_the_level() {
    let (c, a) = LmControl::new().advance(StepEvent::NoStep);
    assert_eq!(a, Action::Fail);
    assert_eq!(c.nb_iter, 1);
}

#[test]
fn repeated_uphill_steps_end_after_the_cap() {
    let mut c = LmControl::new();
    let mut turns = 0;
    loop {
        let (next, a) = c.advance(StepEvent::Evaluated(StepOutcome::Uphill));
        turns += 1;
        c = next;
        match a {
            Action::Step(k) => assert_eq!(k, Kept::Previous),
            Action::Done(k) => {
                assert_eq!(k, Kept::Previous);
                break;
            }
            Action::Fail => panic!("no failure expected"),
        }
    }
    assert_eq!(turns, MAX_ITERATIONS + 1);
    assert_eq!(c.lm_exponent, INITIAL_LM_EXPONENT + MAX_ITERATIONS as i32);
}

#[test]
fn viridis_table() {
    let v = viridis_u8();
    assert_eq!(v.len(), 256);
    assert_eq!(v[0], (68, 1, 84));
    assert_eq!(v[128], (33, 145, 140));
    assert_eq!(v[255], (253, 231, 37));
}
