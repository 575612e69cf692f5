use visual_odometry::candidates::{prune_with_thresh, select, select_2x2_bloc};
use visual_odometry::keyframe::keyframe_gradients;
use visual_odometry::matrix::Matrix;
use visual_odometry::multires::mean_pyramid;

#[test]
fn prune_keeps_the_largest() {
    assert_eq!(prune_with_thresh(0, (1, 9, 3, 4)), (false, true, false, false));
}

#[test]
fn prune_keeps_the_second_when_close() {
    // 9 - 7 = 2 < 3: the second largest is kept too.
    assert_eq!(prune_with_thresh(3, (1, 9, 7, 4)), (false, true, true, false));
    // 7 + 2 is not above 9.
    assert_eq!(prune_with_thresh(2, (1, 9, 7, 4)), (false, true, false, false));
}

#[test]
fn prune_breaks_ties_toward_the_later_value() {
    assert_eq!(prune_with_thresh(0, (5, 5, 5, 5)), (false, false, false, true));
    // Equal values are within any positive threshold of each other.
    assert_eq!(prune_with_thresh(1, (5, 5, 5, 5)), (false, false, true, true));
    assert_eq!(prune_with_thresh(0, (7, 2, 7, 1)), (false, false, true, false));
}

#[test]
fn prune_does_not_overflow_near_the_top() {
    assert_eq!(prune_with_thresh(u16::MAX, (u16::MAX, u16::MAX - 1, 0, 0)), (true, true, false, false));
}

#[test]
fn refinement_only_inside_candidate_blocks() {
    let pre = Matrix::from_column_vec(1, 2, vec![true, false]).unwrap();
    let grad = Matrix::from_column_vec(2, 4, vec![1u16, 2, 3, 9, 9, 9, 9, 9]).unwrap();
    let mask = select_2x2_bloc(&pre, &grad, 0);
    assert_eq!(mask.shape(), (2, 4));
    assert_eq!(mask.as_slice(), &[false, false, false, true, false, false, false, false]);
}

#[test]
fn select_goes_from_coarse_to_fine() {
    let fine = Matrix::from_column_vec(2, 2, vec![4u16, 1, 2, 3]).unwrap();
    let coarse = Matrix::from_column_vec(1, 1, vec![0u16]).unwrap();
    let masks = select(0, &vec![fine, coarse]);
    assert_eq!(masks.len(), 2);
    assert_eq!(masks[0].as_slice(), &[true]);
    assert_eq!(masks[1].as_slice(), &[true, false, false, false]);
}

#[test]
fn keyframe_gradients_on_a_small_pyramid() {
    let cells: Vec<u8> = (0..16u32).map(|k| (k * k % 251) as u8).collect();
    let img = Matrix::from_column_vec(4, 4, cells).unwrap();
    let pyr = mean_pyramid(2, img);
    let kf = keyframe_gradients(10, &pyr);
    assert_eq!(kf.gradients_multires.len(), 2);
    assert_eq!(kf.gradients_squared_norm_multires.len(), 2);
    assert_eq!(kf.candidates_points.shape(), (4, 4));
    // Level 0 pixel (1,1): right = img(1,2) = 81, left = img(1,0) = 1.
    assert_eq!(kf.gradients_multires[0].0.get(1, 1), 40);
    // Each 2x2 block keeps at least one candidate.
    let nb = kf.candidates_points.as_slice().iter().filter(|&&b| b).count();
    assert!(nb >= 4);
    let mut expected = select(10, &kf.gradients_squared_norm_multires);
    assert_eq!(kf.candidates_points.as_slice(), expected.pop().unwrap().as_slice());
}
