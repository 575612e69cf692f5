use visual_odometry::matrix::Matrix;
use visual_odometry::multires::{
    grad_squared_norm, gradients_xy, halve, im_gradient, limited_sequence, mean_pyramid,
};

fn image(rows: usize, cols: usize, cells: Vec<u8>) -> Matrix<u8> {
    Matrix::from_column_vec(rows, cols, cells).unwrap()
}

fn pixel_sum(m: &Matrix<u8>) -> u64 {
    m.as_slice().iter().map(|&p| p as u64).sum()
}

#[test]
fn from_column_vec_checks_the_length() {
    assert!(Matrix::from_column_vec(2, 3, vec![0u8; 6]).is_some());
    assert!(Matrix::from_column_vec(2, 3, vec![0u8; 5]).is_none());
    assert!(Matrix::from_column_vec(0, 3, Vec::<u8>::new()).is_some());
}

#[test]
fn cells_are_stored_column_by_column() {
    let mut m = image(2, 3, vec![1, 2, 3, 4, 5, 6]);
    assert_eq!(m.get(1, 0), 2);
    assert_eq!(m.get(0, 2), 5);
    assert_eq!(m.shape(), (2, 3));
    m.set(1, 2, 9);
    assert_eq!(m.as_slice(), &[1, 2, 3, 4, 5, 9]);
}

#[test]
fn filled_matrix() {
    let m = Matrix::filled(3, 2, true);
    assert_eq!(m.as_slice(), &[true; 6]);
    assert_eq!((m.nrows(), m.ncols()), (3, 2));
}

#[test]
fn halve_takes_the_floor_of_block_means() {
    // Column-major 4x4: column j holds rows 0..4.
    let img = image(
        4,
        4,
        vec![
            0, 1, 10, 11, //
            2, 3, 12, 13, //
            20, 21, 40, 40, //
            22, 23, 40, 41,
        ],
    );
    let pyr = mean_pyramid(3, img);
    assert_eq!(pyr.len(), 3);
    assert_eq!(pyr[1].shape(), (2, 2));
    // Block (0,0): 0+1+2+3 = 6 -> 1; block (1,0): 10+11+12+13 = 46 -> 11;
    // block (0,1): 20+21+22+23 = 86 -> 21; block (1,1): 40+40+40+41 = 161 -> 40.
    assert_eq!(pyr[1].as_slice(), &[1, 11, 21, 40]);
    // (1 + 11 + 21 + 40) / 4 = 73 / 4 = 18.
    assert_eq!(pyr[2].as_slice(), &[18]);
}

#[test]
fn pyramid_stops_when_a_level_cannot_be_halved() {
    let img = image(4, 2, vec![8; 8]);
    let pyr = mean_pyramid(5, img);
    assert_eq!(pyr.len(), 2);
    assert_eq!(pyr[1].shape(), (2, 1));
    assert_eq!(pyr[1].as_slice(), &[8, 8]);
}

#[test]
fn pyramid_has_at_most_the_requested_levels() {
    let img = image(8, 8, vec![3; 64]);
    let pyr = mean_pyramid(2, img);
    assert_eq!(pyr.len(), 2);
    assert_eq!(pyr[0].shape(), (8, 8));
    assert_eq!(pyr[1].shape(), (4, 4));
}

#[test]
fn halve_drops_an_odd_last_row_and_column() {
    let img = image(3, 3, vec![4, 8, 200, 4, 8, 200, 200, 200, 200]);
    let h = halve(&img, |a: u8, b: u8, c: u8, d: u8| a as u32 + b as u32 + c as u32 + d as u32).unwrap();
    assert_eq!(h.shape(), (1, 1));
    assert_eq!(h.as_slice(), &[24]);
    let thin = image(1, 4, vec![1, 2, 3, 4]);
    assert!(halve(&thin, |a: u8, _b: u8, _c: u8, _d: u8| a).is_none());
}

#[test]
fn limited_sequence_applies_the_given_fusion() {
    let m = Matrix::from_column_vec(2, 2, vec![1u32, 2, 3, 4]).unwrap();
    let seq = limited_sequence(3, m, |a: u32, b: u32, c: u32, d: u32| a.max(b).max(c).max(d));
    assert_eq!(seq.len(), 2);
    assert_eq!(seq[1].as_slice(), &[4]);
}

#[test]
fn mean_pyramid_sum_is_a_quarter_up_to_rounding() {
    let cells: Vec<u8> = (0..64u32).map(|k| ((k * 37 + 11) % 256) as u8).collect();
    let pyr = mean_pyramid(3, image(8, 8, cells));
    for level in 1..pyr.len() {
        let fine = pixel_sum(&pyr[level - 1]);
        let coarse = pixel_sum(&pyr[level]);
        let (rows, cols) = pyr[level].shape();
        assert!(4 * coarse <= fine);
        assert!(fine <= 4 * coarse + 3 * (rows * cols) as u64);
    }
}

#[test]
fn full_resolution_gradient_is_halved_toward_zero() {
    // 3x3, column-major; centre pixel (1,1).
    let img = image(3, 3, vec![0, 5, 0, 3, 9, 0, 0, 0, 0]);
    let (gx, gy) = im_gradient(&img);
    // gx(1,1) = (img(1,2) - img(1,0)) / 2 = (0 - 5) / 2 = -2 (toward zero).
    assert_eq!(gx.get(1, 1), -2);
    // gy(1,1) = (img(2,1) - img(0,1)) / 2 = (0 - 3) / 2 = -1 (toward zero).
    assert_eq!(gy.get(1, 1), -1);
    for (i, j) in [(0, 0), (0, 1), (1, 0), (2, 2), (1, 2), (2, 1)] {
        assert_eq!(gx.get(i, j), 0);
        assert_eq!(gy.get(i, j), 0);
    }
}

#[test]
fn coarser_gradients_are_not_halved() {
    let level0 = image(6, 6, vec![0; 36]);
    let level1 = image(3, 3, vec![0, 5, 0, 3, 9, 0, 0, 200, 0]);
    let grads = gradients_xy(&vec![level0, level1]);
    assert_eq!(grads.len(), 1);
    assert_eq!(grads[0].0.get(1, 1), 200 - 5);
    assert_eq!(grads[0].1.get(1, 1), -3);
    assert_eq!(grads[0].0.get(0, 0), 0);
}

#[test]
fn gradients_of_tiny_images_are_zero() {
    let img = image(2, 1, vec![0, 255]);
    let (gx, gy) = im_gradient(&img);
    assert_eq!(gx.as_slice(), &[0, 0]);
    assert_eq!(gy.as_slice(), &[0, 0]);
}

#[test]
fn squared_norm_is_kept_modulo_2_16() {
    let gx = Matrix::from_column_vec(1, 3, vec![3i16, -255, 0]).unwrap();
    let gy = Matrix::from_column_vec(1, 3, vec![-4i16, 255, 0]).unwrap();
    let n = grad_squared_norm(&gx, &gy);
    // 255^2 + 255^2 = 130050 = 65536 + 64514.
    assert_eq!(n.as_slice(), &[25, 64514, 0]);
}

#[test]
fn interpolation_cells_inside_and_outside() {
    // 4x4, value 10 * row + col.
    let cells: Vec<u8> = (0..16u8).map(|k| 10 * (k % 4) + k / 4).collect();
    let m = image(4, 4, cells);
    assert_eq!(m.interpolation_cells(0, 0), Some((0, 10, 1, 11)));
    assert_eq!(m.interpolation_cells(1, 1), Some((11, 21, 12, 22)));
    assert_eq!(m.interpolation_cells(2, 0), None);
    assert_eq!(m.interpolation_cells(0, 2), None);
    assert_eq!(m.interpolation_cells(-1, 0), None);
    let tiny = image(1, 1, vec![7]);
    assert_eq!(tiny.interpolation_cells(0, 0), None);
}
