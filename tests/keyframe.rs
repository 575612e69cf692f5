use visual_odometry::candidates::clear_border;
use visual_odometry::inverse_depth::InverseDepth;
use visual_odometry::keyframe::{frame_pyramid, precompute_keyframe, FrameError};
use visual_odometry::matrix::Matrix;
use visual_odometry::multires::{truncate_to_levels, truncated_extent};

fn image(rows: usize, cols: usize, cells: Vec<u8>) -> Matrix<u8> {
    Matrix::from_column_vec(rows, cols, cells).unwrap()
}

fn depth(rows: usize, cols: usize, value: u16) -> Matrix<u16> {
    Matrix::filled(rows, cols, value)
}

fn mean(a: (u32, u32), b: (u32, u32), c: (u32, u32), d: (u32, u32)) -> InverseDepth<u32> {
    InverseDepth::WithVariance((a.0 + b.0 + c.0 + d.0) / 4, (a.1 + b.1 + c.1 + d.1) / 16)
}

#[test]
fn truncated_extent_is_the_largest_multiple() {
    assert_eq!(truncated_extent(13, 2), 12);
    assert_eq!(truncated_extent(16, 2), 16);
    assert_eq!(truncated_extent(3, 2), 0);
    assert_eq!(truncated_extent(7, 0), 7);
}

#[test]
fn truncation_keeps_the_first_rows_and_columns() {
    let m = image(3, 3, vec![1, 2, 3, 4, 5, 6, 7, 8, 9]);
    let t = truncate_to_levels(&m, 2);
    assert_eq!(t.shape(), (2, 2));
    assert_eq!(t.as_slice(), &[1, 2, 4, 5]);
}

#[test]
fn frame_pyramid_reports_each_error() {
    let img = image(4, 4, vec![0; 16]);
    assert_eq!(frame_pyramid(0, &img, &depth(4, 4, 1)).err(), Some(FrameError::NoLevel));
    assert_eq!(frame_pyramid(2, &img, &depth(4, 3, 1)).err(), Some(FrameError::ShapeMismatch));
    assert_eq!(frame_pyramid(4, &img, &depth(4, 4, 1)).err(), Some(FrameError::TooSmall));
}

#[test]
fn frame_pyramid_crops_odd_extents() {
    let cells: Vec<u8> = (0..35u8).collect();
    let img = image(5, 7, cells);
    let (p, d) = frame_pyramid(2, &img, &depth(5, 7, 3)).unwrap();
    assert_eq!(p.len(), 2);
    assert_eq!(p[0].shape(), (4, 6));
    assert_eq!(p[1].shape(), (2, 3));
    assert_eq!(d.shape(), (4, 6));
    // Cell (1, 2) of the crop is cell (1, 2) of the image: 2 * 5 + 1.
    assert_eq!(p[0].get(1, 2), 11);
    // Block (0, 0): 0 + 1 + 5 + 6 = 12 -> 3.
    assert_eq!(p[1].get(0, 0), 3);
}

#[test]
fn clear_border_keeps_only_inner_pixels() {
    let mask = Matrix::filled(3, 4, true);
    let r = clear_border(&mask);
    let inner: Vec<(usize, usize)> = (0..3)
        .flat_map(|i| (0..4).map(move |j| (i, j)))
        .filter(|&(i, j)| r.get(i, j))
        .collect();
    assert_eq!(inner, vec![(1, 1), (1, 2)]);
}

#[test]
fn single_level_candidates_avoid_the_ring() {
    let cells: Vec<u8> = (0..16u32).map(|k| (k * 17 % 256) as u8).collect();
    let (p, d) = frame_pyramid(1, &image(4, 4, cells), &depth(4, 4, 5)).unwrap();
    let (g, usable) = precompute_keyframe(0, &p, &d, &|z: u16| InverseDepth::WithVariance(z as u32, 1), &mean);
    assert_eq!(usable.len(), 1);
    assert_eq!(usable[0].0, vec![(1, 1), (1, 2), (2, 1), (2, 2)]);
    assert_eq!(usable[0].1, vec![5, 5, 5, 5]);
    assert!(!g.candidates_points.get(0, 0));
}

#[test]
fn flat_image_candidates_avoid_the_ring_at_every_level() {
    let (p, d) = frame_pyramid(2, &image(8, 8, vec![9; 64]), &depth(8, 8, 4)).unwrap();
    let (_g, usable) = precompute_keyframe(0, &p, &d, &|z: u16| InverseDepth::WithVariance(z as u32, 16), &mean);
    assert_eq!(usable.len(), 2);
    for (level, (coords, z)) in usable.iter().enumerate() {
        let (rows, cols) = p[level].shape();
        assert_eq!(coords.len(), z.len());
        for &(col, row) in coords {
            assert!(row >= 1 && row + 1 < rows && col >= 1 && col + 1 < cols);
        }
    }
    // A flat 2x2 block keeps its bottom-right pixel: (1,1), (1,3), (1,5),
    // (3,1), ... off the ring at full resolution.
    assert_eq!(usable[0].0.len(), 9);
}
