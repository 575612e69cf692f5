//! What is computed once per keyframe from its image pyramid.
use vstd::prelude::*;

use crate::candidates::{clear_border, halving_shapes, is_candidate_sequence, select};
use crate::inverse_depth::{
    extract_z, fuse, is_fusion, is_valid, usable, valid_count, zip_mask_map, InverseDepth,
};
use crate::matrix::Matrix;
use crate::multires::{
    are_gradients, block, can_halve, halved_with, limited_sequence, grad_squared_norm, gradients_xy, halvable, im_gradient, is_inner,
    is_mean_half, is_squared_norm_map, lemma_mean_half_sum, lemma_truncated, mean_pyramid, pixel_sum, truncate_to_levels, truncated,
};

verus! {

/// What a keyframe's image pyramid gives for tracking: gradients and squared
/// gradient norms at every level, and the candidate points at full resolution.
pub struct KeyframeGradients {
    pub gradients_multires: Vec<(Matrix<i16>, Matrix<i16>)>,
    pub gradients_squared_norm_multires: Vec<Matrix<u16>>,
    pub candidates_points: Matrix<bool>,
}

/// What `keyframe_gradients` gives on the pyramid `levels` with the
/// threshold `thresh`.
pub open spec fn are_keyframe_gradients(
    g: KeyframeGradients,
    levels: Seq<Matrix<u8>>,
    thresh: u16,
) -> bool {
    &&& g.gradients_multires.len() == levels.len()
    &&& are_gradients(g.gradients_multires@[0], &levels[0], true)
    &&& forall|k: int|
            0 < k < levels.len() ==> are_gradients(
                #[trigger] g.gradients_multires@[k],
                &levels[k],
                false,
            )
    &&& g.gradients_squared_norm_multires.len() == levels.len()
    &&& forall|k: int|
            0 <= k < levels.len() ==> is_squared_norm_map(
                #[trigger] g.gradients_squared_norm_multires@[k],
                &g.gradients_multires@[k].0,
                &g.gradients_multires@[k].1,
            )
    &&& g.candidates_points.wf()
    &&& g.candidates_points.rows == levels[0].rows
    &&& g.candidates_points.cols == levels[0].cols
    &&& exists|masks: Seq<Matrix<bool>>|
            #[trigger] is_candidate_sequence(
                masks,
                g.gradients_squared_norm_multires@,
                thresh,
            ) && forall|i: int, j: int|
                levels[0].contains(i, j) ==> #[trigger] g.candidates_points.at(i, j) == (
                masks[masks.len() - 1].at(i, j) && is_inner(&levels[0], i, j))
    &&& forall|i: int, j: int|
            levels[0].contains(i, j) && #[trigger] g.candidates_points.at(i, j) ==> is_inner(
                &levels[0],
                i,
                j,
            )
}

/// Gradients of every level (halved differences at the first level, plain
/// ones above), their squared norms, and the candidate mask that `select`
/// gives at full resolution with `candidates_diff_threshold`, with its
/// outermost ring cleared.
pub fn keyframe_gradients(candidates_diff_threshold: u16, img_multires: &Vec<Matrix<u8>>) -> (r:
    KeyframeGradients)
    requires
        img_multires.len() >= 1,
        forall|k: int| 0 <= k < img_multires.len() ==> (#[trigger] img_multires@[k]).wf(),
        halving_shapes(img_multires@),
    ensures
        are_keyframe_gradients(r, img_multires@, candidates_diff_threshold),
{
    let n = img_multires.len();
    let mut gradients_multires = gradients_xy(img_multires);
    gradients_multires.insert(0, im_gradient(&img_multires[0]));
    assert forall|q: int|
        0 < q < gradients_multires.len() implies are_gradients(
            #[trigger] gradients_multires@[q],
            &img_multires@[q],
            false,
        ) by {
        assert(gradients_multires@[q] == gradients_multires@.subrange(1, n as int)[q - 1]);
    }
    let mut norms: Vec<Matrix<u16>> = Vec::new();
    let mut k: usize = 0;
    while k < n
        invariant
            n == img_multires.len(),
            gradients_multires.len() == n,
            forall|q: int| 0 <= q < n ==> (#[trigger] img_multires@[q]).wf(),
            are_gradients(gradients_multires@[0], &img_multires@[0], true),
            forall|q: int|
                0 < q < n ==> are_gradients(#[trigger] gradients_multires@[q], &img_multires@[q], false),
            k <= n,
            norms.len() == k,
            forall|q: int|
                0 <= q < k ==> is_squared_norm_map(
                    #[trigger] norms@[q],
                    &gradients_multires@[q].0,
                    &gradients_multires@[q].1,
                ),
        decreases n - k,
    {
        let (gx, gy) = &gradients_multires[k];
        norms.push(grad_squared_norm(gx, gy));
        k = k + 1;
    }
    let mut masks = select(candidates_diff_threshold, &norms);
    let ghost all_masks = masks@;
    let finest = masks.pop().unwrap();
    assert(finest == all_masks[all_masks.len() - 1]);
    let candidates_points = clear_border(&finest);
    assert(is_candidate_sequence(all_masks, norms@, candidates_diff_threshold));
    KeyframeGradients {
        gradients_multires,
        gradients_squared_norm_multires: norms,
        candidates_points,
    }
}

/// Every position of `c` lies in `m` and holds there the inverse depth listed
/// beside it, and there are as many of each.
pub open spec fn listed_in<Z>(c: (Vec<(usize, usize)>, Vec<Z>), m: &Matrix<InverseDepth<Z>>) -> bool {
    &&& c.0.len() == c.1.len()
    &&& forall|q: int|
        0 <= q < c.0.len() ==> {
            let (col, row) = #[trigger] c.0@[q];
            &&& m.contains(row as int, col as int)
            &&& m.at(row as int, col as int) matches InverseDepth::WithVariance(z, _)
            &&& z == c.1@[q]
        }
}

/// The usable candidates of every level: positions `(column, row)` holding an
/// inverse depth, and those inverse depths.
pub fn usable_candidates_multires<Z: Copy>(idepth_multires: &Vec<Matrix<InverseDepth<Z>>>) -> (r: Vec<
    (Vec<(usize, usize)>, Vec<Z>),
>)
    requires
        forall|k: int| 0 <= k < idepth_multires.len() ==> (#[trigger] idepth_multires@[k]).wf(),
    ensures
        r.len() == idepth_multires.len(),
        forall|k: int|
            0 <= k < r.len() ==> (#[trigger] r@[k]).0@ == usable(&idepth_multires@[k]).0 && r@[k].1@
                == usable(&idepth_multires@[k]).1,
        forall|k: int| 0 <= k < r.len() ==> listed_in(#[trigger] r@[k], &idepth_multires@[k]),
{
    let mut r: Vec<(Vec<(usize, usize)>, Vec<Z>)> = Vec::new();
    let mut k: usize = 0;
    while k < idepth_multires.len()
        invariant
            k <= idepth_multires.len(),
            r.len() == k,
            forall|q: int| 0 <= q < idepth_multires.len() ==> (#[trigger] idepth_multires@[q]).wf(),
            forall|q: int|
                0 <= q < k ==> (#[trigger] r@[q]).0@ == usable(&idepth_multires@[q]).0 && r@[q].1@
                    == usable(&idepth_multires@[q]).1,
            forall|q: int| 0 <= q < k ==> listed_in(#[trigger] r@[q], &idepth_multires@[q]),
        decreases idepth_multires.len() - k,
    {
        r.push(extract_z(&idepth_multires[k]));
        k = k + 1;
    }
    r
}

/// Why a frame cannot be tracked or made a keyframe.
#[derive(Clone, Copy, Debug, PartialEq, Eq, Structural)]
pub enum FrameError {
    /// No pyramid level was asked for.
    NoLevel,
    /// The depth map and the image differ in shape.
    ShapeMismatch,
    /// Cropped to multiples of `2^(nb_levels - 1)`, the image is empty.
    TooSmall,
}

/// The error that `frame_pyramid` reports on these inputs, if any.
pub open spec fn frame_error(
    nb_levels: nat,
    img_shape: (usize, usize),
    depth_shape: (usize, usize),
) -> Option<FrameError> {
    if nb_levels == 0 {
        Some(FrameError::NoLevel)
    } else if img_shape != depth_shape {
        Some(FrameError::ShapeMismatch)
    } else if truncated(img_shape.0 as nat, (nb_levels - 1) as nat) == 0 || truncated(
        img_shape.1 as nat,
        (nb_levels - 1) as nat,
    ) == 0 {
        Some(FrameError::TooSmall)
    } else {
        None
    }
}

/// Levels of a frame pyramid: each well formed and not empty, each next one
/// half the one before, and every level but the last of even extents.
pub open spec fn is_frame_pyramid<T>(levels: Seq<Matrix<T>>) -> bool {
    &&& levels.len() >= 1
    &&& forall|k: int|
        0 <= k < levels.len() ==> (#[trigger] levels[k]).wf() && levels[k].rows >= 1
            && levels[k].cols >= 1
    &&& halving_shapes(levels)
    &&& forall|k: int|
        0 <= k < levels.len() - 1 ==> (#[trigger] levels[k]).rows % 2 == 0 && levels[k].cols % 2
            == 0
}

proof fn lemma_halve_extent(x: nat, m: nat)
    requires
        halvable(x, m),
        m >= 1,
        x >= 1,
    ensures
        x % 2 == 0,
        x / 2 >= 1,
        halvable(x / 2, (m - 1) as nat),
{
}

proof fn lemma_pyramid_extents(levels: Seq<Matrix<u8>>, nb_levels: nat, k: int)
    requires
        1 <= levels.len() <= nb_levels,
        0 <= k < levels.len(),
        levels[0].rows >= 1,
        levels[0].cols >= 1,
        halvable(levels[0].rows as nat, (nb_levels - 1) as nat),
        halvable(levels[0].cols as nat, (nb_levels - 1) as nat),
        halving_shapes(levels),
    ensures
        levels[k].rows >= 1,
        levels[k].cols >= 1,
        halvable(levels[k].rows as nat, (nb_levels - 1 - k) as nat),
        halvable(levels[k].cols as nat, (nb_levels - 1 - k) as nat),
    decreases k,
{
    if k > 0 {
        lemma_pyramid_extents(levels, nb_levels, k - 1);
        lemma_halve_extent(levels[k - 1].rows as nat, (nb_levels - 1 - (k - 1)) as nat);
        lemma_halve_extent(levels[k - 1].cols as nat, (nb_levels - 1 - (k - 1)) as nat);
        assert(levels[k].rows == levels[k - 1].rows / 2);
    }
}

/// Along a frame pyramid of 2x2 means, each level keeps a quarter of the pixel
/// sum of the one before, up to the rounding of each mean: the quarter exceeds
/// it by at most three quarters of the level's number of pixels.
pub proof fn lemma_frame_pyramid_sums(p: Seq<Matrix<u8>>, k: int)
    requires
        is_frame_pyramid(p),
        forall|q: int| 0 < q < p.len() ==> is_mean_half(#[trigger] p[q], p[q - 1]),
        0 < k < p.len(),
    ensures
        4 * pixel_sum(&p[k]) <= pixel_sum(&p[k - 1]),
        pixel_sum(&p[k - 1]) <= 4 * pixel_sum(&p[k]) + 3 * p[k].rows * p[k].cols,
{
    assert(is_mean_half(p[k], p[k - 1]));
    assert(p[k - 1].rows % 2 == 0 && p[k - 1].cols % 2 == 0);
    lemma_mean_half_sum(&p[k], &p[k - 1]);
}

/// Checks a frame and builds its pyramid: the image and the depth map are
/// cropped to multiples of `2^(nb_levels - 1)`, then the image is halved by
/// 2x2 means into exactly `nb_levels` levels.
pub fn frame_pyramid(nb_levels: usize, img: &Matrix<u8>, depth: &Matrix<u16>) -> (r: Result<
    (Vec<Matrix<u8>>, Matrix<u16>),
    FrameError,
>)
    requires
        img.wf(),
        depth.wf(),
    ensures
        frame_error(nb_levels as nat, (img.rows, img.cols), (depth.rows, depth.cols)) matches Some(e)
            ==> r == Err::<(Vec<Matrix<u8>>, Matrix<u16>), FrameError>(e),
        frame_error(nb_levels as nat, (img.rows, img.cols), (depth.rows, depth.cols)) is None
            ==> r is Ok,
        r matches Ok((p, d)) ==> {
            &&& p.len() == nb_levels
            &&& is_frame_pyramid(p@)
            &&& p@[0].rows == truncated(img.rows as nat, (nb_levels - 1) as nat)
            &&& p@[0].cols == truncated(img.cols as nat, (nb_levels - 1) as nat)
            &&& forall|i: int, j: int| p@[0].contains(i, j) ==> #[trigger] p@[0].at(i, j) == img.at(i, j)
            &&& forall|k: int| 0 < k < p.len() ==> is_mean_half(#[trigger] p@[k], p@[k - 1])
            &&& d.wf() && d.rows == p@[0].rows && d.cols == p@[0].cols
            &&& forall|i: int, j: int| d.contains(i, j) ==> #[trigger] d.at(i, j) == depth.at(i, j)
        },
{
    if nb_levels == 0 {
        return Err(FrameError::NoLevel);
    }
    if img.rows != depth.rows || img.cols != depth.cols {
        return Err(FrameError::ShapeMismatch);
    }
    let cropped = truncate_to_levels(img, nb_levels);
    if cropped.rows == 0 || cropped.cols == 0 {
        return Err(FrameError::TooSmall);
    }
    let cropped_depth = truncate_to_levels(depth, nb_levels);
    let p = mean_pyramid(nb_levels, cropped);
    proof {
        lemma_truncated(img.rows as nat, (nb_levels - 1) as nat);
        lemma_truncated(img.cols as nat, (nb_levels - 1) as nat);
        assert forall|k: int| 0 < k < p.len() implies (#[trigger] p@[k]).rows == p@[k - 1].rows / 2
            && p@[k].cols == p@[k - 1].cols / 2 by {
            assert(is_mean_half(p@[k], p@[k - 1]));
        }
        assert(halving_shapes(p@));
        if p.len() < nb_levels {
            let last = p.len() - 1;
            lemma_pyramid_extents(p@, nb_levels as nat, last as int);
            lemma_halve_extent(p@[last as int].rows as nat, (nb_levels - 1 - last) as nat);
            lemma_halve_extent(p@[last as int].cols as nat, (nb_levels - 1 - last) as nat);
            assert(can_halve(p@[last as int]));
        }
        assert forall|k: int| 0 <= k < p.len() implies (#[trigger] p@[k]).wf() && p@[k].rows >= 1
            && p@[k].cols >= 1 by {
            lemma_pyramid_extents(p@, nb_levels as nat, k);
        }
        assert forall|k: int| 0 <= k < p.len() - 1 implies (#[trigger] p@[k]).rows % 2 == 0
            && p@[k].cols % 2 == 0 by {
            lemma_pyramid_extents(p@, nb_levels as nat, k);
            lemma_halve_extent(p@[k].rows as nat, (nb_levels - 1 - k) as nat);
            lemma_halve_extent(p@[k].cols as nat, (nb_levels - 1 - k) as nat);
        }
    }
    Ok((p, cropped_depth))
}

/// `coarse` is `fine` halved with `fuse` and the strategy `strategy`.
pub open spec fn is_fused_half<Z, F: Fn((Z, Z), (Z, Z), (Z, Z), (Z, Z)) -> InverseDepth<Z>>(
    coarse: Matrix<InverseDepth<Z>>,
    fine: Matrix<InverseDepth<Z>>,
    strategy: F,
) -> bool {
    &&& coarse.wf()
    &&& coarse.rows == fine.rows / 2
    &&& coarse.cols == fine.cols / 2
    &&& forall|i: int, j: int|
        coarse.contains(i, j) ==> is_fusion(block(&fine, i, j), strategy, #[trigger] coarse.at(i, j))
}

/// `idepth` holds, under the candidate mask, the inverse depth `from_depth`
/// gives of each depth sample, and is unknown elsewhere.
pub open spec fn is_masked_depth<Z, F: Fn(u16) -> InverseDepth<Z>>(
    idepth: Matrix<InverseDepth<Z>>,
    depth: &Matrix<u16>,
    mask: &Matrix<bool>,
    from_depth: F,
) -> bool {
    &&& idepth.wf()
    &&& idepth.rows == depth.rows
    &&& idepth.cols == depth.cols
    &&& forall|i: int, j: int|
        depth.contains(i, j) ==> if mask.at(i, j) {
            from_depth.ensures((depth.at(i, j),), #[trigger] idepth.at(i, j))
        } else {
            idepth.at(i, j) is Unknown
        }
}

/// Every cell of `m` holding an inverse depth is off its outermost ring.
pub open spec fn valid_inside<Z>(m: &Matrix<InverseDepth<Z>>) -> bool {
    forall|i: int, j: int|
        m.contains(i, j) && is_valid(#[trigger] m.at(i, j)) ==> is_inner(m, i, j)
}

proof fn lemma_fused_inside<Z, F: Fn((Z, Z), (Z, Z), (Z, Z), (Z, Z)) -> InverseDepth<Z>>(
    coarse: Matrix<InverseDepth<Z>>,
    fine: Matrix<InverseDepth<Z>>,
    strategy: F,
)
    requires
        fine.wf(),
        is_fused_half(coarse, fine, strategy),
        fine.rows % 2 == 0,
        fine.cols % 2 == 0,
        valid_inside(&fine),
    ensures
        valid_inside(&coarse),
{
    assert forall|i: int, j: int| coarse.contains(i, j) && is_valid(#[trigger] coarse.at(i, j)) implies is_inner(
        &coarse,
        i,
        j,
    ) by {
        let x = block(&fine, i, j);
        assert(is_fusion(x, strategy, coarse.at(i, j)));
        assert(valid_count(x.0, x.1, x.2, x.3) == 4);
        assert(fine.contains(2 * i, 2 * j) && is_valid(fine.at(2 * i, 2 * j)));
        assert(fine.contains(2 * i + 1, 2 * j + 1) && is_valid(fine.at(2 * i + 1, 2 * j + 1)));
    }
}

proof fn lemma_same_extents<A, B>(a: Seq<Matrix<A>>, b: Seq<Matrix<B>>, k: int)
    requires
        0 <= k < a.len(),
        k < b.len(),
        a[0].rows == b[0].rows,
        a[0].cols == b[0].cols,
        halving_shapes(a),
        halving_shapes(b),
    ensures
        a[k].rows == b[k].rows,
        a[k].cols == b[k].cols,
    decreases k,
{
    if k > 0 {
        lemma_same_extents(a, b, k - 1);
        assert(a[k].rows == a[k - 1].rows / 2);
        assert(b[k].rows == b[k - 1].rows / 2);
    }
}

/// What a keyframe gives for tracking: `keyframe_gradients` of its pyramid,
/// then, for every level, the usable candidates. These come from the inverse
/// depths of the candidate points (`from_depth` of the depth map under the
/// mask), halved level after level with `fuse` and `strategy`. No usable
/// candidate lies on the outermost ring of its level.
pub fn precompute_keyframe<
    Z: Copy,
    FD: Fn(u16) -> InverseDepth<Z>,
    FS: Fn((Z, Z), (Z, Z), (Z, Z), (Z, Z)) -> InverseDepth<Z>,
>(
    candidates_diff_threshold: u16,
    img_multires: &Vec<Matrix<u8>>,
    depth_map: &Matrix<u16>,
    from_depth: &FD,
    strategy: &FS,
) -> (r: (KeyframeGradients, Vec<(Vec<(usize, usize)>, Vec<Z>)>))
    requires
        is_frame_pyramid(img_multires@),
        depth_map.wf(),
        depth_map.rows == img_multires@[0].rows,
        depth_map.cols == img_multires@[0].cols,
        forall|x: u16| #[trigger] from_depth.requires((x,)),
        forall|x: ((Z, Z), (Z, Z), (Z, Z), (Z, Z))| #[trigger] strategy.requires(x),
    ensures
        are_keyframe_gradients(r.0, img_multires@, candidates_diff_threshold),
        r.1.len() == img_multires.len(),
        exists|idepth: Seq<Matrix<InverseDepth<Z>>>|
            {
                &&& idepth.len() == img_multires.len()
                &&& is_masked_depth(idepth[0], depth_map, &r.0.candidates_points, from_depth)
                &&& forall|k: int|
                    0 < k < idepth.len() ==> is_fused_half(#[trigger] idepth[k], idepth[k - 1], strategy)
                &&& forall|k: int|
                    0 <= k < idepth.len() ==> (#[trigger] r.1@[k]).0@ == usable(&idepth[k]).0
                        && r.1@[k].1@ == usable(&idepth[k]).1
            },
        forall|k: int| 0 <= k < r.1.len() ==> (#[trigger] r.1@[k]).0.len() == r.1@[k].1.len(),
        forall|k: int, q: int|
            0 <= k < r.1.len() && 0 <= q < r.1@[k].0.len() ==> {
                let (col, row) = #[trigger] r.1@[k].0@[q];
                is_inner(&img_multires@[k], row as int, col as int)
            },
{
    let n = img_multires.len();
    let g = keyframe_gradients(candidates_diff_threshold, img_multires);
    let idepth0 = zip_mask_map(depth_map, &g.candidates_points, InverseDepth::Unknown, from_depth);
    let fuse_block = |
        a: InverseDepth<Z>,
        b: InverseDepth<Z>,
        c: InverseDepth<Z>,
        d: InverseDepth<Z>,
    | -> (r: InverseDepth<Z>)
        requires
            forall|x: ((Z, Z), (Z, Z), (Z, Z), (Z, Z))| #[trigger] strategy.requires(x),
        ensures
            is_fusion((a, b, c, d), strategy, r),
        { fuse(a, b, c, d, strategy) };
    let idepth = limited_sequence(n, idepth0, fuse_block);
    let usable_multires = usable_candidates_multires(&idepth);
    proof {
        let lv = idepth@;
        assert(is_masked_depth(lv[0], depth_map, &g.candidates_points, from_depth));
        assert forall|k: int| 0 < k < lv.len() implies is_fused_half(#[trigger] lv[k], lv[k - 1], strategy) by {
            assert(halved_with(lv[k], lv[k - 1], fuse_block));
            assert forall|i: int, j: int| lv[k].contains(i, j) implies is_fusion(
                block(&lv[k - 1], i, j),
                strategy,
                #[trigger] lv[k].at(i, j),
            ) by {
                assert(fuse_block.ensures(block(&lv[k - 1], i, j), lv[k].at(i, j)));
            }
        }
        assert forall|k: int| 0 < k < lv.len() implies (#[trigger] lv[k]).rows == lv[k - 1].rows / 2
            && lv[k].cols == lv[k - 1].cols / 2 by {
            assert(halved_with(lv[k], lv[k - 1], fuse_block));
        }
        assert(halving_shapes(lv));
        // The inverse-depth pyramid has the shapes of the image pyramid, and so all its levels.
        if lv.len() < n {
            let last = lv.len() - 1;
            lemma_same_extents(lv, img_multires@, last as int);
            assert(img_multires@[last + 1].rows == img_multires@[last as int].rows / 2);
            assert(img_multires@[last + 1].cols == img_multires@[last as int].cols / 2);
            assert(can_halve(lv[last as int]));
        }
        assert(lv.len() == n);
        // No valid inverse depth on the ring, level after level.
        assert(valid_inside(&lv[0])) by {
            assert forall|i: int, j: int| lv[0].contains(i, j) && is_valid(#[trigger] lv[0].at(i, j)) implies is_inner(
                &lv[0],
                i,
                j,
            ) by {
                assert(depth_map.contains(i, j));
                assert(g.candidates_points.at(i, j));
                assert(img_multires@[0].contains(i, j));
            }
        }
        assert forall|k: int| 0 <= k < lv.len() implies valid_inside(#[trigger] &lv[k]) by {
            lemma_inside_upto(lv, img_multires@, strategy, k);
        }
        assert forall|k: int, q: int|
            0 <= k < usable_multires.len() && 0 <= q < usable_multires@[k].0.len() implies {
                let (col, row) = #[trigger] usable_multires@[k].0@[q];
                is_inner(&img_multires@[k], row as int, col as int)
            } by {
            assert(listed_in(usable_multires@[k], &lv[k]));
            let (col, row) = usable_multires@[k].0@[q];
            assert(valid_inside(&lv[k]));
            assert(is_valid(lv[k].at(row as int, col as int)));
            lemma_same_extents(lv, img_multires@, k);
        }
        assert forall|k: int| 0 <= k < usable_multires.len() implies (#[trigger] usable_multires@[k]).0.len()
            == usable_multires@[k].1.len() by {
            assert(listed_in(usable_multires@[k], &lv[k]));
        }
    }
    (g, usable_multires)
}

proof fn lemma_inside_upto<Z, F: Fn((Z, Z), (Z, Z), (Z, Z), (Z, Z)) -> InverseDepth<Z>>(
    lv: Seq<Matrix<InverseDepth<Z>>>,
    imgs: Seq<Matrix<u8>>,
    strategy: F,
    k: int,
)
    requires
        0 <= k < lv.len(),
        lv.len() == imgs.len(),
        is_frame_pyramid(imgs),
        lv[0].rows == imgs[0].rows,
        lv[0].cols == imgs[0].cols,
        halving_shapes(lv),
        forall|q: int| 0 <= q < lv.len() ==> (#[trigger] lv[q]).wf(),
        forall|q: int| 0 < q < lv.len() ==> is_fused_half(#[trigger] lv[q], lv[q - 1], strategy),
        valid_inside(&lv[0]),
    ensures
        valid_inside(&lv[k]),
    decreases k,
{
    if k > 0 {
        lemma_inside_upto(lv, imgs, strategy, k - 1);
        lemma_same_extents(lv, imgs, k - 1);
        assert(imgs[k - 1].rows % 2 == 0 && imgs[k - 1].cols % 2 == 0);
        lemma_fused_inside(lv[k], lv[k - 1], strategy);
    }
}

} // verus!
