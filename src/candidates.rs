//! Candidate point selection, coarse to fine: at each finer level, the 2x2
//! block under a candidate keeps its largest squared gradient norm, and the
//! second largest when it comes within a threshold of it.
use vstd::prelude::*;

use crate::matrix::{lemma_index_in_bounds, Matrix};
use crate::multires::{block, is_inner};

verus! {

/// The `p`-th of four values.
pub open spec fn nth(v: (u16, u16, u16, u16), p: int) -> u16 {
    if p == 0 {
        v.0
    } else if p == 1 {
        v.1
    } else if p == 2 {
        v.2
    } else {
        v.3
    }
}

/// Value `q` ranks above value `p`: it is larger, or equal and later.
pub open spec fn beats(v: (u16, u16, u16, u16), q: int, p: int) -> bool {
    nth(v, q) > nth(v, p) || (nth(v, q) == nth(v, p) && q > p)
}

/// How many of the four values rank above value `p`.
pub open spec fn rank(v: (u16, u16, u16, u16), p: int) -> int {
    (if p != 0 && beats(v, 0, p) { 1int } else { 0int }) + (if p != 1 && beats(v, 1, p) {
        1int
    } else {
        0int
    }) + (if p != 2 && beats(v, 2, p) { 1int } else { 0int }) + (if p != 3 && beats(v, 3, p) {
        1int
    } else {
        0int
    })
}

/// The largest of four values.
pub open spec fn max4(v: (u16, u16, u16, u16)) -> int {
    let m1 = if v.0 >= v.1 { v.0 } else { v.1 };
    let m2 = if v.2 >= v.3 { v.2 } else { v.3 };
    if m1 >= m2 { m1 as int } else { m2 as int }
}

/// Whether value `p` of a 2x2 block is kept: the top-ranked one always is, the
/// second one when it comes within `thresh` of the largest.
pub open spec fn kept(v: (u16, u16, u16, u16), p: int, thresh: u16) -> bool {
    rank(v, p) == 0 || (rank(v, p) == 1 && nth(v, p) + thresh > max4(v))
}

/// How many of the four values of a block are kept.
pub open spec fn kept_count(v: (u16, u16, u16, u16), thresh: u16) -> int {
    (if kept(v, 0, thresh) { 1int } else { 0int }) + (if kept(v, 1, thresh) { 1int } else { 0int })
        + (if kept(v, 2, thresh) { 1int } else { 0int }) + (if kept(v, 3, thresh) {
        1int
    } else {
        0int
    })
}

/// Pruning a 2x2 block keeps one or two of its pixels, and the largest one
/// among them.
pub proof fn lemma_prune_keeps_one_or_two(v: (u16, u16, u16, u16), thresh: u16)
    ensures
        1 <= kept_count(v, thresh) <= 2,
        exists|p: int| 0 <= p < 4 && kept(v, p, thresh) && nth(v, p) == max4(v),
{
    let p = if rank(v, 0) == 0 {
        0int
    } else if rank(v, 1) == 0 {
        1int
    } else if rank(v, 2) == 0 {
        2int
    } else {
        3int
    };
    assert(kept(v, p, thresh) && nth(v, p) == max4(v));
}

fn beats_at(v: (u16, u16, u16, u16), q: usize, p: usize) -> (r: bool)
    requires
        q < 4 && p < 4,
    ensures
        r == beats(v, q as int, p as int),
{
    let vq = if q == 0 { v.0 } else if q == 1 { v.1 } else if q == 2 { v.2 } else { v.3 };
    let vp = if p == 0 { v.0 } else if p == 1 { v.1 } else if p == 2 { v.2 } else { v.3 };
    vq > vp || (vq == vp && q > p)
}

/// Which of the four gradient values of a 2x2 block, in the order of `block`,
/// stay candidates; see `kept`.
pub fn prune_with_thresh(thresh: u16, v: (u16, u16, u16, u16)) -> (r: (bool, bool, bool, bool))
    ensures
        r.0 == kept(v, 0, thresh),
        r.1 == kept(v, 1, thresh),
        r.2 == kept(v, 2, thresh),
        r.3 == kept(v, 3, thresh),
{
    let m1 = if v.0 >= v.1 { v.0 } else { v.1 };
    let m2 = if v.2 >= v.3 { v.2 } else { v.3 };
    let max = if m1 >= m2 { m1 } else { m2 };
    let mut kept_flags: [bool; 4] = [false, false, false, false];
    let mut p: usize = 0;
    while p < 4
        invariant
            p <= 4,
            max as int == max4(v),
            forall|q: int| 0 <= q < p ==> kept_flags@[q] == kept(v, q, thresh),
        decreases 4 - p,
    {
        let mut rank_p: usize = 0;
        let mut q: usize = 0;
        while q < 4
            invariant
                q <= 4,
                p < 4,
                rank_p <= q,
                rank_p == (if p != 0 && 0 < q && beats(v, 0, p as int) { 1int } else { 0int })
                    + (if p != 1 && 1 < q && beats(v, 1, p as int) { 1int } else { 0int }) + (
                if p != 2 && 2 < q && beats(v, 2, p as int) {
                    1int
                } else {
                    0int
                }) + (if p != 3 && 3 < q && beats(v, 3, p as int) { 1int } else { 0int }),
            decreases 4 - q,
        {
            if q != p && beats_at(v, q, p) {
                rank_p = rank_p + 1;
            }
            q = q + 1;
        }
        let vp = if p == 0 { v.0 } else if p == 1 { v.1 } else if p == 2 { v.2 } else { v.3 };
        let keep = rank_p == 0 || (rank_p == 1 && vp as u32 + thresh as u32 > max as u32);
        kept_flags[p] = keep;
        p = p + 1;
    }
    (kept_flags[0], kept_flags[1], kept_flags[2], kept_flags[3])
}

/// Whether pixel `(i, j)` of `grad` stays a candidate when refining the
/// coarser mask `pre`: its 2x2 block was a candidate and the pixel is kept there.
pub open spec fn refined_at(
    pre: &Matrix<bool>,
    grad: &Matrix<u16>,
    thresh: u16,
    i: int,
    j: int,
) -> bool {
    &&& i < 2 * pre.rows
    &&& j < 2 * pre.cols
    &&& pre.at(i / 2, j / 2)
    &&& kept(block(grad, i / 2, j / 2), i % 2 + 2 * (j % 2), thresh)
}

/// `mask` is the refinement of `pre` over `grad`, of the shape of `grad`.
pub open spec fn is_refinement(
    mask: Matrix<bool>,
    pre: &Matrix<bool>,
    grad: &Matrix<u16>,
    thresh: u16,
) -> bool {
    &&& mask.wf()
    &&& mask.rows == grad.rows
    &&& mask.cols == grad.cols
    &&& forall|i: int, j: int|
        mask.contains(i, j) ==> #[trigger] mask.at(i, j) == refined_at(pre, grad, thresh, i, j)
}

/// Refines the candidate mask `pre` of the coarser level onto `grad`: in each
/// 2x2 block under a candidate, the pixels that `prune_with_thresh` keeps.
pub fn select_2x2_bloc(pre: &Matrix<bool>, grad: &Matrix<u16>, thresh: u16) -> (r: Matrix<bool>)
    requires
        pre.wf(),
        grad.wf(),
        pre.rows == grad.rows / 2,
        pre.cols == grad.cols / 2,
    ensures
        is_refinement(r, pre, grad, thresh),
{
    proof {
        grad.lemma_size_fits();
    }
    let cell = |i: usize, j: usize| -> (r: bool)
        requires
            pre.wf(),
            grad.wf(),
            pre.rows == grad.rows / 2,
            pre.cols == grad.cols / 2,
            i < grad.rows && j < grad.cols,
        ensures
            r == refined_at(pre, grad, thresh, i as int, j as int),
        {
            let bi = i / 2;
            let bj = j / 2;
            if bi < pre.rows && bj < pre.cols && pre.get(bi, bj) {
                let v = (
                    grad.get(2 * bi, 2 * bj),
                    grad.get(2 * bi + 1, 2 * bj),
                    grad.get(2 * bi, 2 * bj + 1),
                    grad.get(2 * bi + 1, 2 * bj + 1),
                );
                assert(v == block(grad, bi as int, bj as int));
                let k = prune_with_thresh(thresh, v);
                let p = i % 2 + 2 * (j % 2);
                if p == 0 {
                    k.0
                } else if p == 1 {
                    k.1
                } else if p == 2 {
                    k.2
                } else {
                    k.3
                }
            } else {
                false
            }
        };
    let r = Matrix::from_fn(grad.rows, grad.cols, cell);
    proof {
        assert forall|i: int, j: int| r.contains(i, j) implies #[trigger] r.at(i, j) == refined_at(
            pre,
            grad,
            thresh,
            i,
            j,
        ) by {
            assert(cell.ensures((i as usize, j as usize), r.at(i, j)));
        }
    }
    r
}

/// The mask `mask` with its outermost ring cleared: a pixel there has no
/// neighbour on one side, so it is never a candidate.
pub fn clear_border(mask: &Matrix<bool>) -> (r: Matrix<bool>)
    requires
        mask.wf(),
    ensures
        r.wf(),
        r.rows == mask.rows,
        r.cols == mask.cols,
        forall|i: int, j: int|
            mask.contains(i, j) ==> #[trigger] r.at(i, j) == (mask.at(i, j) && is_inner(mask, i, j)),
{
    proof {
        mask.lemma_size_fits();
    }
    let rows = mask.rows;
    let cols = mask.cols;
    let cell = |i: usize, j: usize| -> (r: bool)
        requires
            mask.wf(),
            i < mask.rows && j < mask.cols,
        ensures
            r == (mask.at(i as int, j as int) && is_inner(mask, i as int, j as int)),
        { 1 <= i && i + 1 < rows && 1 <= j && j + 1 < cols && mask.get(i, j) };
    let r = Matrix::from_fn(rows, cols, cell);
    proof {
        assert forall|i: int, j: int| mask.contains(i, j) implies #[trigger] r.at(i, j) == (mask.at(
            i,
            j,
        ) && is_inner(mask, i, j)) by {
            assert(cell.ensures((i as usize, j as usize), r.at(i, j)));
        }
    }
    r
}

/// Every level is the previous one halved, in size.
pub open spec fn halving_shapes<T>(grads: Seq<Matrix<T>>) -> bool {
    forall|k: int|
        0 < k < grads.len() ==> (#[trigger] grads[k]).rows == grads[k - 1].rows / 2
            && grads[k].cols == grads[k - 1].cols / 2
}

/// Candidate masks from the coarsest level to the finest: the coarsest keeps
/// every pixel, each finer one refines the one before with `select_2x2_bloc`.
pub open spec fn is_candidate_sequence(
    masks: Seq<Matrix<bool>>,
    grads: Seq<Matrix<u16>>,
    thresh: u16,
) -> bool {
    let n = grads.len();
    &&& masks.len() == n
    &&& masks[0].wf()
    &&& masks[0].rows == grads[n - 1].rows
    &&& masks[0].cols == grads[n - 1].cols
    &&& forall|i: int, j: int| masks[0].contains(i, j) ==> #[trigger] masks[0].at(i, j)
    &&& forall|k: int|
        0 < k < n ==> is_refinement(#[trigger] masks[k], &masks[k - 1], &grads[n - 1 - k], thresh)
}

/// Selects candidate points from a pyramid of squared gradient norms (finest
/// first), coarse to fine; the last mask is at full resolution.
pub fn select(diff_threshold: u16, gradients: &Vec<Matrix<u16>>) -> (r: Vec<Matrix<bool>>)
    requires
        gradients.len() >= 1,
        forall|k: int| 0 <= k < gradients.len() ==> (#[trigger] gradients@[k]).wf(),
        halving_shapes(gradients@),
    ensures
        is_candidate_sequence(r@, gradients@, diff_threshold),
{
    let n = gradients.len();
    let coarsest = &gradients[n - 1];
    proof {
        coarsest.lemma_size_fits();
    }
    let first = Matrix::filled(coarsest.rows, coarsest.cols, true);
    proof {
        assert forall|i: int, j: int| first.contains(i, j) implies #[trigger] first.at(i, j) by {
            lemma_index_in_bounds(i, j, first.rows as int, first.cols as int);
        }
    }
    let mut masks: Vec<Matrix<bool>> = Vec::new();
    masks.push(first);
    let mut k: usize = 1;
    while k < n
        invariant
            n == gradients.len(),
            1 <= k <= n,
            masks.len() == k,
            forall|k: int| 0 <= k < gradients.len() ==> (#[trigger] gradients@[k]).wf(),
            halving_shapes(gradients@),
            masks@[0].wf(),
            masks@[0].rows == gradients@[n - 1].rows,
            masks@[0].cols == gradients@[n - 1].cols,
            forall|i: int, j: int| masks@[0].contains(i, j) ==> #[trigger] masks@[0].at(i, j),
            forall|q: int|
                0 < q < k ==> is_refinement(
                    #[trigger] masks@[q],
                    &masks@[q - 1],
                    &gradients@[n - 1 - q],
                    diff_threshold,
                ),
            masks@[k - 1].wf(),
            masks@[k - 1].rows == gradients@[n - k].rows,
            masks@[k - 1].cols == gradients@[n - k].cols,
        decreases n - k,
    {
        let grad = &gradients[n - 1 - k];
        assert(gradients@[n - k].rows == grad.rows / 2);
        let mask = select_2x2_bloc(&masks[k - 1], grad, diff_threshold);
        masks.push(mask);
        k = k + 1;
    }
    masks
}

} // verus!
