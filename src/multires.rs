//! Multi-resolution pyramids, image gradients and squared gradient norms.
use vstd::prelude::*;

use crate::matrix::{lemma_index_in_bounds, Matrix};

verus! {

/// The four cells of the 2x2 block under position `(i, j)` of the halved
/// matrix: top-left, bottom-left, top-right, bottom-right.
pub open spec fn block<T>(m: &Matrix<T>, i: int, j: int) -> (T, T, T, T) {
    (m.at(2 * i, 2 * j), m.at(2 * i + 1, 2 * j), m.at(2 * i, 2 * j + 1), m.at(2 * i + 1, 2 * j + 1))
}

/// Whether a matrix has at least one full 2x2 block.
pub open spec fn can_halve<T>(m: Matrix<T>) -> bool {
    m.rows / 2 > 0 && m.cols / 2 > 0
}

/// `coarse` is `fine` halved, each cell being a possible result of `f` on its block.
pub open spec fn halved_with<T, U, F: Fn(T, T, T, T) -> U>(
    coarse: Matrix<U>,
    fine: Matrix<T>,
    f: F,
) -> bool {
    &&& coarse.wf()
    &&& coarse.rows == fine.rows / 2
    &&& coarse.cols == fine.cols / 2
    &&& forall|i: int, j: int|
        coarse.contains(i, j) ==> f.ensures(block(&fine, i, j), #[trigger] coarse.at(i, j))
}

proof fn lemma_half_size(rows: int, cols: int)
    requires
        0 <= rows,
        0 <= cols,
    ensures
        (rows / 2) * (cols / 2) <= rows * cols,
{
    assert((rows / 2) * (cols / 2) <= rows * cols) by (nonlinear_arith)
        requires
            0 <= rows / 2 <= rows,
            0 <= cols / 2 <= cols,
    ;
}

proof fn lemma_block_in_bounds<T>(m: &Matrix<T>, i: int, j: int)
    requires
        0 <= i < m.rows / 2,
        0 <= j < m.cols / 2,
    ensures
        m.contains(2 * i, 2 * j),
        m.contains(2 * i + 1, 2 * j),
        m.contains(2 * i, 2 * j + 1),
        m.contains(2 * i + 1, 2 * j + 1),
{
}

/// Halves a matrix, each cell of the result being `f` of the 2x2 block under
/// it; an odd last row or column is dropped. `None` when no full block exists.
pub fn halve<T: Copy, U, F: Fn(T, T, T, T) -> U>(m: &Matrix<T>, f: F) -> (r: Option<Matrix<U>>)
    requires
        m.wf(),
        forall|i: int, j: int|
            0 <= i < m.rows / 2 && 0 <= j < m.cols / 2 ==> f.requires(#[trigger] block(m, i, j)),
    ensures
        r is Some <==> can_halve(*m),
        r matches Some(h) ==> halved_with(h, *m, f),
{
    let half_rows = m.rows / 2;
    let half_cols = m.cols / 2;
    if half_rows == 0 || half_cols == 0 {
        return None;
    }
    proof {
        m.lemma_size_fits();
        lemma_half_size(m.rows as int, m.cols as int);
    }
    let fr = &f;
    let cell = |i: usize, j: usize| -> (r: U)
        requires
            i < half_rows && j < half_cols,
            m.wf(),
            half_rows == m.rows / 2,
            half_cols == m.cols / 2,
            forall|p: int, q: int|
                0 <= p < m.rows / 2 && 0 <= q < m.cols / 2 ==> fr.requires(
                    #[trigger] block(m, p, q),
                ),
        ensures
            fr.ensures(block(m, i as int, j as int), r),
        {
            proof {
                lemma_block_in_bounds(m, i as int, j as int);
            }
            let a = m.get(2 * i, 2 * j);
            let b = m.get(2 * i + 1, 2 * j);
            let c = m.get(2 * i, 2 * j + 1);
            let d = m.get(2 * i + 1, 2 * j + 1);
            assert((a, b, c, d) == block(m, i as int, j as int));
            assert(fr.requires(block(m, i as int, j as int)));
            fr(a, b, c, d)
        };
    let h = Matrix::from_fn(half_rows, half_cols, cell);
    proof {
        assert forall|i: int, j: int| h.contains(i, j) implies f.ensures(
            block(m, i, j),
            #[trigger] h.at(i, j),
        ) by {
            assert(cell.ensures((i as usize, j as usize), h.at(i as int, j as int)));
        }
    }
    Some(h)
}

/// A pyramid built from `m` with `f`: level 0 is `m`, each further level is the
/// one before halved with `f`, and it stops early only at a level too small to halve.
pub open spec fn is_pyramid_with<T, F: Fn(T, T, T, T) -> T>(
    levels: Seq<Matrix<T>>,
    nb_levels: nat,
    m: Matrix<T>,
    f: F,
) -> bool {
    &&& 1 <= levels.len() <= nb_levels
    &&& levels[0] == m
    &&& forall|k: int| 0 < k < levels.len() ==> halved_with(#[trigger] levels[k], levels[k - 1], f)
    &&& levels.len() < nb_levels ==> !can_halve(levels[levels.len() - 1])
}

/// Builds the pyramid of `m`, halving with `f`, with at most `nb_levels` levels.
pub fn limited_sequence<T: Copy, F: Fn(T, T, T, T) -> T>(
    nb_levels: usize,
    m: Matrix<T>,
    f: F,
) -> (r: Vec<Matrix<T>>)
    requires
        nb_levels >= 1,
        m.wf(),
        forall|x: (T, T, T, T)| #[trigger] f.requires(x),
    ensures
        is_pyramid_with(r@, nb_levels as nat, m, f),
        forall|k: int| 0 <= k < r.len() ==> (#[trigger] r@[k]).wf(),
{
    let ghost m0 = m;
    let mut levels: Vec<Matrix<T>> = Vec::new();
    levels.push(m);
    let mut stopped = false;
    while !stopped && levels.len() < nb_levels
        invariant
            1 <= levels.len() <= nb_levels,
            levels@[0] == m0,
            forall|x: (T, T, T, T)| #[trigger] f.requires(x),
            forall|k: int| 0 <= k < levels.len() ==> (#[trigger] levels@[k]).wf(),
            forall|k: int|
                0 < k < levels.len() ==> halved_with(#[trigger] levels@[k], levels@[k - 1], f),
            stopped ==> !can_halve(levels@[levels.len() - 1]),
        decreases nb_levels - levels.len() + if stopped { 0int } else { 1int },
    {
        let n = levels.len();
        match halve(&levels[n - 1], &f) {
            Some(h) => {
                levels.push(h);
            },
            None => {
                stopped = true;
            },
        }
    }
    levels
}

/// The mean of four pixels, rounded down.
pub open spec fn mean_of(x: (u8, u8, u8, u8)) -> u8 {
    ((x.0 + x.1 + x.2 + x.3) / 4) as u8
}

/// `coarse` is `fine` halved by 2x2 means rounded down.
pub open spec fn is_mean_half(coarse: Matrix<u8>, fine: Matrix<u8>) -> bool {
    &&& coarse.wf()
    &&& coarse.rows == fine.rows / 2
    &&& coarse.cols == fine.cols / 2
    &&& forall|i: int, j: int|
        coarse.contains(i, j) ==> #[trigger] coarse.at(i, j) == mean_of(block(&fine, i, j))
}

/// The pyramid of 2x2 means of `img`, with at most `nb_levels` levels: it holds
/// fewer only when a level has fewer than two rows or two columns.
pub fn mean_pyramid(nb_levels: usize, img: Matrix<u8>) -> (r: Vec<Matrix<u8>>)
    requires
        nb_levels >= 1,
        img.wf(),
    ensures
        1 <= r.len() <= nb_levels,
        r@[0] == img,
        forall|k: int| 0 <= k < r.len() ==> (#[trigger] r@[k]).wf(),
        forall|k: int| 0 < k < r.len() ==> is_mean_half(#[trigger] r@[k], r@[k - 1]),
        r.len() < nb_levels ==> !can_halve(r@[r.len() - 1]),
{
    let mean = |a: u8, b: u8, c: u8, d: u8| -> (r: u8)
        ensures
            r == mean_of((a, b, c, d)),
        { ((a as u16 + b as u16 + c as u16 + d as u16) / 4) as u8 };
    let r = limited_sequence(nb_levels, img, mean);
    proof {
        assert forall|k: int| 0 < k < r.len() implies is_mean_half(#[trigger] r@[k], r@[k - 1]) by {
            assert(halved_with(r@[k], r@[k - 1], mean));
        }
    }
    r
}

/// The largest multiple of `2^k` not above `n`.
pub open spec fn truncated(n: nat, k: nat) -> nat
    decreases k,
{
    if k == 0 {
        n
    } else {
        2 * truncated(n / 2, (k - 1) as nat)
    }
}

/// `n` is a multiple of `2^k`.
pub open spec fn halvable(n: nat, k: nat) -> bool
    decreases k,
{
    if k == 0 {
        true
    } else {
        n % 2 == 0 && halvable(n / 2, (k - 1) as nat)
    }
}

/// Truncating to a multiple of `2^k` never grows `n` and gives a multiple of `2^k`.
pub proof fn lemma_truncated(n: nat, k: nat)
    ensures
        truncated(n, k) <= n,
        halvable(truncated(n, k), k),
    decreases k,
{
    if k > 0 {
        lemma_truncated(n / 2, (k - 1) as nat);
        let t = truncated(n / 2, (k - 1) as nat);
        assert((2 * t) / 2 == t);
    }
}

/// The largest multiple of `2^k` not above `n`.
pub fn truncated_extent(n: usize, k: usize) -> (r: usize)
    ensures
        r == truncated(n as nat, k as nat),
    decreases k,
{
    if k == 0 {
        n
    } else {
        let h = truncated_extent(n / 2, k - 1);
        proof {
            lemma_truncated((n / 2) as nat, (k - 1) as nat);
        }
        2 * h
    }
}

/// Crops `m` to its first rows and columns, so that both extents are
/// multiples of `2^(nb_levels - 1)`: what a pyramid of `nb_levels` levels
/// halves without dropping anything.
pub fn truncate_to_levels<T: Copy>(m: &Matrix<T>, nb_levels: usize) -> (r: Matrix<T>)
    requires
        m.wf(),
        nb_levels >= 1,
    ensures
        r.wf(),
        r.rows == truncated(m.rows as nat, (nb_levels - 1) as nat),
        r.cols == truncated(m.cols as nat, (nb_levels - 1) as nat),
        forall|i: int, j: int| r.contains(i, j) ==> #[trigger] r.at(i, j) == m.at(i, j),
{
    let rows = truncated_extent(m.rows, nb_levels - 1);
    let cols = truncated_extent(m.cols, nb_levels - 1);
    proof {
        m.lemma_size_fits();
        lemma_truncated(m.rows as nat, (nb_levels - 1) as nat);
        lemma_truncated(m.cols as nat, (nb_levels - 1) as nat);
        assert(rows * cols <= m.rows * m.cols) by (nonlinear_arith)
            requires
                rows <= m.rows,
                cols <= m.cols,
        ;
    }
    let cell = |i: usize, j: usize| -> (r: T)
        requires
            m.wf(),
            i < rows && j < cols,
            rows <= m.rows && cols <= m.cols,
        ensures
            r == m.at(i as int, j as int),
        { m.get(i, j) };
    let r = Matrix::from_fn(rows, cols, cell);
    proof {
        assert forall|i: int, j: int| r.contains(i, j) implies #[trigger] r.at(i, j) == m.at(i, j) by {
            assert(cell.ensures((i as usize, j as usize), r.at(i, j)));
        }
    }
    r
}

/// Sum of the first `n` pixels of column `j`.
pub open spec fn column_sum(m: &Matrix<u8>, j: int, n: int) -> int
    decreases n,
{
    if n <= 0 {
        0
    } else {
        column_sum(m, j, n - 1) + m.at(n - 1, j)
    }
}

/// Sum of the pixels of the first `n` columns.
pub open spec fn sum_upto(m: &Matrix<u8>, n: int) -> int
    decreases n,
{
    if n <= 0 {
        0
    } else {
        sum_upto(m, n - 1) + column_sum(m, n - 1, m.rows as int)
    }
}

/// Sum of all pixels of `m`.
pub open spec fn pixel_sum(m: &Matrix<u8>) -> int {
    sum_upto(m, m.cols as int)
}

/// Sum of the four pixels of a block.
pub open spec fn block_sum(x: (u8, u8, u8, u8)) -> int {
    x.0 + x.1 + x.2 + x.3
}

proof fn lemma_column_pair(coarse: &Matrix<u8>, fine: &Matrix<u8>, j: int, n: int)
    requires
        is_mean_half(*coarse, *fine),
        0 <= j < coarse.cols,
        0 <= n <= coarse.rows,
    ensures
        4 * column_sum(coarse, j, n) <= column_sum(fine, 2 * j, 2 * n) + column_sum(
            fine,
            2 * j + 1,
            2 * n,
        ),
        column_sum(fine, 2 * j, 2 * n) + column_sum(fine, 2 * j + 1, 2 * n) <= 4 * column_sum(
            coarse,
            j,
            n,
        ) + 3 * n,
    decreases n,
{
    if n > 0 {
        lemma_column_pair(coarse, fine, j, n - 1);
        assert(coarse.contains(n - 1, j));
        let v = coarse.at(n - 1, j);
        assert(v == mean_of(block(fine, n - 1, j)));
        assert(column_sum(fine, 2 * j, 2 * n) == column_sum(fine, 2 * j, 2 * n - 1) + fine.at(
            2 * n - 1,
            2 * j,
        ));
        assert(column_sum(fine, 2 * j, 2 * n - 1) == column_sum(fine, 2 * j, 2 * (n - 1))
            + fine.at(2 * (n - 1), 2 * j));
        assert(column_sum(fine, 2 * j + 1, 2 * n) == column_sum(fine, 2 * j + 1, 2 * n - 1)
            + fine.at(2 * n - 1, 2 * j + 1));
        assert(column_sum(fine, 2 * j + 1, 2 * n - 1) == column_sum(fine, 2 * j + 1, 2 * (n - 1))
            + fine.at(2 * (n - 1), 2 * j + 1));
    }
}

proof fn lemma_sum_upto(coarse: &Matrix<u8>, fine: &Matrix<u8>, n: int)
    requires
        is_mean_half(*coarse, *fine),
        fine.rows == 2 * coarse.rows,
        0 <= n <= coarse.cols,
    ensures
        4 * sum_upto(coarse, n) <= sum_upto(fine, 2 * n),
        sum_upto(fine, 2 * n) <= 4 * sum_upto(coarse, n) + 3 * n * coarse.rows,
    decreases n,
{
    if n > 0 {
        lemma_sum_upto(coarse, fine, n - 1);
        lemma_column_pair(coarse, fine, n - 1, coarse.rows as int);
        assert(sum_upto(fine, 2 * n) == sum_upto(fine, 2 * n - 1) + column_sum(
            fine,
            2 * n - 1,
            fine.rows as int,
        ));
        assert(sum_upto(fine, 2 * n - 1) == sum_upto(fine, 2 * (n - 1)) + column_sum(
            fine,
            2 * (n - 1),
            fine.rows as int,
        ));
        assert(3 * n * coarse.rows == 3 * (n - 1) * coarse.rows + 3 * coarse.rows) by (nonlinear_arith);
    }
}

/// Halving by 2x2 means keeps a quarter of the pixel sum, up to the rounding of
/// each mean: when the fine level has even extents, its sum divided by 4 exceeds
/// the coarse sum by at most three quarters of the number of coarse pixels.
pub proof fn lemma_mean_half_sum(coarse: &Matrix<u8>, fine: &Matrix<u8>)
    requires
        is_mean_half(*coarse, *fine),
        fine.rows == 2 * coarse.rows,
        fine.cols == 2 * coarse.cols,
    ensures
        4 * pixel_sum(coarse) <= pixel_sum(fine),
        pixel_sum(fine) <= 4 * pixel_sum(coarse) + 3 * coarse.rows * coarse.cols,
{
    lemma_sum_upto(coarse, fine, coarse.cols as int);
    assert(3 * coarse.cols * coarse.rows == 3 * coarse.rows * coarse.cols) by (nonlinear_arith);
}

/// `hi - lo`, halved with rounding toward zero when `halved`.
pub open spec fn difference(hi: u8, lo: u8, halved: bool) -> i16 {
    let d = hi - lo;
    if !halved {
        d as i16
    } else if d >= 0 {
        (d / 2) as i16
    } else {
        (-((-d) / 2)) as i16
    }
}

/// Whether `(i, j)` lies off the outermost ring of `m`.
pub open spec fn is_inner<T>(m: &Matrix<T>, i: int, j: int) -> bool {
    1 <= i < m.rows - 1 && 1 <= j < m.cols - 1
}

/// Horizontal gradient of `img` at `(i, j)`: right minus left, zero on the outer ring.
pub open spec fn gradient_x_at(img: &Matrix<u8>, i: int, j: int, halved: bool) -> i16 {
    if is_inner(img, i, j) {
        difference(img.at(i, j + 1), img.at(i, j - 1), halved)
    } else {
        0
    }
}

/// Vertical gradient of `img` at `(i, j)`: bottom minus top, zero on the outer ring.
pub open spec fn gradient_y_at(img: &Matrix<u8>, i: int, j: int, halved: bool) -> i16 {
    if is_inner(img, i, j) {
        difference(img.at(i + 1, j), img.at(i - 1, j), halved)
    } else {
        0
    }
}

/// `g` holds the gradients of `img` along x and y, of the same shape.
pub open spec fn are_gradients(g: (Matrix<i16>, Matrix<i16>), img: &Matrix<u8>, halved: bool) -> bool {
    &&& g.0.wf()
    &&& g.1.wf()
    &&& g.0.rows == img.rows && g.0.cols == img.cols
    &&& g.1.rows == img.rows && g.1.cols == img.cols
    &&& forall|i: int, j: int| img.contains(i, j) ==> #[trigger] g.0.at(i, j) == gradient_x_at(img, i, j, halved)
    &&& forall|i: int, j: int| img.contains(i, j) ==> #[trigger] g.1.at(i, j) == gradient_y_at(img, i, j, halved)
}

fn difference_of(hi: u8, lo: u8, halved: bool) -> (r: i16)
    ensures
        r == difference(hi, lo, halved),
{
    if hi >= lo {
        let d = hi - lo;
        if halved {
            (d / 2) as i16
        } else {
            d as i16
        }
    } else {
        let d = lo - hi;
        if halved {
            -((d / 2) as i16)
        } else {
            -(d as i16)
        }
    }
}

fn centered_gradients(img: &Matrix<u8>, halved: bool) -> (r: (Matrix<i16>, Matrix<i16>))
    requires
        img.wf(),
    ensures
        are_gradients(r, img, halved),
{
    let rows = img.rows;
    let cols = img.cols;
    proof {
        img.lemma_size_fits();
    }
    let gx_at = |i: usize, j: usize| -> (r: i16)
        requires
            img.wf(),
            i < img.rows && j < img.cols,
        ensures
            r == gradient_x_at(img, i as int, j as int, halved),
        {
            if 1 <= i && i + 1 < rows && 1 <= j && j + 1 < cols {
                difference_of(img.get(i, j + 1), img.get(i, j - 1), halved)
            } else {
                0
            }
        };
    let gy_at = |i: usize, j: usize| -> (r: i16)
        requires
            img.wf(),
            i < img.rows && j < img.cols,
        ensures
            r == gradient_y_at(img, i as int, j as int, halved),
        {
            if 1 <= i && i + 1 < rows && 1 <= j && j + 1 < cols {
                difference_of(img.get(i + 1, j), img.get(i - 1, j), halved)
            } else {
                0
            }
        };
    let gx = Matrix::from_fn(rows, cols, gx_at);
    let gy = Matrix::from_fn(rows, cols, gy_at);
    proof {
        assert forall|i: int, j: int| img.contains(i, j) implies #[trigger] gx.at(i, j)
            == gradient_x_at(img, i, j, halved) by {
            assert(gx_at.ensures((i as usize, j as usize), gx.at(i, j)));
        }
        assert forall|i: int, j: int| img.contains(i, j) implies #[trigger] gy.at(i, j)
            == gradient_y_at(img, i, j, halved) by {
            assert(gy_at.ensures((i as usize, j as usize), gy.at(i, j)));
        }
    }
    (gx, gy)
}

/// Gradients of a full-resolution image: centered differences halved
/// (rounding toward zero), zero on the outermost ring.
pub fn im_gradient(img: &Matrix<u8>) -> (r: (Matrix<i16>, Matrix<i16>))
    requires
        img.wf(),
    ensures
        are_gradients(r, img, true),
{
    centered_gradients(img, true)
}

/// Gradients of every level of a pyramid but the first: centered
/// differences, not halved, zero on the outermost ring.
pub fn gradients_xy(multires: &Vec<Matrix<u8>>) -> (r: Vec<(Matrix<i16>, Matrix<i16>)>)
    requires
        multires.len() >= 1,
        forall|k: int| 0 <= k < multires.len() ==> (#[trigger] multires@[k]).wf(),
    ensures
        r.len() == multires.len() - 1,
        forall|k: int| 0 <= k < r.len() ==> are_gradients(#[trigger] r@[k], &multires@[k + 1], false),
{
    let mut r: Vec<(Matrix<i16>, Matrix<i16>)> = Vec::new();
    let mut k: usize = 1;
    while k < multires.len()
        invariant
            1 <= k <= multires.len(),
            r.len() == k - 1,
            forall|k: int| 0 <= k < multires.len() ==> (#[trigger] multires@[k]).wf(),
            forall|q: int| 0 <= q < r.len() ==> are_gradients(#[trigger] r@[q], &multires@[q + 1], false),
        decreases multires.len() - k,
    {
        r.push(centered_gradients(&multires[k], false));
        k = k + 1;
    }
    r
}

/// `gx² + gy²` as stored in 16 bits.
pub open spec fn squared_norm(gx: i16, gy: i16) -> u16 {
    ((gx * gx + gy * gy) % 65536) as u16
}

/// `r` holds the squared norm of the gradients `(gx, gy)` at each pixel.
pub open spec fn is_squared_norm_map(r: Matrix<u16>, gx: &Matrix<i16>, gy: &Matrix<i16>) -> bool {
    &&& r.wf()
    &&& r.rows == gx.rows
    &&& r.cols == gx.cols
    &&& forall|i: int, j: int|
        gx.contains(i, j) ==> #[trigger] r.at(i, j) == squared_norm(gx.at(i, j), gy.at(i, j))
}

/// The squared gradient norm at each pixel, kept modulo 2^16.
pub fn grad_squared_norm(grad_x: &Matrix<i16>, grad_y: &Matrix<i16>) -> (r: Matrix<u16>)
    requires
        grad_x.wf(),
        grad_y.wf(),
        grad_x.rows == grad_y.rows,
        grad_x.cols == grad_y.cols,
    ensures
        is_squared_norm_map(r, grad_x, grad_y),
{
    proof {
        grad_x.lemma_size_fits();
    }
    let norm_at = |i: usize, j: usize| -> (r: u16)
        requires
            grad_x.wf(),
            grad_y.wf(),
            grad_x.rows == grad_y.rows,
            grad_x.cols == grad_y.cols,
            i < grad_x.rows && j < grad_x.cols,
        ensures
            r == squared_norm(grad_x.at(i as int, j as int), grad_y.at(i as int, j as int)),
        {
            let gx = grad_x.get(i, j) as i64;
            let gy = grad_y.get(i, j) as i64;
            assert(gx * gx <= 32768 * 32768) by (nonlinear_arith)
                requires
                    -32768 <= gx <= 32767,
            ;
            assert(gy * gy <= 32768 * 32768) by (nonlinear_arith)
                requires
                    -32768 <= gy <= 32767,
            ;
            assert(0 <= gx * gx && 0 <= gy * gy) by (nonlinear_arith);
            ((gx * gx + gy * gy) % 65536) as u16
        };
    let r = Matrix::from_fn(grad_x.rows, grad_x.cols, norm_at);
    proof {
        assert forall|i: int, j: int| grad_x.contains(i, j) implies #[trigger] r.at(i, j)
            == squared_norm(grad_x.at(i, j), grad_y.at(i, j)) by {
            assert(norm_at.ensures((i as usize, j as usize), r.at(i, j)));
        }
    }
    r
}

} // verus!
