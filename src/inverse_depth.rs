//! Inverse depth of a pixel, its fusion over 2x2 blocks, and the extraction
//! of the pixels that carry one.
use vstd::prelude::*;

use crate::matrix::Matrix;

verus! {

/// Inverse depth of a pixel: unknown, discarded by fusion, or a value with
/// its variance.
#[derive(Clone, Copy, Debug, PartialEq)]
pub enum InverseDepth<Z> {
    Unknown,
    Discarded,
    WithVariance(Z, Z),
}

/// Whether `d` carries a value.
pub open spec fn is_valid<Z>(d: InverseDepth<Z>) -> bool {
    d is WithVariance
}

/// The value and variance carried by `d`, when it is valid.
pub open spec fn payload<Z>(d: InverseDepth<Z>) -> (Z, Z)
    recommends
        is_valid(d),
{
    match d {
        InverseDepth::WithVariance(z, v) => (z, v),
        _ => arbitrary(),
    }
}

/// How many of four inverse depths are valid.
pub open spec fn valid_count<Z>(
    a: InverseDepth<Z>,
    b: InverseDepth<Z>,
    c: InverseDepth<Z>,
    d: InverseDepth<Z>,
) -> int {
    (if is_valid(a) { 1int } else { 0int }) + (if is_valid(b) { 1int } else { 0int }) + (if is_valid(
        c,
    ) {
        1int
    } else {
        0int
    }) + (if is_valid(d) { 1int } else { 0int })
}

/// Fuses the four inverse depths of a 2x2 block: `Unknown` when none is valid,
/// `Discarded` when only some are, and what the strategy `combine` makes of
/// their values and variances when all four are.
pub fn fuse<Z: Copy, F: Fn((Z, Z), (Z, Z), (Z, Z), (Z, Z)) -> InverseDepth<Z>>(
    a: InverseDepth<Z>,
    b: InverseDepth<Z>,
    c: InverseDepth<Z>,
    d: InverseDepth<Z>,
    combine: F,
) -> (r: InverseDepth<Z>)
    requires
        valid_count(a, b, c, d) == 4 ==> combine.requires(
            (payload(a), payload(b), payload(c), payload(d)),
        ),
    ensures
        valid_count(a, b, c, d) == 0 ==> r is Unknown,
        0 < valid_count(a, b, c, d) < 4 ==> r is Discarded,
        valid_count(a, b, c, d) == 4 ==> combine.ensures(
            (payload(a), payload(b), payload(c), payload(d)),
            r,
        ),
{
    match (a, b, c, d) {
        (
            InverseDepth::WithVariance(za, va),
            InverseDepth::WithVariance(zb, vb),
            InverseDepth::WithVariance(zc, vc),
            InverseDepth::WithVariance(zd, vd),
        ) => {
            combine((za, va), (zb, vb), (zc, vc), (zd, vd))
        },
        _ => {
            let any_valid = matches!(a, InverseDepth::WithVariance(..)) || matches!(b, InverseDepth::WithVariance(..))
                || matches!(c, InverseDepth::WithVariance(..)) || matches!(d, InverseDepth::WithVariance(..));
            if any_valid {
                InverseDepth::Discarded
            } else {
                InverseDepth::Unknown
            }
        },
    }
}

/// `r` is what `fuse` gives on the block `x` with the strategy `strategy`.
pub open spec fn is_fusion<Z, F: Fn((Z, Z), (Z, Z), (Z, Z), (Z, Z)) -> InverseDepth<Z>>(
    x: (InverseDepth<Z>, InverseDepth<Z>, InverseDepth<Z>, InverseDepth<Z>),
    strategy: F,
    r: InverseDepth<Z>,
) -> bool {
    let n = valid_count(x.0, x.1, x.2, x.3);
    &&& n == 0 ==> r is Unknown
    &&& 0 < n < 4 ==> r is Discarded
    &&& n == 4 ==> strategy.ensures((payload(x.0), payload(x.1), payload(x.2), payload(x.3)), r)
}

/// `f` of the cell of `m` where `mask` holds, `default` elsewhere.
pub fn zip_mask_map<T: Copy, U: Copy, F: Fn(T) -> U>(
    m: &Matrix<T>,
    mask: &Matrix<bool>,
    default: U,
    f: F,
) -> (r: Matrix<U>)
    requires
        m.wf(),
        mask.wf(),
        m.rows == mask.rows,
        m.cols == mask.cols,
        forall|x: T| #[trigger] f.requires((x,)),
    ensures
        r.wf(),
        r.rows == m.rows,
        r.cols == m.cols,
        forall|i: int, j: int|
            m.contains(i, j) ==> if mask.at(i, j) {
                f.ensures((m.at(i, j),), #[trigger] r.at(i, j))
            } else {
                r.at(i, j) == default
            },
{
    proof {
        m.lemma_size_fits();
    }
    let fr = &f;
    let cell = |i: usize, j: usize| -> (r: U)
        requires
            m.wf(),
            mask.wf(),
            m.rows == mask.rows,
            m.cols == mask.cols,
            forall|x: T| #[trigger] fr.requires((x,)),
            i < m.rows && j < m.cols,
        ensures
            if mask.at(i as int, j as int) {
                fr.ensures((m.at(i as int, j as int),), r)
            } else {
                r == default
            },
        {
            if mask.get(i, j) {
                fr(m.get(i, j))
            } else {
                default
            }
        };
    let r = Matrix::from_fn(m.rows, m.cols, cell);
    proof {
        assert forall|i: int, j: int| m.contains(i, j) implies if mask.at(i, j) {
            f.ensures((m.at(i, j),), #[trigger] r.at(i, j))
        } else {
            r.at(i, j) == default
        } by {
            assert(cell.ensures((i as usize, j as usize), r.at(i, j)));
        }
    }
    r
}

proof fn lemma_flat_position(k: int, rows: int, cols: int)
    requires
        0 <= k < rows * cols,
        rows > 0,
    ensures
        0 <= k / rows < cols,
        0 <= k % rows < rows,
        (k / rows) * rows + k % rows == k,
{
    vstd::arithmetic::div_mod::lemma_fundamental_div_mod(k, rows);
    assert(0 <= k / rows) by {
        vstd::arithmetic::div_mod::lemma_div_pos_is_pos(k, rows);
    }
    let q = k / rows;
    assert(q * rows == rows * q) by (nonlinear_arith);
    assert(q < cols) by (nonlinear_arith)
        requires
            k == q * rows + k % rows,
            0 <= k % rows,
            k < rows * cols,
            rows > 0,
    ;
}

/// Positions `(column, row)` and values of the valid cells among the first `n`
/// cells of `m`, in storage order (column by column).
pub open spec fn usable_prefix<Z>(m: &Matrix<InverseDepth<Z>>, n: int) -> (Seq<(usize, usize)>, Seq<Z>)
    decreases n,
{
    if n <= 0 {
        (Seq::empty(), Seq::empty())
    } else {
        let prev = usable_prefix(m, n - 1);
        match m.cells@[n - 1] {
            InverseDepth::WithVariance(z, _) => (
                prev.0.push((((n - 1) / m.rows as int) as usize, ((n - 1) % m.rows as int) as usize)),
                prev.1.push(z),
            ),
            _ => prev,
        }
    }
}

/// Positions `(column, row)` and values of all valid cells of `m`, column by column.
pub open spec fn usable<Z>(m: &Matrix<InverseDepth<Z>>) -> (Seq<(usize, usize)>, Seq<Z>) {
    usable_prefix(m, m.cells@.len() as int)
}

/// The positions `(column, row)` of the cells of `m` that hold an inverse
/// depth, column by column, and those inverse depths.
pub fn extract_z<Z: Copy>(m: &Matrix<InverseDepth<Z>>) -> (r: (Vec<(usize, usize)>, Vec<Z>))
    requires
        m.wf(),
    ensures
        r.0@ == usable(m).0,
        r.1@ == usable(m).1,
        r.0.len() == r.1.len(),
        forall|k: int|
            0 <= k < r.0.len() ==> {
                let (col, row) = #[trigger] r.0@[k];
                &&& m.contains(row as int, col as int)
                &&& m.at(row as int, col as int) matches InverseDepth::WithVariance(z, _)
                &&& z == r.1@[k]
            },
{
    let mut coordinates: Vec<(usize, usize)> = Vec::new();
    let mut z_vec: Vec<Z> = Vec::new();
    let n = m.cells.len();
    let mut k: usize = 0;
    while k < n
        invariant
            m.wf(),
            n == m.cells@.len(),
            k <= n,
            coordinates@ == usable_prefix(m, k as int).0,
            z_vec@ == usable_prefix(m, k as int).1,
            coordinates.len() == z_vec.len(),
            forall|q: int|
                0 <= q < coordinates.len() ==> {
                    let (col, row) = #[trigger] coordinates@[q];
                    &&& m.contains(row as int, col as int)
                    &&& m.at(row as int, col as int) matches InverseDepth::WithVariance(z, _)
                    &&& z == z_vec@[q]
                },
        decreases n - k,
    {
        if let InverseDepth::WithVariance(z, _) = m.cells[k] {
            assert(m.rows > 0) by {
                if m.rows == 0 {
                    assert(m.rows * m.cols == 0);
                }
            }
            let col = k / m.rows;
            let row = k % m.rows;
            proof {
                lemma_flat_position(k as int, m.rows as int, m.cols as int);
            }
            coordinates.push((col, row));
            z_vec.push(z);
        }
        k = k + 1;
    }
    (coordinates, z_vec)
}

} // verus!
