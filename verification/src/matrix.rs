use vstd::prelude::*;
use crate::scalar::Scalar;

verus! {

/// Spec-level model of a matrix: its shape and its row-major contents.
#[verifier::ext_equal]
pub ghost struct MatModel<S> {
    pub rows: nat,
    pub cols: nat,
    pub data: Seq<S>,
}

impl<S> MatModel<S> {
    /// Layout invariant: the flat data holds exactly `rows * cols` entries.
    pub open spec fn wf(self) -> bool {
        self.data.len() == self.rows * self.cols
    }

    /// The entry in row `i`, column `j`.
    pub open spec fn entry(self, i: int, j: int) -> S {
        self.data[i * self.cols + j]
    }
}

/// The views of a sequence of vectors.
pub open spec fn vecs_view<S>(v: Seq<Vec<S>>) -> Seq<Seq<S>> {
    v.map_values(|x: Vec<S>| x@)
}

/// The models of a sequence of matrices.
pub open spec fn mats_view<S>(v: Seq<Matrix<S>>) -> Seq<MatModel<S>> {
    v.map_values(|m: Matrix<S>| m@)
}

pub broadcast proof fn lemma_vecs_view_len<S>(v: Seq<Vec<S>>)
    ensures
        #[trigger] vecs_view(v).len() == v.len(),
{
}

pub broadcast proof fn lemma_vecs_view_index<S>(v: Seq<Vec<S>>, i: int)
    requires
        0 <= i < v.len(),
    ensures
        #[trigger] vecs_view(v)[i] == v[i]@,
{
}

pub broadcast proof fn lemma_mats_view_len<S>(v: Seq<Matrix<S>>)
    ensures
        #[trigger] mats_view(v).len() == v.len(),
{
}

pub broadcast proof fn lemma_mats_view_index<S>(v: Seq<Matrix<S>>, i: int)
    requires
        0 <= i < v.len(),
    ensures
        #[trigger] mats_view(v)[i] == v[i]@,
{
}

/// The elementwise sum of two equally long vectors.
pub open spec fn spec_vec_plus<S: Scalar>(a: Seq<S>, b: Seq<S>) -> Seq<S> {
    Seq::new(a.len(), |k: int| a[k].spec_plus(b[k]))
}

/// The elementwise sum of two equally shaped matrices.
pub open spec fn spec_mat_plus<S: Scalar>(a: MatModel<S>, b: MatModel<S>) -> MatModel<S> {
    MatModel { rows: a.rows, cols: a.cols, data: spec_vec_plus(a.data, b.data) }
}

/// The partial inner product of row `row` of `m` with `v`: the sum, seeded
/// at zero and folded left to right, of the first `k` products.
pub open spec fn spec_dot_prefix<S: Scalar>(m: MatModel<S>, v: Seq<S>, row: int, k: int) -> S
    decreases k,
{
    if k <= 0 {
        S::spec_zero()
    } else {
        spec_dot_prefix(m, v, row, k - 1).spec_plus(m.entry(row, k - 1).spec_times(v[k - 1]))
    }
}

/// The product of a matrix and a column vector: one full row inner product
/// per row.
pub open spec fn spec_mat_vec_mul<S: Scalar>(m: MatModel<S>, v: Seq<S>) -> Seq<S> {
    Seq::new(m.rows, |i: int| spec_dot_prefix(m, v, i, m.cols as int))
}

/// The partial inner product of column `col` of `m` with `v`, folded the
/// same way as `spec_dot_prefix`.
pub open spec fn spec_col_prefix<S: Scalar>(m: MatModel<S>, v: Seq<S>, col: int, k: int) -> S
    decreases k,
{
    if k <= 0 {
        S::spec_zero()
    } else {
        spec_col_prefix(m, v, col, k - 1).spec_plus(m.entry(k - 1, col).spec_times(v[k - 1]))
    }
}

/// Law: a dot product with a row of the transpose is the dot product with
/// the corresponding column of the matrix itself.
pub proof fn lemma_transposed_dot<S: Scalar>(
    m: MatModel<S>,
    t: MatModel<S>,
    v: Seq<S>,
    col: int,
    k: int,
)
    requires
        t.rows == m.cols,
        t.cols == m.rows,
        0 <= col < m.cols,
        0 <= k <= m.rows,
        forall|i: int, j: int|
            0 <= i < m.rows && 0 <= j < m.cols ==> #[trigger] t.entry(j, i) == m.entry(i, j),
    ensures
        spec_dot_prefix(t, v, col, k) == spec_col_prefix(m, v, col, k),
    decreases k,
{
    if k > 0 {
        lemma_transposed_dot(m, t, v, col, k - 1);
        assert(t.entry(col, k - 1) == m.entry(k - 1, col));
    }
}

/// The outer product of `gradient` and `activation`, row-major: entry
/// `(i, j)` is `gradient[i] * activation[j]`.
pub open spec fn spec_outer<S: Scalar>(gradient: Seq<S>, activation: Seq<S>) -> MatModel<S> {
    MatModel {
        rows: gradient.len(),
        cols: activation.len(),
        data: Seq::new(
            gradient.len() * activation.len(),
            |k: int|
                gradient[k / (activation.len() as int)].spec_times(
                    activation[k % (activation.len() as int)],
                ),
        ),
    }
}

/// A dense matrix over the scalar `S`, stored row-major in a flat vector.
pub struct Matrix<S> {
    pub rows: usize,
    pub cols: usize,
    pub data: Vec<S>,
}

impl<S> View for Matrix<S> {
    type V = MatModel<S>;

    open spec fn view(&self) -> MatModel<S> {
        MatModel { rows: self.rows as nat, cols: self.cols as nat, data: self.data@ }
    }
}

impl<S: Copy> Matrix<S> {
    /// Layout invariant: the flat data holds exactly `rows * cols` entries.
    pub open spec fn wf(&self) -> bool {
        self.data@.len() == self.rows * self.cols
    }

    /// Wrap a flat row-major vector of length `rows * cols` as a matrix.
    pub fn new(rows: usize, cols: usize, data: Vec<S>) -> (m: Matrix<S>)
        requires
            data@.len() == rows * cols,
        ensures
            m.rows == rows,
            m.cols == cols,
            m.data == data,
            m.wf(),
    {
        Matrix { rows, cols, data }
    }

    /// The matrix transpose: every entry `(i, j)` moves to `(j, i)`.
    #[verifier::loop_isolation(false)]
    pub fn transpose(&self) -> (t: Matrix<S>)
        requires
            self.wf(),
        ensures
            t.wf(),
            t.rows == self.cols,
            t.cols == self.rows,
            forall|i: int, j: int|
                0 <= i < self.rows && 0 <= j < self.cols ==> #[trigger] t@.entry(j, i)
                    == self@.entry(i, j),
    {
        let n = self.data.len();
        let mut data: Vec<S> = Vec::new();
        let mut j: usize = 0;
        while j < self.cols
            invariant
                j <= self.cols,
                data@.len() == j * self.rows,
                forall|jj: int, ii: int|
                    0 <= jj < j && 0 <= ii < self.rows ==> data@[jj * self.rows + ii]
                        == self@.entry(ii, jj),
            decreases self.cols - j,
        {
            let mut i: usize = 0;
            while i < self.rows
                invariant
                    j < self.cols,
                    i <= self.rows,
                    data@.len() == j * self.rows + i,
                    forall|jj: int, ii: int|
                        0 <= jj < j && 0 <= ii < self.rows ==> data@[jj * self.rows + ii]
                            == self@.entry(ii, jj),
                    forall|ii: int|
                        0 <= ii < i ==> data@[j * self.rows + ii] == self@.entry(ii, j as int),
                decreases self.rows - i,
            {
                assert(i * self.cols + j < n) by (nonlinear_arith)
                    requires
                        i < self.rows,
                        j < self.cols,
                        n == self.rows * self.cols,
                ;
                data.push(self.data[i * self.cols + j]);
                proof {
                    assert forall|jj: int, ii: int|
                        0 <= jj < j && 0 <= ii < self.rows implies #[trigger] data@[jj * self.rows
                        + ii] == self@.entry(ii, jj) by {
                        vstd::arithmetic::mul::lemma_mul_inequality(
                            jj + 1,
                            j as int,
                            self.rows as int,
                        );
                        assert((jj + 1) * self.rows == jj * self.rows + self.rows)
                            by (nonlinear_arith);
                        assert(jj * self.rows + ii < j * self.rows + i);
                    };
                }
                i = i + 1;
            }
            j = j + 1;
            assert(data@.len() == j * self.rows) by (nonlinear_arith)
                requires
                    data@.len() == (j - 1) * self.rows + self.rows,
            ;
        }
        let t = Matrix { rows: self.cols, cols: self.rows, data };
        assert(t.data@.len() == t.rows * t.cols) by (nonlinear_arith)
            requires
                t.data@.len() == self.cols * self.rows,
                t.rows == self.cols,
                t.cols == self.rows,
        ;
        t
    }
}

/// Copy a vector of plain scalars element by element.
#[verifier::loop_isolation(false)]
pub fn copy_vec<S: Copy>(v: &Vec<S>) -> (r: Vec<S>)
    ensures
        r@ == v@,
{
    let mut r: Vec<S> = Vec::new();
    let mut i: usize = 0;
    while i < v.len()
        invariant
            i <= v@.len(),
            r@ == v@.subrange(0, i as int),
        decreases v@.len() - i,
    {
        r.push(v[i]);
        i = i + 1;
    }
    assert(r@ =~= v@);
    r
}

/// Multiply a matrix by a column vector: entry `i` of the result is the
/// inner product of row `i` with `v`, summed left to right from a zero seed.
#[verifier::loop_isolation(false)]
pub fn mat_vec_mul<S: Scalar>(m: &Matrix<S>, v: &Vec<S>) -> (r: Vec<S>)
    requires
        m.wf(),
        v@.len() == m.cols,
    ensures
        r@.len() == m.rows,
        r@ == spec_mat_vec_mul(m@, v@),
{
    let n = m.data.len();
    let mut r: Vec<S> = Vec::new();
    let mut i: usize = 0;
    while i < m.rows
        invariant
            i <= m.rows,
            r@.len() == i,
            forall|k: int|
                0 <= k < i ==> #[trigger] r@[k] == spec_dot_prefix(m@, v@, k, m.cols as int),
        decreases m.rows - i,
    {
        let mut acc = S::zero();
        let mut j: usize = 0;
        while j < m.cols
            invariant
                i < m.rows,
                j <= m.cols,
                acc == spec_dot_prefix(m@, v@, i as int, j as int),
            decreases m.cols - j,
        {
            assert(i * m.cols + j < n) by (nonlinear_arith)
                requires
                    i < m.rows,
                    j < m.cols,
                    n == m.rows * m.cols,
            ;
            acc = acc.plus(m.data[i * m.cols + j].times(v[j]));
            j = j + 1;
            proof {
                assert(m@.entry(i as int, j - 1) == m.data@[i * m.cols + (j - 1)]);
            }
        }
        r.push(acc);
        i = i + 1;
    }
    assert(r@ =~= spec_mat_vec_mul(m@, v@));
    r
}

/// Add two equally-shaped column vectors elementwise.
#[verifier::loop_isolation(false)]
pub fn vec_plus<S: Scalar>(a: &Vec<S>, b: &Vec<S>) -> (r: Vec<S>)
    requires
        a@.len() == b@.len(),
    ensures
        r@.len() == a@.len(),
        r@ == spec_vec_plus(a@, b@),
{
    let mut r: Vec<S> = Vec::new();
    let mut i: usize = 0;
    while i < a.len()
        invariant
            i <= a@.len(),
            a@.len() == b@.len(),
            r@.len() == i,
            forall|k: int| 0 <= k < i ==> #[trigger] r@[k] == a@[k].spec_plus(b@[k]),
        decreases a@.len() - i,
    {
        r.push(a[i].plus(b[i]));
        i = i + 1;
    }
    assert(r@ =~= spec_vec_plus(a@, b@));
    r
}

/// Add two equally-shaped matrices elementwise.
#[verifier::loop_isolation(false)]
pub fn mat_plus<S: Scalar>(a: &Matrix<S>, b: &Matrix<S>) -> (r: Matrix<S>)
    requires
        a.wf(),
        b.wf(),
        a.rows == b.rows,
        a.cols == b.cols,
    ensures
        r.wf(),
        r.rows == a.rows,
        r.cols == a.cols,
        r@ == spec_mat_plus(a@, b@),
{
    let mut data: Vec<S> = Vec::new();
    let mut i: usize = 0;
    while i < a.data.len()
        invariant
            i <= a.data@.len(),
            a.data@.len() == b.data@.len(),
            data@.len() == i,
            forall|k: int| 0 <= k < i ==> #[trigger] data@[k] == a.data@[k].spec_plus(b.data@[k]),
        decreases a.data@.len() - i,
    {
        data.push(a.data[i].plus(b.data[i]));
        i = i + 1;
    }
    let r = Matrix { rows: a.rows, cols: a.cols, data };
    assert(r.data@ =~= spec_vec_plus(a.data@, b.data@));
    assert(r@ =~= spec_mat_plus(a@, b@));
    r
}

/// The outer product that updates a weight matrix: entry `(i, j)` is
/// `gradient[i] * activation[j]`, so the result is shaped
/// `gradient.len() x activation.len()`, exactly like the weight matrix
/// between the two layers.
#[verifier::loop_isolation(false)]
pub fn get_weight_delta<S: Scalar>(activation: &Vec<S>, gradient: &Vec<S>) -> (r: Matrix<S>)
    ensures
        r.wf(),
        r.rows == gradient@.len(),
        r.cols == activation@.len(),
        r@ == spec_outer(gradient@, activation@),
{
    let width = activation.len();
    let mut data: Vec<S> = Vec::new();
    let mut i: usize = 0;
    while i < gradient.len()
        invariant
            i <= gradient@.len(),
            width == activation@.len(),
            data@.len() == i * width,
            forall|ii: int, jj: int|
                0 <= ii < i && 0 <= jj < width ==> data@[ii * width + jj] == gradient@[
                    ii
                ].spec_times(activation@[jj]),
        decreases gradient@.len() - i,
    {
        let mut j: usize = 0;
        while j < width
            invariant
                i < gradient@.len(),
                j <= width,
                data@.len() == i * width + j,
                forall|ii: int, jj: int|
                    0 <= ii < i && 0 <= jj < width ==> data@[ii * width + jj] == gradient@[
                        ii
                    ].spec_times(activation@[jj]),
                forall|jj: int|
                    0 <= jj < j ==> data@[i * width + jj] == gradient@[i as int].spec_times(
                        activation@[jj],
                    ),
            decreases width - j,
        {
            data.push(gradient[i].times(activation[j]));
            proof {
                assert forall|ii: int, jj: int|
                    0 <= ii < i && 0 <= jj < width implies #[trigger] data@[ii * width + jj]
                    == gradient@[ii].spec_times(activation@[jj]) by {
                    vstd::arithmetic::mul::lemma_mul_inequality(ii + 1, i as int, width as int);
                    assert((ii + 1) * width == ii * width + width) by (nonlinear_arith);
                    assert(ii * width + jj < i * width + j);
                };
            }
            j = j + 1;
        }
        i = i + 1;
        assert(data@.len() == i * width) by (nonlinear_arith)
            requires
                data@.len() == (i - 1) * width + width,
        ;
    }
    let r = Matrix { rows: gradient.len(), cols: activation.len(), data };
    assert(r.data@.len() == r.rows * r.cols) by (nonlinear_arith)
        requires
            r.data@.len() == gradient@.len() * width,
            r.rows == gradient@.len(),
            r.cols == width,
    ;
    proof {
        let g = gradient@;
        let a = activation@;
        let w = a.len() as int;
        assert forall|k: int| 0 <= k < r.data@.len() implies #[trigger] r.data@[k] == g[k
            / w].spec_times(a[k % w]) by {
            assert(w > 0) by (nonlinear_arith)
                requires
                    r.data@.len() == g.len() * w,
                    0 <= k < r.data@.len(),
                    w >= 0,
            ;
            vstd::arithmetic::div_mod::lemma_fundamental_div_mod(k, w);
            vstd::arithmetic::div_mod::lemma_mod_bound(k, w);
            let ii = k / w;
            let jj = k % w;
            assert(w * ii == ii * w) by (nonlinear_arith);
            assert(ii < g.len()) by {
                if ii >= g.len() {
                    vstd::arithmetic::mul::lemma_mul_inequality(g.len() as int, ii, w);
                    assert(false);
                }
            };
            assert(data@[ii * w + jj] == g[ii].spec_times(a[jj]));
        };
        assert(r.data@ =~= spec_outer(g, a).data);
        assert(r@ =~= spec_outer(g, a));
    }
    r
}

} // verus!
