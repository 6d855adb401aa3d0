//! Dense row-major matrices of binary32 bit patterns, with shapes carried
//! alongside the buffer and checked at every operation boundary.

use crate::error::ShapeMismatch;
use crate::fp::{
    add_bits, fp_add, fp_is_finite, fp_is_nan, fp_lt_zero, fp_mul, lt_zero, mul_bits, NEG_ZERO_BITS,
    ONE_BITS, ZERO_BITS,
};
use vstd::arithmetic::div_mod::{lemma_fundamental_div_mod, lemma_fundamental_div_mod_converse};
use vstd::arithmetic::mul::lemma_mul_inequality;
use vstd::prelude::*;

verus! {

/// The mathematical model of a matrix: a width, a height, and the row-major
/// sequence of entry bit patterns.
#[verifier::ext_equal]
pub ghost struct MatView {
    pub width: nat,
    pub height: nat,
    pub elems: Seq<u32>,
}

impl MatView {
    /// The buffer holds exactly width times height entries.
    pub open spec fn wf(self) -> bool {
        self.elems.len() == self.width * self.height
    }

    /// The entry in row `r` and column `c`.
    pub open spec fn at(self, r: int, c: int) -> u32 {
        self.elems[r * self.width + c]
    }

    /// `r` and `c` index a valid row and column.
    pub open spec fn in_range(self, r: int, c: int) -> bool {
        0 <= r < self.height && 0 <= c < self.width
    }

    /// No entry is a NaN bit pattern.
    pub open spec fn no_nan(self) -> bool {
        forall|i: int| 0 <= i < self.elems.len() ==> !fp_is_nan(#[trigger] self.elems[i])
    }
}

/// The transpose: entry (r, c) of the result is entry (c, r) of the operand.
pub open spec fn spec_transpose(m: MatView) -> MatView {
    MatView {
        width: m.height,
        height: m.width,
        elems: Seq::new(m.elems.len(), |idx: int| m.at(idx % (m.height as int), idx / (m.height as int))),
    }
}

/// The element-wise binary32 sum of two same-shape matrices.
pub open spec fn spec_matrix_add(a: MatView, b: MatView) -> MatView {
    MatView {
        width: a.width,
        height: a.height,
        elems: Seq::new(a.elems.len(), |idx: int| fp_add(a.elems[idx], b.elems[idx])),
    }
}

/// The leaky rectifier: entries below zero are scaled by `alpha`, all other
/// entries pass unchanged.
pub open spec fn spec_relu(m: MatView, alpha: u32) -> MatView {
    MatView {
        width: m.width,
        height: m.height,
        elems: Seq::new(
            m.elems.len(),
            |idx: int|
                if fp_lt_zero(m.elems[idx]) {
                    fp_mul(m.elems[idx], alpha)
                } else {
                    m.elems[idx]
                },
        ),
    }
}

/// The left-to-right binary32 accumulation of the first `k` products of
/// row `i` of `a` against column `j` of `b`, starting from positive zero.
pub open spec fn dot_chain(a: MatView, b: MatView, i: int, j: int, k: int) -> u32
    decreases k,
{
    if k <= 0 {
        ZERO_BITS
    } else {
        fp_add(dot_chain(a, b, i, j, k - 1), fp_mul(a.at(i, k - 1), b.at(k - 1, j)))
    }
}

/// The matrix product: entry (i, j) accumulates row `i` of `a` against
/// column `j` of `b` in index order.
pub open spec fn spec_dot(a: MatView, b: MatView) -> MatView {
    MatView {
        width: b.width,
        height: a.height,
        elems: Seq::new(
            a.height * b.width,
            |idx: int|
                dot_chain(a, b, idx / (b.width as int), idx % (b.width as int), a.width as int),
        ),
    }
}

pub(crate) proof fn lemma_row_major(w: int, h: int, r: int, c: int)
    requires
        0 <= r < h,
        0 <= c < w,
    ensures
        0 <= r * w + c < h * w,
        (r * w + c) / w == r,
        (r * w + c) % w == c,
{
    assert(0 <= r * w + c < h * w) by (nonlinear_arith)
        requires
            0 <= r < h,
            0 <= c < w,
    ;
    lemma_fundamental_div_mod_converse(r * w + c, w, r, c);
}

/// Shape and entries of the transpose, entry by entry.
pub proof fn lemma_transpose_at(m: MatView, r: int, c: int)
    requires
        m.wf(),
        0 <= r < m.width,
        0 <= c < m.height,
    ensures
        spec_transpose(m).wf(),
        spec_transpose(m).at(r, c) == m.at(c, r),
{
    assert(m.height * m.width == m.width * m.height) by (nonlinear_arith);
    lemma_row_major(m.height as int, m.width as int, r, c);
}

/// Shape and entries of the product, entry by entry.
pub proof fn lemma_dot_at(a: MatView, b: MatView, i: int, j: int)
    requires
        0 <= i < a.height,
        0 <= j < b.width,
    ensures
        spec_dot(a, b).wf(),
        spec_dot(a, b).at(i, j) == dot_chain(a, b, i, j, a.width as int),
{
    assert(a.height * b.width == b.width * a.height) by (nonlinear_arith);
    lemma_row_major(b.width as int, a.height as int, i, j);
}

/// Two well-formed matrices of the same shape with the same entries are equal.
pub proof fn lemma_mat_eq(x: MatView, y: MatView)
    requires
        x.wf(),
        y.wf(),
        x.width == y.width,
        x.height == y.height,
        forall|r: int, c: int| x.in_range(r, c) ==> x.at(r, c) == #[trigger] y.at(r, c),
    ensures
        x == y,
{
    let w = x.width as int;
    let h = x.height as int;
    assert forall|idx: int| 0 <= idx < x.elems.len() implies x.elems[idx] == y.elems[idx] by {
        assert(w > 0) by {
            if x.width == 0 {
                assert(x.width * x.height == 0) by (nonlinear_arith)
                    requires
                        x.width == 0,
                ;
            }
        }
        let r = idx / w;
        let c = idx % w;
        lemma_fundamental_div_mod(idx, w);
        assert(0 <= c < w);
        assert(idx == r * w + c) by (nonlinear_arith)
            requires
                idx == w * r + c,
        ;
        assert(r < h) by {
            if r >= h {
                lemma_mul_inequality(h, r, w);
                assert(false);
            }
        }
        assert(x.at(r, c) == y.at(r, c));
    }
    assert(x.elems =~= y.elems);
    assert(x =~= y);
}

/// The operand-order symmetry of the binary32 product, over every product
/// that a multiplication of `a` and `b` takes.
pub open spec fn mul_sym_on(a: MatView, b: MatView) -> bool {
    forall|i: int, j: int, k: int|
        0 <= i < a.height && 0 <= j < b.width && 0 <= k < a.width && !fp_is_nan(a.at(i, k))
            && !fp_is_nan(b.at(k, j)) ==> #[trigger] fp_mul(a.at(i, k), b.at(k, j)) == fp_mul(
            b.at(k, j),
            a.at(i, k),
        )
}

proof fn lemma_chain_swap(a: MatView, b: MatView, i: int, j: int, k: int)
    requires
        a.wf(),
        b.wf(),
        a.width == b.height,
        0 <= i < a.height,
        0 <= j < b.width,
        0 <= k <= a.width,
        a.no_nan(),
        b.no_nan(),
        mul_sym_on(a, b),
    ensures
        dot_chain(a, b, i, j, k) == dot_chain(spec_transpose(b), spec_transpose(a), j, i, k),
    decreases k,
{
    if k > 0 {
        lemma_chain_swap(a, b, i, j, k - 1);
        lemma_transpose_at(b, j, k - 1);
        lemma_transpose_at(a, k - 1, i);
        lemma_row_major(a.width as int, a.height as int, i, k - 1);
        lemma_row_major(b.width as int, b.height as int, k - 1, j);
        assert(a.height * a.width == a.width * a.height) by (nonlinear_arith);
        assert(b.height * b.width == b.width * b.height) by (nonlinear_arith);
        assert(!fp_is_nan(a.elems[i * (a.width as int) + (k - 1)]));
        assert(!fp_is_nan(b.elems[(k - 1) * (b.width as int) + j]));
        assert(fp_mul(a.at(i, k - 1), b.at(k - 1, j)) == fp_mul(b.at(k - 1, j), a.at(i, k - 1)));
    }
}

/// An immutable dense matrix: a row-major buffer of binary32 bit patterns
/// whose length always equals width times height.
#[derive(Debug)]
pub struct Matrix {
    width: usize,
    height: usize,
    buf: Vec<u32>,
}

impl View for Matrix {
    type V = MatView;

    closed spec fn view(&self) -> MatView {
        MatView { width: self.width as nat, height: self.height as nat, elems: self.buf@ }
    }
}

impl Matrix {
    /// Wraps a raw row-major buffer whose length matches the given shape.
    pub fn from_buffer(width: usize, height: usize, buf: Vec<u32>) -> (r: Matrix)
        requires
            buf@.len() == width * height,
        ensures
            r@ == (MatView { width: width as nat, height: height as nat, elems: buf@ }),
            r@.wf(),
    {
        Matrix { width, height, buf }
    }

    /// Wraps a flat buffer as a matrix of height one.
    pub fn from_array(arr: Vec<u32>) -> (r: Matrix)
        ensures
            r@ == (MatView { width: arr@.len(), height: 1nat, elems: arr@ }),
            r@.wf(),
    {
        let width = arr.len();
        proof {
            assert(arr@.len() * 1 == arr@.len()) by (nonlinear_arith);
        }
        Matrix { width, height: 1, buf: arr }
    }

    /// The number of columns.
    pub fn width(&self) -> (r: usize)
        ensures
            r as nat == self@.width,
    {
        self.width
    }

    /// The number of rows.
    pub fn height(&self) -> (r: usize)
        ensures
            r as nat == self@.height,
    {
        self.height
    }

    /// The entry in row `r` and column `c`.
    pub fn get(&self, r: usize, c: usize) -> (v: u32)
        requires
            self@.wf(),
            self@.in_range(r as int, c as int),
        ensures
            v == self@.at(r as int, c as int),
    {
        let n = self.buf.len();
        proof {
            assert(n as nat == self@.elems.len());
            lemma_row_major(self@.width as int, self@.height as int, r as int, c as int);
            assert(self@.height * self@.width == self@.width * self@.height) by (nonlinear_arith);
        }
        self.buf[r * self.width + c]
    }

    /// The transpose, as a fresh matrix.
    pub fn transpose(&self) -> (r: Matrix)
        requires
            self@.wf(),
        ensures
            r@.wf(),
            r@ == spec_transpose(self@),
    {
        let new_width = self.height;
        let new_height = self.width;
        let mut buf: Vec<u32> = Vec::new();
        let ghost t = spec_transpose(self@);
        let mut rr: usize = 0;
        while rr < new_height
            invariant
                self@.wf(),
                new_width == self@.height,
                new_height == self@.width,
                t == spec_transpose(self@),
                rr <= new_height,
                buf@.len() == rr * new_width,
                forall|n: int| 0 <= n < buf@.len() ==> buf@[n] == t.elems[n],
            decreases new_height - rr,
        {
            let mut cc: usize = 0;
            while cc < new_width
                invariant
                    self@.wf(),
                    new_width == self@.height,
                    new_height == self@.width,
                    t == spec_transpose(self@),
                    rr < new_height,
                    cc <= new_width,
                    buf@.len() == rr * new_width + cc,
                    forall|n: int| 0 <= n < buf@.len() ==> buf@[n] == t.elems[n],
                decreases new_width - cc,
            {
                proof {
                    lemma_row_major(new_width as int, new_height as int, rr as int, cc as int);
                    lemma_transpose_at(self@, rr as int, cc as int);
                }
                let v = self.get(cc, rr);
                buf.push(v);
                cc = cc + 1;
            }
            proof {
                assert(rr * new_width + new_width == (rr + 1) * new_width) by (nonlinear_arith);
            }
            rr = rr + 1;
        }
        proof {
            assert(buf@ =~= t.elems);
            assert(self@.width * self@.height == self@.height * self@.width) by (nonlinear_arith);
        }
        Matrix { width: new_width, height: new_height, buf }
    }

    /// The element-wise sum, used to add a bias of the same shape.
    pub fn add(&self, other: &Matrix) -> (r: Matrix)
        requires
            self@.wf(),
            other@.wf(),
            self@.width == other@.width,
            self@.height == other@.height,
        ensures
            r@.wf(),
            r@ == spec_matrix_add(self@, other@),
    {
        let n = self.buf.len();
        let mut buf: Vec<u32> = Vec::new();
        let ghost s = spec_matrix_add(self@, other@);
        let mut idx: usize = 0;
        while idx < n
            invariant
                n == self@.elems.len(),
                n == other@.elems.len(),
                s == spec_matrix_add(self@, other@),
                idx <= n,
                buf@.len() == idx,
                forall|m: int| 0 <= m < idx ==> buf@[m] == s.elems[m],
            decreases n - idx,
        {
            let v = add_bits(self.buf[idx], other.buf[idx]);
            buf.push(v);
            idx = idx + 1;
        }
        proof {
            assert(buf@ =~= s.elems);
        }
        Matrix { width: self.width, height: self.height, buf }
    }

    /// The leaky rectifier with slope `alpha`.
    ///
    /// Two laws ride along in the contract: with slope zero every finite
    /// negative entry becomes a (negative) zero, and with slope one every
    /// non-NaN entry passes through unchanged.
    pub fn relu(&self, alpha: u32) -> (r: Matrix)
        requires
            self@.wf(),
        ensures
            r@.wf(),
            r@ == spec_relu(self@, alpha),
            alpha == ZERO_BITS ==> forall|n: int|
                0 <= n < self@.elems.len() && fp_lt_zero(#[trigger] self@.elems[n]) && fp_is_finite(
                    self@.elems[n],
                ) ==> r@.elems[n] == NEG_ZERO_BITS,
            alpha == ONE_BITS ==> forall|n: int|
                0 <= n < self@.elems.len() && !fp_is_nan(#[trigger] self@.elems[n])
                    ==> r@.elems[n] == self@.elems[n],
    {
        let n = self.buf.len();
        let mut buf: Vec<u32> = Vec::new();
        let ghost s = spec_relu(self@, alpha);
        let mut idx: usize = 0;
        while idx < n
            invariant
                n == self@.elems.len(),
                s == spec_relu(self@, alpha),
                idx <= n,
                buf@.len() == idx,
                forall|m: int| 0 <= m < idx ==> buf@[m] == s.elems[m],
                alpha == ZERO_BITS ==> forall|m: int|
                    0 <= m < idx && fp_lt_zero(#[trigger] self@.elems[m]) && fp_is_finite(
                        self@.elems[m],
                    ) ==> buf@[m] == NEG_ZERO_BITS,
                alpha == ONE_BITS ==> forall|m: int|
                    0 <= m < idx && !fp_is_nan(#[trigger] self@.elems[m]) ==> buf@[m]
                        == self@.elems[m],
            decreases n - idx,
        {
            let e = self.buf[idx];
            let v = if lt_zero(e) {
                mul_bits(e, alpha)
            } else {
                e
            };
            buf.push(v);
            idx = idx + 1;
        }
        proof {
            assert(buf@ =~= s.elems);
        }
        Matrix { width: self.width, height: self.height, buf }
    }

    /// The matrix product.
    ///
    /// The product-transpose law rides along in the contract: for NaN-free
    /// operands, transposing the product equals the product of the
    /// transposes taken in the opposite order.
    pub fn dot(&self, other: &Matrix) -> (r: Matrix)
        requires
            self@.wf(),
            other@.wf(),
            self@.width == other@.height,
        ensures
            r@.wf(),
            r@ == spec_dot(self@, other@),
            self@.no_nan() && other@.no_nan() ==> spec_transpose(r@) == spec_dot(
                spec_transpose(other@),
                spec_transpose(self@),
            ),
    {
        let rows = self.height;
        let cols = other.width;
        let mut buf: Vec<u32> = Vec::new();
        let ghost d = spec_dot(self@, other@);
        let mut i: usize = 0;
        while i < rows
            invariant
                self@.wf(),
                other@.wf(),
                self@.width == other@.height,
                rows == self@.height,
                cols == other@.width,
                d == spec_dot(self@, other@),
                i <= rows,
                buf@.len() == i * cols,
                forall|n: int| 0 <= n < buf@.len() ==> buf@[n] == d.elems[n],
                forall|i2: int, j2: int, k2: int|
                    0 <= i2 < i && 0 <= j2 < cols && 0 <= k2 < self@.width && !fp_is_nan(
                        self@.at(i2, k2),
                    ) && !fp_is_nan(other@.at(k2, j2)) ==> #[trigger] fp_mul(
                        self@.at(i2, k2),
                        other@.at(k2, j2),
                    ) == fp_mul(other@.at(k2, j2), self@.at(i2, k2)),
            decreases rows - i,
        {
            let mut j: usize = 0;
            while j < cols
                invariant
                    self@.wf(),
                    other@.wf(),
                    self@.width == other@.height,
                    rows == self@.height,
                    cols == other@.width,
                    d == spec_dot(self@, other@),
                    i < rows,
                    j <= cols,
                    buf@.len() == i * cols + j,
                    forall|n: int| 0 <= n < buf@.len() ==> buf@[n] == d.elems[n],
                    forall|i2: int, j2: int, k2: int|
                        0 <= i2 < i && 0 <= j2 < cols && 0 <= k2 < self@.width && !fp_is_nan(
                            self@.at(i2, k2),
                        ) && !fp_is_nan(other@.at(k2, j2)) ==> #[trigger] fp_mul(
                            self@.at(i2, k2),
                            other@.at(k2, j2),
                        ) == fp_mul(other@.at(k2, j2), self@.at(i2, k2)),
                    forall|j2: int, k2: int|
                        0 <= j2 < j && 0 <= k2 < self@.width && !fp_is_nan(self@.at(i as int, k2))
                            && !fp_is_nan(other@.at(k2, j2)) ==> #[trigger] fp_mul(
                            self@.at(i as int, k2),
                            other@.at(k2, j2),
                        ) == fp_mul(other@.at(k2, j2), self@.at(i as int, k2)),
                decreases cols - j,
            {
                proof {
                    lemma_row_major(cols as int, rows as int, i as int, j as int);
                    lemma_dot_at(self@, other@, i as int, j as int);
                }
                let v = dot_cell(self, other, i, j);
                buf.push(v);
                j = j + 1;
            }
            proof {
                assert(i * cols + cols == (i + 1) * cols) by (nonlinear_arith);
            }
            i = i + 1;
        }
        proof {
            assert(buf@.len() == rows * cols);
            assert(d.elems.len() == rows * cols);
            assert(buf@ =~= d.elems);
            assert(self@.height * other@.width == other@.width * self@.height) by (nonlinear_arith);
        }
        let result = Matrix { width: cols, height: rows, buf };
        proof {
            assert(result@ =~= d);
            if self@.no_nan() && other@.no_nan() {
                lemma_dot_transpose_law(self@, other@);
            }
        }
        result
    }

    /// The product behind a dynamic shape check: a mismatch returns a typed
    /// error carrying both observed shapes.
    pub fn checked_dot(&self, other: &Matrix) -> (r: Result<Matrix, ShapeMismatch>)
        requires
            self@.wf(),
            other@.wf(),
        ensures
            match r {
                Ok(m) => self@.width == other@.height && m@.wf() && m@ == spec_dot(self@, other@),
                Err(e) => self@.width != other@.height && e == (ShapeMismatch {
                    left_width: self@.width as usize,
                    left_height: self@.height as usize,
                    right_width: other@.width as usize,
                    right_height: other@.height as usize,
                }),
            },
    {
        if self.width == other.height {
            Ok(self.dot(other))
        } else {
            Err(ShapeMismatch {
                left_width: self.width,
                left_height: self.height,
                right_width: other.width,
                right_height: other.height,
            })
        }
    }

    /// The element-wise sum behind a dynamic shape check: a mismatch returns
    /// a typed error carrying both observed shapes.
    pub fn checked_add(&self, other: &Matrix) -> (r: Result<Matrix, ShapeMismatch>)
        requires
            self@.wf(),
            other@.wf(),
        ensures
            match r {
                Ok(m) => self@.width == other@.width && self@.height == other@.height && m@.wf()
                    && m@ == spec_matrix_add(self@, other@),
                Err(e) => (self@.width != other@.width || self@.height != other@.height) && e == (
                ShapeMismatch {
                    left_width: self@.width as usize,
                    left_height: self@.height as usize,
                    right_width: other@.width as usize,
                    right_height: other@.height as usize,
                }),
            },
    {
        if self.width == other.width && self.height == other.height {
            Ok(self.add(other))
        } else {
            Err(ShapeMismatch {
                left_width: self.width,
                left_height: self.height,
                right_width: other.width,
                right_height: other.height,
            })
        }
    }
}

/// One entry of a matrix product: the accumulated products of row `i` of
/// `a` against column `j` of `b`.
fn dot_cell(a: &Matrix, b: &Matrix, i: usize, j: usize) -> (r: u32)
    requires
        a@.wf(),
        b@.wf(),
        a@.width == b@.height,
        i < a@.height,
        j < b@.width,
    ensures
        r == dot_chain(a@, b@, i as int, j as int, a@.width as int),
        forall|k: int|
            0 <= k < a@.width && !fp_is_nan(a@.at(i as int, k)) && !fp_is_nan(b@.at(k, j as int))
                ==> #[trigger] fp_mul(a@.at(i as int, k), b@.at(k, j as int)) == fp_mul(
                b@.at(k, j as int),
                a@.at(i as int, k),
            ),
{
    let w = a.width();
    let mut acc: u32 = ZERO_BITS;
    let mut k: usize = 0;
    while k < w
        invariant
            a@.wf(),
            b@.wf(),
            a@.width == b@.height,
            i < a@.height,
            j < b@.width,
            w == a@.width,
            k <= w,
            acc == dot_chain(a@, b@, i as int, j as int, k as int),
            forall|k2: int|
                0 <= k2 < k && !fp_is_nan(a@.at(i as int, k2)) && !fp_is_nan(b@.at(k2, j as int))
                    ==> #[trigger] fp_mul(a@.at(i as int, k2), b@.at(k2, j as int)) == fp_mul(
                    b@.at(k2, j as int),
                    a@.at(i as int, k2),
                ),
        decreases w - k,
    {
        let av = a.get(i, k);
        let bv = b.get(k, j);
        proof {
            lemma_row_major(a@.width as int, a@.height as int, i as int, k as int);
            lemma_row_major(b@.width as int, b@.height as int, k as int, j as int);
        }
        let p = mul_bits(av, bv);
        acc = add_bits(acc, p);
        k = k + 1;
    }
    acc
}

proof fn lemma_dot_transpose_law(a: MatView, b: MatView)
    requires
        a.wf(),
        b.wf(),
        a.width == b.height,
        a.no_nan(),
        b.no_nan(),
        mul_sym_on(a, b),
    ensures
        spec_transpose(spec_dot(a, b)) == spec_dot(spec_transpose(b), spec_transpose(a)),
{
    let d = spec_dot(a, b);
    let lhs = spec_transpose(d);
    let tb = spec_transpose(b);
    let ta = spec_transpose(a);
    let rhs = spec_dot(tb, ta);
    assert(d.wf() && lhs.wf() && tb.wf() && ta.wf() && rhs.wf()) by {
        if a.height > 0 && b.width > 0 {
            lemma_dot_at(a, b, 0, 0);
            lemma_transpose_at(d, 0, 0);
        } else {
            assert(d.elems.len() == 0) by (nonlinear_arith)
                requires
                    d.elems.len() == a.height * b.width,
                    a.height == 0 || b.width == 0,
            ;
            assert(d.wf() && lhs.wf()) by (nonlinear_arith)
                requires
                    d.elems.len() == 0,
                    lhs.elems.len() == d.elems.len(),
                    d.width == b.width,
                    d.height == a.height,
                    lhs.width == d.height,
                    lhs.height == d.width,
                    a.height == 0 || b.width == 0,
            ;
        }
        assert(tb.wf() && ta.wf()) by (nonlinear_arith)
            requires
                a.wf(),
                b.wf(),
                tb.elems.len() == b.elems.len(),
                ta.elems.len() == a.elems.len(),
                tb.width == b.height,
                tb.height == b.width,
                ta.width == a.height,
                ta.height == a.width,
        ;
        assert(rhs.wf()) by (nonlinear_arith)
            requires
                rhs.elems.len() == tb.height * ta.width,
                rhs.width == ta.width,
                rhs.height == tb.height,
        ;
    }
    assert forall|r: int, c: int| lhs.in_range(r, c) implies lhs.at(r, c) == rhs.at(r, c) by {
        lemma_transpose_at(d, r, c);
        lemma_dot_at(a, b, c, r);
        lemma_dot_at(tb, ta, r, c);
        lemma_chain_swap(a, b, c, r, a.width as int);
    }
    lemma_mat_eq(lhs, rhs);
}

} // verus!
