use vstd::prelude::*;

verus! {

/// Shape or size violations reported by the matrix constructors and operations.
#[derive(Clone, Copy, Debug, PartialEq, Eq, Structural)]
pub enum MatrixError {
    /// The two operands do not have the shapes the operation needs.
    DimensionMismatch,
    /// A buffer-backed constructor was given a buffer whose length is not `rows * cols`.
    ConstructionSizeMismatch,
}

/// Dense two-dimensional container with row-major flat storage: the entry at
/// row `i`, column `j` lives at `data[i * cols + j]`.
///
/// The entry type is left generic; the arithmetic on entries is supplied to
/// each operation as a function value, and the contracts speak of those
/// functions through `call_ensures`.
#[derive(Clone, Debug, PartialEq)]
pub struct Matrix<T> {
    pub rows: usize,
    pub cols: usize,
    pub data: Vec<T>,
}

/// The function can be called on every pair of entries.
pub open spec fn callable2<T, F: Fn(T, T) -> T>(f: F) -> bool {
    forall|x: T, y: T| #[trigger] call_requires(f, (x, y))
}

/// The function can be called on every entry.
pub open spec fn callable1<T, F: Fn(T) -> T>(f: F) -> bool {
    forall|x: T| #[trigger] call_requires(f, (x,))
}

impl<T: Copy> Matrix<T> {
    /// The storage invariant: the flat buffer holds exactly `rows * cols` entries.
    pub open spec fn wf(self) -> bool {
        self.data@.len() == self.rows * self.cols
    }

    /// The entry at row `i`, column `j`, read from the row-major buffer.
    pub open spec fn entry(self, i: int, j: int) -> T {
        self.data@[i * self.cols + j]
    }

    /// Exact structural equality: same dimensions and the same entries.
    pub open spec fn eqv(self, other: Matrix<T>) -> bool {
        self.rows == other.rows && self.cols == other.cols && self.data@ == other.data@
    }

    /// Row `i` as a sequence of `cols` entries.
    pub open spec fn row_seq(self, i: int) -> Seq<T> {
        Seq::new(self.cols as nat, |k: int| self.entry(i, k))
    }

    /// Column `j` as a sequence of `rows` entries.
    pub open spec fn col_seq(self, j: int) -> Seq<T> {
        Seq::new(self.rows as nat, |k: int| self.entry(k, j))
    }
}

/// `r` is an elementwise combination of the same-shaped `a` and `b`: every
/// entry of `r` is a value the combiner `f` can return on the corresponding
/// entries of `a` and `b`.
pub open spec fn combined<T: Copy, F: Fn(T, T) -> T>(
    f: F,
    a: Matrix<T>,
    b: Matrix<T>,
    r: Matrix<T>,
) -> bool {
    &&& a.rows == b.rows
    &&& a.cols == b.cols
    &&& r.rows == a.rows
    &&& r.cols == a.cols
    &&& r.data@.len() == a.data@.len()
    &&& b.data@.len() == a.data@.len()
    &&& forall|k: int|
        0 <= k < a.data@.len() ==> call_ensures(f, (a.data@[k], b.data@[k]), #[trigger] r.data@[k])
}

/// `r` applies `f` to every entry of `a`, preserving the shape.
pub open spec fn mapped<T: Copy, F: Fn(T) -> T>(f: F, a: Matrix<T>, r: Matrix<T>) -> bool {
    &&& r.rows == a.rows
    &&& r.cols == a.cols
    &&& r.data@.len() == a.data@.len()
    &&& forall|k: int| 0 <= k < a.data@.len() ==> call_ensures(f, (a.data@[k],), #[trigger] r.data@[k])
}

/// `r` combines every entry of `a` with the fixed scalar `s` through `f`,
/// preserving the shape.
pub open spec fn scaled<T: Copy, F: Fn(T, T) -> T>(f: F, a: Matrix<T>, s: T, r: Matrix<T>) -> bool {
    &&& r.rows == a.rows
    &&& r.cols == a.cols
    &&& r.data@.len() == a.data@.len()
    &&& forall|k: int|
        0 <= k < a.data@.len() ==> call_ensures(f, (a.data@[k], s), #[trigger] r.data@[k])
}

/// `r` has the transposed shape of `a` and `r[j, i] == a[i, j]` everywhere.
pub open spec fn is_transpose<T: Copy>(a: Matrix<T>, r: Matrix<T>) -> bool {
    &&& r.rows == a.cols
    &&& r.cols == a.rows
    &&& r.data@.len() == a.data@.len()
    &&& forall|i: int, j: int|
        0 <= i < a.rows && 0 <= j < a.cols ==> r.entry(j, i) == #[trigger] a.entry(i, j)
}

/// Starting from the accumulator `acc` and walking `u` and `v` in step,
/// multiplying pairs with `times` and folding with `plus` can end at `total`.
/// This is the triple-sum `total = acc + u[0]*v[0] + u[1]*v[1] + ...` stated
/// over the supplied arithmetic.
pub open spec fn sum_rel<T, FA: Fn(T, T) -> T, FM: Fn(T, T) -> T>(
    plus: FA,
    times: FM,
    u: Seq<T>,
    v: Seq<T>,
    acc: T,
    total: T,
) -> bool
    decreases u.len(),
{
    if u.len() == 0 {
        total == acc
    } else {
        exists|p: T, acc2: T|
            #![trigger call_ensures(times, (u[0], v[0]), p), call_ensures(plus, (acc, p), acc2)]
            {
                &&& call_ensures(times, (u[0], v[0]), p)
                &&& call_ensures(plus, (acc, p), acc2)
                &&& sum_rel(plus, times, u.drop_first(), v.drop_first(), acc2, total)
            }
    }
}

/// `r` is the standard matrix product of `a` and `b` over the supplied
/// arithmetic: `r[i, j]` is the row-by-column sum `zero + sum_k a[i,k]*b[k,j]`.
pub open spec fn dotted<T: Copy, FA: Fn(T, T) -> T, FM: Fn(T, T) -> T>(
    plus: FA,
    times: FM,
    zero: T,
    a: Matrix<T>,
    b: Matrix<T>,
    r: Matrix<T>,
) -> bool {
    &&& a.cols == b.rows
    &&& r.rows == a.rows
    &&& r.cols == b.cols
    &&& r.data@.len() == a.rows * b.cols
    &&& forall|i: int, j: int|
        0 <= i < a.rows && 0 <= j < b.cols ==> sum_rel(
            plus,
            times,
            a.row_seq(i),
            b.col_seq(j),
            zero,
            #[trigger] r.entry(i, j),
        )
}

/// Extending a row-by-column sum by one more pair keeps the relation: from a
/// fold of `u`/`v` ending at `total`, one more product and addition ends at
/// `total2` for `u.push(x)`/`v.push(y)`.
proof fn lemma_sum_rel_push<T, FA: Fn(T, T) -> T, FM: Fn(T, T) -> T>(
    plus: FA,
    times: FM,
    u: Seq<T>,
    v: Seq<T>,
    acc: T,
    total: T,
    x: T,
    y: T,
    p: T,
    total2: T,
)
    requires
        u.len() == v.len(),
        sum_rel(plus, times, u, v, acc, total),
        call_ensures(times, (x, y), p),
        call_ensures(plus, (total, p), total2),
    ensures
        sum_rel(plus, times, u.push(x), v.push(y), acc, total2),
    decreases u.len(),
{
    let u2 = u.push(x);
    let v2 = v.push(y);
    if u.len() == 0 {
        assert(total == acc);
        assert(u2[0] == x);
        assert(v2[0] == y);
        assert(u2.drop_first() =~= Seq::<T>::empty());
        assert(v2.drop_first() =~= Seq::<T>::empty());
        assert(sum_rel(plus, times, u2.drop_first(), v2.drop_first(), total2, total2));
        assert(call_ensures(times, (u2[0], v2[0]), p) && call_ensures(plus, (acc, p), total2));
    } else {
        let (p0, acc2) = choose|p0: T, acc2: T|
            {
                &&& call_ensures(times, (u[0], v[0]), p0)
                &&& call_ensures(plus, (acc, p0), acc2)
                &&& sum_rel(plus, times, u.drop_first(), v.drop_first(), acc2, total)
            };
        lemma_sum_rel_push(
            plus,
            times,
            u.drop_first(),
            v.drop_first(),
            acc2,
            total,
            x,
            y,
            p,
            total2,
        );
        assert(u2.drop_first() =~= u.drop_first().push(x));
        assert(v2.drop_first() =~= v.drop_first().push(y));
        assert(u2[0] == u[0]);
        assert(v2[0] == v[0]);
        assert(call_ensures(times, (u2[0], v2[0]), p0) && call_ensures(plus, (acc, p0), acc2));
    }
}

/// Row `i`, column `j` of a `rows` by `cols` matrix lies inside the flat
/// buffer, before every position of any later row.
proof fn lemma_row_major_bound(rows: int, cols: int, i: int, j: int)
    requires
        0 <= i < rows,
        0 <= j < cols,
    ensures
        0 <= i * cols + j < rows * cols,
        i * cols + j < (i + 1) * cols,
{
    assert(0 <= i * cols + j < rows * cols && i * cols + j < (i + 1) * cols) by (nonlinear_arith)
        requires
            0 <= i < rows,
            0 <= j < cols,
    ;
}

/// A row-major position in an earlier row comes before any position in a
/// later row.
proof fn lemma_lex_before(cols: int, i2: int, j2: int, i: int, j: int)
    requires
        0 <= i2 < i,
        0 <= j2 < cols,
        0 <= j,
    ensures
        i2 * cols + j2 < i * cols + j,
{
    assert(i2 * cols + j2 < i * cols + j) by (nonlinear_arith)
        requires
            0 <= i2 < i,
            0 <= j2 < cols,
            0 <= j,
    ;
}

impl<T: Copy> Matrix<T> {
    /// Wraps a row-major buffer as a `rows` by `cols` matrix; rejects a buffer
    /// whose length is not exactly `rows * cols`.
    pub fn new(rows: usize, cols: usize, data: Vec<T>) -> (r: Result<Matrix<T>, MatrixError>)
        ensures
            match r {
                Ok(m) => {
                    &&& data@.len() == rows * cols
                    &&& m.wf()
                    &&& m.rows == rows
                    &&& m.cols == cols
                    &&& m.data@ == data@
                },
                Err(e) => {
                    &&& e == MatrixError::ConstructionSizeMismatch
                    &&& data@.len() != rows * cols
                },
            },
    {
        let n = data.len();
        let expected = match rows.checked_mul(cols) {
            Some(product) => product,
            None => {
                return Err(MatrixError::ConstructionSizeMismatch);
            },
        };
        if n != expected {
            return Err(MatrixError::ConstructionSizeMismatch);
        }
        Ok(Matrix { rows, cols, data })
    }

    /// A `rows` by `cols` matrix with the given value at every entry; with
    /// the arithmetic's zero it is the all-zero matrix.
    pub fn zeros(rows: usize, cols: usize, zero: T) -> (r: Matrix<T>)
        requires
            rows * cols <= usize::MAX,
        ensures
            r.wf(),
            r.rows == rows,
            r.cols == cols,
            forall|k: int| 0 <= k < r.data@.len() ==> r.data@[k] == zero,
    {
        let n = rows * cols;
        let mut buffer: Vec<T> = Vec::new();
        let mut t: usize = 0;
        while t < n
            invariant
                t <= n,
                buffer@.len() == t,
                forall|k: int| 0 <= k < t ==> buffer@[k] == zero,
            decreases n - t,
        {
            buffer.push(zero);
            t = t + 1;
        }
        Matrix { rows, cols, data: buffer }
    }

    /// An exact copy: same dimensions, same entries.
    pub fn duplicate(&self) -> (r: Matrix<T>)
        ensures
            r.rows == self.rows,
            r.cols == self.cols,
            r.data@ == self.data@,
            r.eqv(*self),
    {
        let mut buffer: Vec<T> = Vec::new();
        let n = self.data.len();
        let mut t: usize = 0;
        while t < n
            invariant
                t <= n,
                n == self.data@.len(),
                buffer@.len() == t,
                forall|k: int| 0 <= k < t ==> buffer@[k] == self.data@[k],
            decreases n - t,
        {
            buffer.push(self.data[t]);
            t = t + 1;
        }
        assert(buffer@ =~= self.data@);
        Matrix { rows: self.rows, cols: self.cols, data: buffer }
    }

    /// A column matrix copying the vector: `v.len()` rows, one column.
    pub fn from_column(v: &Vec<T>) -> (r: Matrix<T>)
        ensures
            r.wf(),
            r.rows == v@.len(),
            r.cols == 1,
            r.data@ == v@,
    {
        let n = v.len();
        let mut buffer: Vec<T> = Vec::new();
        let mut t: usize = 0;
        while t < n
            invariant
                t <= n,
                n == v@.len(),
                buffer@.len() == t,
                forall|k: int| 0 <= k < t ==> buffer@[k] == v@[k],
            decreases n - t,
        {
            buffer.push(v[t]);
            t = t + 1;
        }
        assert(buffer@ =~= v@);
        Matrix { rows: n, cols: 1, data: buffer }
    }

    /// Elementwise sum of two same-shaped matrices under the supplied
    /// addition; mismatched shapes are rejected.
    pub fn add<F: Fn(T, T) -> T>(&self, other: &Matrix<T>, f: F) -> (r: Result<
        Matrix<T>,
        MatrixError,
    >)
        requires
            self.wf(),
            other.wf(),
            callable2(f),
        ensures
            match r {
                Ok(m) => m.wf() && combined(f, *self, *other, m),
                Err(e) => {
                    &&& e == MatrixError::DimensionMismatch
                    &&& !(self.rows == other.rows && self.cols == other.cols)
                },
            },
    {
        self.combine(other, f)
    }

    /// Elementwise difference of two same-shaped matrices under the supplied
    /// subtraction; mismatched shapes are rejected.
    pub fn subtract<F: Fn(T, T) -> T>(&self, other: &Matrix<T>, f: F) -> (r: Result<
        Matrix<T>,
        MatrixError,
    >)
        requires
            self.wf(),
            other.wf(),
            callable2(f),
        ensures
            match r {
                Ok(m) => m.wf() && combined(f, *self, *other, m),
                Err(e) => {
                    &&& e == MatrixError::DimensionMismatch
                    &&& !(self.rows == other.rows && self.cols == other.cols)
                },
            },
    {
        self.combine(other, f)
    }

    /// Hadamard (elementwise) product of two same-shaped matrices under the
    /// supplied multiplication; mismatched shapes are rejected.
    pub fn elementwise_multiply<F: Fn(T, T) -> T>(&self, other: &Matrix<T>, f: F) -> (r: Result<
        Matrix<T>,
        MatrixError,
    >)
        requires
            self.wf(),
            other.wf(),
            callable2(f),
        ensures
            match r {
                Ok(m) => m.wf() && combined(f, *self, *other, m),
                Err(e) => {
                    &&& e == MatrixError::DimensionMismatch
                    &&& !(self.rows == other.rows && self.cols == other.cols)
                },
            },
    {
        self.combine(other, f)
    }

    /// The shared elementwise combination behind `add`, `subtract` and
    /// `elementwise_multiply`.
    fn combine<F: Fn(T, T) -> T>(&self, other: &Matrix<T>, f: F) -> (r: Result<
        Matrix<T>,
        MatrixError,
    >)
        requires
            self.wf(),
            other.wf(),
            callable2(f),
        ensures
            match r {
                Ok(m) => m.wf() && combined(f, *self, *other, m),
                Err(e) => {
                    &&& e == MatrixError::DimensionMismatch
                    &&& !(self.rows == other.rows && self.cols == other.cols)
                },
            },
    {
        if self.rows != other.rows || self.cols != other.cols {
            return Err(MatrixError::DimensionMismatch);
        }
        let n = self.data.len();
        let mut buffer: Vec<T> = Vec::new();
        let mut t: usize = 0;
        while t < n
            invariant
                t <= n,
                n == self.data@.len(),
                n == other.data@.len(),
                callable2(f),
                buffer@.len() == t,
                forall|k: int|
                    0 <= k < t ==> call_ensures(
                        f,
                        (self.data@[k], other.data@[k]),
                        #[trigger] buffer@[k],
                    ),
            decreases n - t,
        {
            buffer.push(f(self.data[t], other.data[t]));
            t = t + 1;
        }
        Ok(Matrix { rows: self.rows, cols: self.cols, data: buffer })
    }

    /// Applies a pure unary function to every entry, preserving the shape.
    pub fn map<F: Fn(T) -> T>(&self, f: F) -> (r: Matrix<T>)
        requires
            self.wf(),
            callable1(f),
        ensures
            r.wf(),
            mapped(f, *self, r),
    {
        let n = self.data.len();
        let mut buffer: Vec<T> = Vec::new();
        let mut t: usize = 0;
        while t < n
            invariant
                t <= n,
                n == self.data@.len(),
                callable1(f),
                buffer@.len() == t,
                forall|k: int|
                    0 <= k < t ==> call_ensures(f, (self.data@[k],), #[trigger] buffer@[k]),
            decreases n - t,
        {
            buffer.push(f(self.data[t]));
            t = t + 1;
        }
        Matrix { rows: self.rows, cols: self.cols, data: buffer }
    }

    /// Standard matrix product over the supplied arithmetic, of shape
    /// `(self.rows, other.cols)`: each entry is the row-by-column sum
    /// `zero + sum_k self[i,k] * other[k,j]`, multiplied with `times` and
    /// folded with `plus`. Rejected when `self.cols != other.rows`.
    pub fn dot_multiply<FA: Fn(T, T) -> T, FM: Fn(T, T) -> T>(
        &self,
        other: &Matrix<T>,
        zero: T,
        plus: FA,
        times: FM,
    ) -> (r: Result<Matrix<T>, MatrixError>)
        requires
            self.wf(),
            other.wf(),
            callable2(plus),
            callable2(times),
        ensures
            match r {
                Ok(m) => m.wf() && dotted(plus, times, zero, *self, *other, m),
                Err(e) => {
                    &&& e == MatrixError::DimensionMismatch
                    &&& self.cols != other.rows
                },
            },
    {
        if self.cols != other.rows {
            return Err(MatrixError::DimensionMismatch);
        }
        let mut buffer: Vec<T> = Vec::new();
        let mut i: usize = 0;
        while i < self.rows
            invariant
                self.wf(),
                other.wf(),
                callable2(plus),
                callable2(times),
                self.cols == other.rows,
                i <= self.rows,
                buffer@.len() == i * other.cols,
                forall|i2: int, j2: int|
                    0 <= i2 < i && 0 <= j2 < other.cols ==> sum_rel(
                        plus,
                        times,
                        self.row_seq(i2),
                        other.col_seq(j2),
                        zero,
                        #[trigger] buffer@[i2 * other.cols + j2],
                    ),
            decreases self.rows - i,
        {
            let mut j: usize = 0;
            while j < other.cols
                invariant
                    self.wf(),
                    other.wf(),
                    callable2(plus),
                    callable2(times),
                    self.cols == other.rows,
                    i < self.rows,
                    j <= other.cols,
                    buffer@.len() == i * other.cols + j,
                    forall|i2: int, j2: int|
                        0 <= i2 < i && 0 <= j2 < other.cols ==> sum_rel(
                            plus,
                            times,
                            self.row_seq(i2),
                            other.col_seq(j2),
                            zero,
                            #[trigger] buffer@[i2 * other.cols + j2],
                        ),
                    forall|j2: int|
                        0 <= j2 < j ==> sum_rel(
                            plus,
                            times,
                            self.row_seq(i as int),
                            other.col_seq(j2),
                            zero,
                            #[trigger] buffer@[i * other.cols + j2],
                        ),
                decreases other.cols - j,
            {
                let ghost u = self.row_seq(i as int);
                let ghost v = other.col_seq(j as int);
                proof {
                    assert(u.take(0) =~= Seq::<T>::empty());
                    assert(v.take(0) =~= Seq::<T>::empty());
                }
                let mut acc = zero;
                let mut k: usize = 0;
                while k < self.cols
                    invariant
                        self.wf(),
                        other.wf(),
                        callable2(plus),
                        callable2(times),
                        self.cols == other.rows,
                        i < self.rows,
                        j < other.cols,
                        k <= self.cols,
                        u == self.row_seq(i as int),
                        v == other.col_seq(j as int),
                        sum_rel(plus, times, u.take(k as int), v.take(k as int), zero, acc),
                    decreases self.cols - k,
                {
                    proof {
                        lemma_row_major_bound(
                            self.rows as int,
                            self.cols as int,
                            i as int,
                            k as int,
                        );
                        lemma_row_major_bound(
                            other.rows as int,
                            other.cols as int,
                            k as int,
                            j as int,
                        );
                        assert(self.data.len() == self.data@.len());
                        assert(other.data.len() == other.data@.len());
                    }
                    let x = self.data[i * self.cols + k];
                    let y = other.data[k * other.cols + j];
                    let p = times(x, y);
                    let acc2 = plus(acc, p);
                    proof {
                        assert(u[k as int] == x);
                        assert(v[k as int] == y);
                        assert(u.take(k as int).len() == v.take(k as int).len());
                        lemma_sum_rel_push(
                            plus,
                            times,
                            u.take(k as int),
                            v.take(k as int),
                            zero,
                            acc,
                            x,
                            y,
                            p,
                            acc2,
                        );
                        assert(u.take(k as int).push(x) =~= u.take(k as int + 1));
                        assert(v.take(k as int).push(y) =~= v.take(k as int + 1));
                    }
                    acc = acc2;
                    k = k + 1;
                }
                proof {
                    assert(u.take(self.cols as int) =~= u);
                    assert(v.take(self.cols as int) =~= v);
                    assert(sum_rel(plus, times, u, v, zero, acc));
                }
                buffer.push(acc);
                proof {
                    assert forall|i2: int, j2: int|
                        0 <= i2 < i && 0 <= j2 < other.cols implies sum_rel(
                        plus,
                        times,
                        self.row_seq(i2),
                        other.col_seq(j2),
                        zero,
                        #[trigger] buffer@[i2 * other.cols + j2],
                    ) by {
                        lemma_lex_before(other.cols as int, i2, j2, i as int, j as int);
                    }
                }
                j = j + 1;
            }
            proof {
                assert(buffer@.len() == (i + 1) * other.cols) by (nonlinear_arith)
                    requires
                        buffer@.len() == i * other.cols + other.cols,
                ;
            }
            i = i + 1;
        }
        let result = Matrix { rows: self.rows, cols: other.cols, data: buffer };
        proof {
            assert forall|i2: int, j2: int|
                0 <= i2 < result.rows && 0 <= j2 < result.cols implies sum_rel(
                plus,
                times,
                self.row_seq(i2),
                other.col_seq(j2),
                zero,
                #[trigger] result.entry(i2, j2),
            ) by {
                assert(result.entry(i2, j2) == buffer@[i2 * other.cols + j2]);
            }
        }
        Ok(result)
    }

    /// The transpose: shape `(self.cols, self.rows)`, with
    /// `r[j, i] == self[i, j]` at every position.
    pub fn transpose(&self) -> (r: Matrix<T>)
        requires
            self.wf(),
        ensures
            r.wf(),
            is_transpose(*self, r),
    {
        let mut buffer: Vec<T> = Vec::new();
        let mut j: usize = 0;
        while j < self.cols
            invariant
                self.wf(),
                j <= self.cols,
                buffer@.len() == j * self.rows,
                forall|j2: int, i2: int|
                    0 <= j2 < j && 0 <= i2 < self.rows ==> buffer@[j2 * self.rows + i2]
                        == #[trigger] self.entry(i2, j2),
            decreases self.cols - j,
        {
            let mut i: usize = 0;
            while i < self.rows
                invariant
                    self.wf(),
                    j < self.cols,
                    i <= self.rows,
                    buffer@.len() == j * self.rows + i,
                    forall|j2: int, i2: int|
                        0 <= j2 < j && 0 <= i2 < self.rows ==> buffer@[j2 * self.rows + i2]
                            == #[trigger] self.entry(i2, j2),
                    forall|i2: int|
                        0 <= i2 < i ==> buffer@[j * self.rows + i2] == #[trigger] self.entry(
                            i2,
                            j as int,
                        ),
                decreases self.rows - i,
            {
                proof {
                    lemma_row_major_bound(self.rows as int, self.cols as int, i as int, j as int);
                    assert(self.data.len() == self.data@.len());
                }
                buffer.push(self.data[i * self.cols + j]);
                proof {
                    assert forall|j2: int, i2: int|
                        0 <= j2 < j && 0 <= i2 < self.rows implies buffer@[j2 * self.rows + i2]
                        == #[trigger] self.entry(i2, j2) by {
                        lemma_lex_before(self.rows as int, j2, i2, j as int, i as int);
                    }
                }
                i = i + 1;
            }
            proof {
                assert(buffer@.len() == (j + 1) * self.rows) by (nonlinear_arith)
                    requires
                        buffer@.len() == j * self.rows + self.rows,
                ;
            }
            j = j + 1;
        }
        let result = Matrix { rows: self.cols, cols: self.rows, data: buffer };
        proof {
            assert(result.data@.len() == self.cols * self.rows);
            assert(self.cols * self.rows == self.rows * self.cols) by (nonlinear_arith);
            assert forall|i2: int, j2: int|
                0 <= i2 < self.rows && 0 <= j2 < self.cols implies result.entry(j2, i2)
                == #[trigger] self.entry(i2, j2) by {
                assert(result.entry(j2, i2) == buffer@[j2 * self.rows + i2]);
            }
        }
        result
    }

    /// Combines every entry with the fixed scalar `s` through `f`, preserving
    /// the shape; with a multiplication this scales the matrix by `s`.
    pub fn scale<F: Fn(T, T) -> T>(&self, s: T, f: F) -> (r: Matrix<T>)
        requires
            self.wf(),
            callable2(f),
        ensures
            r.wf(),
            scaled(f, *self, s, r),
    {
        let n = self.data.len();
        let mut buffer: Vec<T> = Vec::new();
        let mut t: usize = 0;
        while t < n
            invariant
                t <= n,
                n == self.data@.len(),
                callable2(f),
                buffer@.len() == t,
                forall|k: int|
                    0 <= k < t ==> call_ensures(f, (self.data@[k], s), #[trigger] buffer@[k]),
            decreases n - t,
        {
            buffer.push(f(self.data[t], s));
            t = t + 1;
        }
        Matrix { rows: self.rows, cols: self.cols, data: buffer }
    }
}

/// Elementwise combination does not depend on the operand order when the
/// combiner is deterministic and symmetric — a commutative addition in
/// particular. So `add(a, b)` and `add(b, a)` are the same matrix.
pub proof fn lemma_add_commutative<T: Copy, F: Fn(T, T) -> T>(
    f: F,
    a: Matrix<T>,
    b: Matrix<T>,
    r1: Matrix<T>,
    r2: Matrix<T>,
)
    requires
        a.wf(),
        b.wf(),
        combined(f, a, b, r1),
        combined(f, b, a, r2),
        forall|x: T, y: T, u: T, v: T|
            #![trigger call_ensures(f, (x, y), u), call_ensures(f, (y, x), v)]
            call_ensures(f, (x, y), u) && call_ensures(f, (y, x), v) ==> u == v,
    ensures
        r1.eqv(r2),
{
    assert forall|k: int| 0 <= k < r1.data@.len() implies r1.data@[k] == r2.data@[k] by {
        assert(call_ensures(f, (a.data@[k], b.data@[k]), r1.data@[k]));
        assert(call_ensures(f, (b.data@[k], a.data@[k]), r2.data@[k]));
    }
    assert(r1.data@ =~= r2.data@);
}

/// A combiner that sends every pair of equal arguments to the one value `z` —
/// subtraction with its zero in particular — turns `subtract(a, a)` into the
/// all-`z` matrix of `a`'s shape.
pub proof fn lemma_subtract_self_uniform<T: Copy, F: Fn(T, T) -> T>(
    f: F,
    a: Matrix<T>,
    r: Matrix<T>,
    z: T,
)
    requires
        a.wf(),
        combined(f, a, a, r),
        forall|x: T, v: T| #[trigger] call_ensures(f, (x, x), v) ==> v == z,
    ensures
        r.rows == a.rows,
        r.cols == a.cols,
        forall|k: int| 0 <= k < r.data@.len() ==> r.data@[k] == z,
{
    assert forall|k: int| 0 <= k < r.data@.len() implies r.data@[k] == z by {
        assert(call_ensures(f, (a.data@[k], a.data@[k]), r.data@[k]));
    }
}

/// Transposing twice gives back the original matrix.
pub proof fn lemma_transpose_involution<T: Copy>(a: Matrix<T>, t: Matrix<T>, u: Matrix<T>)
    requires
        a.wf(),
        is_transpose(a, t),
        is_transpose(t, u),
    ensures
        u.eqv(a),
{
    let cols = a.cols as int;
    let rows = a.rows as int;
    assert forall|k: int| 0 <= k < a.data@.len() implies u.data@[k] == a.data@[k] by {
        if cols > 0 {
            vstd::arithmetic::div_mod::lemma_fundamental_div_mod(k, cols);
            vstd::arithmetic::div_mod::lemma_mod_bound(k, cols);
            let i = k / cols;
            let j = k % cols;
            assert(0 <= i < rows) by (nonlinear_arith)
                requires
                    cols > 0,
                    0 <= k < rows * cols,
                    k == cols * i + j,
                    0 <= j < cols,
            ;
            assert(k == i * cols + j);
            assert(t.entry(j, i) == a.entry(i, j));
            assert(u.entry(i, j) == t.entry(j, i));
            assert(u.data@[k] == u.entry(i, j));
            assert(a.data@[k] == a.entry(i, j));
        } else {
            assert(a.data@.len() == a.rows * a.cols);
            assert(a.rows * a.cols == 0) by (nonlinear_arith)
                requires
                    a.cols == 0,
            ;
        }
    }
    assert(u.data@ =~= a.data@);
}

/// Mapping with a function that returns every argument unchanged gives back
/// the original matrix.
pub proof fn lemma_map_identity<T: Copy, F: Fn(T) -> T>(f: F, a: Matrix<T>, r: Matrix<T>)
    requires
        a.wf(),
        mapped(f, a, r),
        forall|x: T, y: T| #[trigger] call_ensures(f, (x,), y) ==> y == x,
    ensures
        r.eqv(a),
{
    assert forall|k: int| 0 <= k < r.data@.len() implies r.data@[k] == a.data@[k] by {
        assert(call_ensures(f, (a.data@[k],), r.data@[k]));
    }
    assert(r.data@ =~= a.data@);
}

impl<T: Copy> From<Vec<T>> for Matrix<T> {
    /// A column matrix holding the vector: `rows == v.len()`, one column.
    fn from(v: Vec<T>) -> (r: Matrix<T>) {
        let rows = v.len();
        Matrix { rows, cols: 1, data: v }
    }
}

impl<T: Copy> vstd::std_specs::convert::FromSpecImpl<Vec<T>> for Matrix<T> {
    open spec fn obeys_from_spec() -> bool {
        true
    }

    open spec fn from_spec(v: Vec<T>) -> Matrix<T> {
        Matrix { rows: v.len(), cols: 1, data: v }
    }
}

} // verus!
