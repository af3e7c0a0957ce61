//! A dense matrix stored row by row in one vector.

use vstd::prelude::*;

use crate::arith::{lemma_index_in_bounds, lemma_split_index, lemma_flat_index, fold_steps, is_fold, pairwise_products, is_dot, deterministic, lemma_dot_unique};

verus! {

/// A `rows x cols` matrix whose element `(r, c)` is stored at
/// `r * cols + c` of one flat vector.
pub struct Matrix<T> {
    rows: usize,
    cols: usize,
    data: Vec<T>,
}

/// `m` is `a` with `f` applied to every element: same shape, and element
/// `k` of `m` is what `f(&a[k])` returned.
pub open spec fn mapped<T, U, F: Fn(&T) -> U>(m: Matrix<U>, a: Matrix<T>, f: F) -> bool {
    &&& m.wf()
    &&& m.same_shape(&a)
    &&& forall|k: int|
        0 <= k < a.entries().len() ==> call_ensures(f, (&a.entries()[k],), #[trigger] m.entries()[k])
}

/// `m` combines `a` and `b` position by position with `f`: same shape, and
/// element `k` of `m` is what `f(&a[k], &b[k])` returned.
pub open spec fn zipped<T, U, V, F: Fn(&T, &U) -> V>(m: Matrix<V>, a: Matrix<T>, b: Matrix<U>, f: F) -> bool {
    &&& m.wf()
    &&& m.same_shape(&a)
    &&& forall|k: int|
        0 <= k < a.entries().len() ==> call_ensures(
            f,
            (&a.entries()[k], &b.entries()[k]),
            #[trigger] m.entries()[k],
        )
}

/// `d` is the matrix product of `a` and `b`: `a.nrows() x b.ncols()`, with
/// element `(i, j)` the inner product of row `i` of `a` and column `j` of
/// `b`, products by `times` summed from `zero` by `plus`.
pub open spec fn product_of<T, M: Fn(&T, &T) -> T, A: Fn(&T, &T) -> T>(
    d: Matrix<T>,
    a: Matrix<T>,
    b: Matrix<T>,
    zero: T,
    times: M,
    plus: A,
) -> bool {
    &&& d.wf()
    &&& d.nrows() == a.nrows()
    &&& d.ncols() == b.ncols()
    &&& forall|i: int, j: int|
        0 <= i < a.nrows() && 0 <= j < b.ncols() ==> is_dot(
            times,
            plus,
            zero,
            a.row(i),
            b.col(j),
            #[trigger] d.at(i, j),
        )
}

/// `s` is the `1 x a.ncols()` row whose element `c` sums column `c` of `a`
/// from the top down: a left fold of `plus` started at `zero`.
pub open spec fn column_sums<T, A: Fn(&T, &T) -> T>(s: Matrix<T>, a: Matrix<T>, zero: T, plus: A) -> bool {
    &&& s.wf()
    &&& s.nrows() == 1
    &&& s.ncols() == a.ncols()
    &&& forall|c: int| 0 <= c < a.ncols() ==> is_fold(plus, zero, a.col(c), #[trigger] s.entries()[c])
}

impl<T> Matrix<T> {
    /// Number of rows.
    pub closed spec fn nrows(&self) -> nat {
        self.rows as nat
    }

    /// Number of columns.
    pub closed spec fn ncols(&self) -> nat {
        self.cols as nat
    }

    /// The elements, row after row.
    pub closed spec fn entries(&self) -> Seq<T> {
        self.data@
    }

    /// The flat storage holds exactly one element per position.
    pub open spec fn wf(&self) -> bool {
        self.entries().len() == self.nrows() * self.ncols()
    }

    /// Element at row `r`, column `c`.
    pub open spec fn at(&self, r: int, c: int) -> T {
        self.entries()[r * self.ncols() + c]
    }

    /// Both matrices have the same number of rows and of columns.
    pub open spec fn same_shape<U>(&self, other: &Matrix<U>) -> bool {
        self.nrows() == other.nrows() && self.ncols() == other.ncols()
    }

    /// The dimensions fit in a `usize`.
    pub proof fn lemma_dims_bounded(&self)
        ensures
            self.nrows() <= usize::MAX,
            self.ncols() <= usize::MAX,
            self.entries().len() <= usize::MAX,
    {
        assert(self.data.len() == self.data@.len());
    }

    /// `self` is the transpose of `m`: shapes swapped, and element `(c, r)`
    /// of `self` is element `(r, c)` of `m`.
    pub open spec fn is_transpose_of(&self, m: &Matrix<T>) -> bool {
        &&& self.nrows() == m.ncols()
        &&& self.ncols() == m.nrows()
        &&& forall|r: int, c: int|
            0 <= r < m.nrows() && 0 <= c < m.ncols() ==> #[trigger] self.at(c, r) == m.at(r, c)
    }

    /// `self` and `other` hold the same elements in the same shape.
    pub open spec fn same_as(&self, other: &Matrix<T>) -> bool {
        self.same_shape(other) && self.entries() == other.entries()
    }

    /// Row `r`, left to right.
    pub open spec fn row(&self, r: int) -> Seq<T> {
        Seq::new(self.ncols(), |c: int| self.at(r, c))
    }

    /// Column `c`, top to bottom.
    pub open spec fn col(&self, c: int) -> Seq<T> {
        Seq::new(self.nrows(), |r: int| self.at(r, c))
    }

    /// Builds a `rows x cols` matrix from its elements given row by row.
    pub fn with_slice(rows: usize, cols: usize, data: Vec<T>) -> (m: Matrix<T>)
        requires
            data@.len() == rows * cols,
        ensures
            m.wf(),
            m.nrows() == rows,
            m.ncols() == cols,
            m.entries() == data@,
    {
        Matrix { rows, cols, data }
    }

    /// Builds a matrix from its elements given row by row; the number of
    /// columns comes first.
    pub fn with_vec(cols: usize, rows: usize, data: Vec<T>) -> (m: Matrix<T>)
        requires
            data@.len() == rows * cols,
        ensures
            m.wf(),
            m.nrows() == rows,
            m.ncols() == cols,
            m.entries() == data@,
    {
        Matrix { rows, cols, data }
    }

    /// Number of rows.
    pub fn rows(&self) -> (r: usize)
        ensures
            r == self.nrows(),
    {
        self.rows
    }

    /// Number of columns.
    pub fn cols(&self) -> (c: usize)
        ensures
            c == self.ncols(),
    {
        self.cols
    }

    /// Whether the flat storage holds exactly one element per position.
    pub fn is_wf(&self) -> (b: bool)
        ensures
            b == self.wf(),
    {
        let len = self.data.len();
        match self.rows.checked_mul(self.cols) {
            Some(n) => n == len,
            None => false,
        }
    }

    /// Number of elements.
    pub fn len(&self) -> (n: usize)
        ensures
            n == self.entries().len(),
    {
        self.data.len()
    }

    /// The elements, row after row.
    pub fn data(&self) -> (d: &Vec<T>)
        ensures
            d@ == self.entries(),
    {
        &self.data
    }

    /// The element at flat position `index`; position `r * cols + c` holds
    /// row `r`, column `c`.
    pub fn index(&self, index: usize) -> (e: &T)
        requires
            index < self.entries().len(),
        ensures
            *e == self.entries()[index as int],
    {
        &self.data[index]
    }

    /// The element at row `r`, column `c`.
    pub fn get(&self, r: usize, c: usize) -> (e: &T)
        requires
            self.wf(),
            r < self.nrows(),
            c < self.ncols(),
        ensures
            *e == self.at(r as int, c as int),
    {
        proof {
            self.lemma_dims_bounded();
            lemma_index_in_bounds(r as int, c as int, self.rows as int, self.cols as int);
        }
        &self.data[r * self.cols + c]
    }

    /// Replaces the element at flat position `index`.
    pub fn set(&mut self, index: usize, value: T)
        requires
            index < old(self).entries().len(),
        ensures
            final(self).nrows() == old(self).nrows(),
            final(self).ncols() == old(self).ncols(),
            final(self).entries() == old(self).entries().update(index as int, value),
    {
        self.data.set(index, value);
    }
}

impl<T: Copy> Matrix<T> {
    /// A copy of `self`.
    pub fn clone(&self) -> (c: Matrix<T>)
        ensures
            c.same_as(self),
    {
        let data = vstd::slice::slice_to_vec(self.data.as_slice());
        Matrix { rows: self.rows, cols: self.cols, data }
    }
}

impl<T: Copy> Matrix<T> {
    /// A `rows x cols` matrix with every element equal to `fill`.
    pub fn new(rows: usize, cols: usize, fill: T) -> (m: Matrix<T>)
        requires
            rows * cols <= usize::MAX,
        ensures
            m.wf(),
            m.nrows() == rows,
            m.ncols() == cols,
            forall|k: int| 0 <= k < m.entries().len() ==> #[trigger] m.entries()[k] == fill,
    {
        let n = rows * cols;
        let mut data: Vec<T> = Vec::with_capacity(n);
        let mut k: usize = 0;
        while k < n
            invariant
                k <= n,
                n == rows * cols,
                data@.len() == k,
                forall|i: int| 0 <= i < k ==> #[trigger] data@[i] == fill,
            decreases n - k,
        {
            data.push(fill);
            k = k + 1;
        }
        Matrix { rows, cols, data }
    }

    /// A matrix shaped like `self` with every element equal to `zero`.
    pub fn copy_zeroed(&self, zero: T) -> (m: Matrix<T>)
        requires
            self.wf(),
        ensures
            m.wf(),
            m.same_shape(self),
            forall|k: int| 0 <= k < m.entries().len() ==> #[trigger] m.entries()[k] == zero,
    {
        proof {
            self.lemma_dims_bounded();
        }
        Self::new(self.rows, self.cols, zero)
    }

    /// A `rows x cols` matrix whose elements are drawn one by one, row after
    /// row, from `sample`.
    pub fn rand<F: Fn() -> T>(rows: usize, cols: usize, sample: F) -> (m: Matrix<T>)
        requires
            rows * cols <= usize::MAX,
            call_requires(sample, ()),
        ensures
            m.wf(),
            m.nrows() == rows,
            m.ncols() == cols,
            forall|k: int|
                0 <= k < m.entries().len() ==> call_ensures(sample, (), #[trigger] m.entries()[k]),
    {
        let n = rows * cols;
        let mut data: Vec<T> = Vec::with_capacity(n);
        let mut k: usize = 0;
        while k < n
            invariant
                k <= n,
                n == rows * cols,
                call_requires(sample, ()),
                data@.len() == k,
                forall|i: int| 0 <= i < k ==> call_ensures(sample, (), #[trigger] data@[i]),
            decreases n - k,
        {
            let v = sample();
            data.push(v);
            k = k + 1;
        }
        Matrix { rows, cols, data }
    }

    /// A matrix shaped like `self` whose elements are drawn from `sample`.
    pub fn copy_random<F: Fn() -> T>(&self, sample: F) -> (m: Matrix<T>)
        requires
            self.wf(),
            call_requires(sample, ()),
        ensures
            m.wf(),
            m.same_shape(self),
            forall|k: int|
                0 <= k < m.entries().len() ==> call_ensures(sample, (), #[trigger] m.entries()[k]),
    {
        proof {
            self.lemma_dims_bounded();
        }
        Self::rand(self.rows, self.cols, sample)
    }

    /// Builds a `rows x cols` matrix from a copy of `data`, given row by row.
    pub fn with_static_slice(rows: usize, cols: usize, data: &'static [T]) -> (m: Matrix<T>)
        requires
            data@.len() == rows * cols,
        ensures
            m.wf(),
            m.nrows() == rows,
            m.ncols() == cols,
            m.entries() == data@,
    {
        let v = vstd::slice::slice_to_vec(data);
        Matrix { rows, cols, data: v }
    }

    /// The `1 x len` row that holds `one` at column `idx` and `zero`
    /// everywhere else.
    pub fn one_hot(idx: usize, len: usize, zero: T, one: T) -> (m: Matrix<T>)
        requires
            idx < len,
        ensures
            m.wf(),
            m.nrows() == 1,
            m.ncols() == len,
            m.entries()[idx as int] == one,
            forall|k: int| 0 <= k < len && k != idx ==> #[trigger] m.entries()[k] == zero,
    {
        let mut m = Self::new(1, len, zero);
        m.data.set(idx, one);
        m
    }

    /// The transpose: element `(r, c)` of `self` is element `(c, r)` of the
    /// result.
    pub fn transpose(&self) -> (t: Matrix<T>)
        requires
            self.wf(),
        ensures
            t.wf(),
            t.is_transpose_of(self),
    {
        let rows = self.rows;
        let cols = self.cols;
        let n = self.data.len();
        let mut data: Vec<T> = Vec::with_capacity(n);
        let mut k: usize = 0;
        while k < n
            invariant
                k <= n,
                n == rows * cols,
                rows == self.nrows(),
                cols == self.ncols(),
                self.entries().len() == n,
                data@.len() == k,
                forall|i: int|
                    0 <= i < k ==> #[trigger] data@[i] == self.entries()[(i % rows as int) * cols + i
                        / rows as int],
            decreases n - k,
        {
            proof {
                if rows == 0 {
                    assert(rows * cols == 0);
                }
                assert(cols * rows == rows * cols) by (nonlinear_arith);
                lemma_flat_index(k as int, cols as int, rows as int);
                lemma_index_in_bounds((k % rows) as int, (k / rows) as int, rows as int, cols as int);
            }
            let i = k / rows;
            let j = k % rows;
            data.push(self.data[j * cols + i]);
            k = k + 1;
        }
        let t = Matrix { rows: cols, cols: rows, data };
        proof {
            assert(t.entries().len() == t.nrows() * t.ncols()) by (nonlinear_arith)
                requires
                    t.entries().len() == rows * cols,
                    t.nrows() == cols,
                    t.ncols() == rows,
            ;
            assert forall|r: int, c: int|
                0 <= r < self.nrows() && 0 <= c < self.ncols() implies #[trigger] t.at(c, r) == self.at(
                r,
                c,
            ) by {
                lemma_split_index(c, r, rows as int);
                lemma_index_in_bounds(c, r, cols as int, rows as int);
            }
        }
        t
    }
}

impl<T> Matrix<T> {
    /// Applies `f` to every element; the result has the shape of `self`.
    pub fn map<U, F: Fn(&T) -> U>(&self, f: F) -> (m: Matrix<U>)
        requires
            self.wf(),
            forall|k: int|
                0 <= k < self.entries().len() ==> call_requires(f, (&#[trigger] self.entries()[k],)),
        ensures
            mapped(m, *self, f),
    {
        let n = self.data.len();
        let mut data: Vec<U> = Vec::with_capacity(n);
        let mut k: usize = 0;
        while k < n
            invariant
                k <= n,
                n == self.entries().len(),
                forall|i: int|
                    0 <= i < self.entries().len() ==> call_requires(f, (&#[trigger] self.entries()[i],)),
                data@.len() == k,
                forall|i: int|
                    0 <= i < k ==> call_ensures(f, (&self.entries()[i],), #[trigger] data@[i]),
            decreases n - k,
        {
            let v = f(&self.data[k]);
            data.push(v);
            k = k + 1;
        }
        Matrix { rows: self.rows, cols: self.cols, data }
    }

    /// Combines the elements of `self` and `other` position by position with
    /// `f`; both must have the same shape.
    pub fn zip<U, V, F: Fn(&T, &U) -> V>(&self, other: &Matrix<U>, f: F) -> (m: Matrix<V>)
        requires
            self.wf(),
            other.wf(),
            self.same_shape(other),
            forall|k: int|
                0 <= k < self.entries().len() ==> call_requires(
                    f,
                    (&#[trigger] self.entries()[k], &other.entries()[k]),
                ),
        ensures
            zipped(m, *self, *other, f),
    {
        let n = self.data.len();
        let mut data: Vec<V> = Vec::with_capacity(n);
        let mut k: usize = 0;
        while k < n
            invariant
                k <= n,
                n == self.entries().len(),
                n == other.entries().len(),
                forall|i: int|
                    0 <= i < self.entries().len() ==> call_requires(
                        f,
                        (&#[trigger] self.entries()[i], &other.entries()[i]),
                    ),
                data@.len() == k,
                forall|i: int|
                    0 <= i < k ==> call_ensures(
                        f,
                        (&self.entries()[i], &other.entries()[i]),
                        #[trigger] data@[i],
                    ),
            decreases n - k,
        {
            let v = f(&self.data[k], &other.data[k]);
            data.push(v);
            k = k + 1;
        }
        Matrix { rows: self.rows, cols: self.cols, data }
    }
}

impl<T: Copy> Matrix<T> {
    /// The `1 x cols` row whose element `c` sums column `c` from the top
    /// row down: a left fold of `plus` started at `zero`.
    pub fn sum_over_rows<A: Fn(&T, &T) -> T>(&self, zero: T, plus: A) -> (s: Matrix<T>)
        requires
            self.wf(),
            forall|x: T, y: T| call_requires(plus, (&x, &y)),
        ensures
            column_sums(s, *self, zero, plus),
    {
        let rows = self.rows;
        let cols = self.cols;
        let n = self.data.len();
        let mut data: Vec<T> = Vec::with_capacity(cols);
        let mut c: usize = 0;
        while c < cols
            invariant
                n == self.entries().len(),
                c <= cols,
                rows == self.nrows(),
                cols == self.ncols(),
                self.wf(),
                forall|x: T, y: T| call_requires(plus, (&x, &y)),
                data@.len() == c,
                forall|i: int| 0 <= i < c ==> is_fold(plus, zero, self.col(i), #[trigger] data@[i]),
            decreases cols - c,
        {
            let mut acc = zero;
            let ghost mut steps: Seq<T> = seq![zero];
            let mut r: usize = 0;
            while r < rows
                invariant
                    n == self.entries().len(),
                    r <= rows,
                    c < cols,
                    rows == self.nrows(),
                    cols == self.ncols(),
                    self.wf(),
                    forall|x: T, y: T| call_requires(plus, (&x, &y)),
                    steps.len() == r + 1,
                    steps[0] == zero,
                    steps.last() == acc,
                    forall|i: int|
                        0 <= i < r ==> call_ensures(
                            plus,
                            (&steps[i], &self.col(c as int)[i]),
                            #[trigger] steps[i + 1],
                        ),
                decreases rows - r,
            {
                proof {
                    lemma_index_in_bounds(r as int, c as int, rows as int, cols as int);
                }
                let next = plus(&acc, &self.data[r * cols + c]);
                proof {
                    let old_steps = steps;
                    steps = steps.push(next);
                    assert forall|i: int|
                        0 <= i < r + 1 implies call_ensures(
                        plus,
                        (&steps[i], &self.col(c as int)[i]),
                        #[trigger] steps[i + 1],
                    ) by {
                        if i < r {
                            assert(steps[i] == old_steps[i]);
                            assert(steps[i + 1] == old_steps[i + 1]);
                        }
                    }
                }
                acc = next;
                r = r + 1;
            }
            proof {
                assert(fold_steps(plus, zero, self.col(c as int), steps));
            }
            data.push(acc);
            c = c + 1;
        }
        let s = Matrix { rows: 1, cols, data };
        assert(s.nrows() * s.ncols() == s.ncols()) by (nonlinear_arith)
            requires
                s.nrows() == 1,
        ;
        s
    }
}

impl<T: Copy> Matrix<T> {
    /// Inner product of row `i` of `self` and row `j` of `other`.
    fn dot_rows<M: Fn(&T, &T) -> T, A: Fn(&T, &T) -> T>(
        &self,
        other: &Matrix<T>,
        i: usize,
        j: usize,
        zero: T,
        times: &M,
        plus: &A,
    ) -> (v: T)
        requires
            self.wf(),
            other.wf(),
            self.ncols() == other.ncols(),
            i < self.nrows(),
            j < other.nrows(),
            forall|x: T, y: T| call_requires(*times, (&x, &y)),
            forall|x: T, y: T| call_requires(*plus, (&x, &y)),
        ensures
            is_dot(*times, *plus, zero, self.row(i as int), other.row(j as int), v),
    {
        let n = self.cols;
        let len_a = self.data.len();
        let len_b = other.data.len();
        let ghost a = self.row(i as int);
        let ghost b = other.row(j as int);
        let mut acc = zero;
        let ghost mut products: Seq<T> = seq![];
        let ghost mut steps: Seq<T> = seq![zero];
        let mut t: usize = 0;
        while t < n
            invariant
                t <= n,
                n == self.ncols(),
                n == other.ncols(),
                len_a == self.entries().len(),
                len_b == other.entries().len(),
                self.wf(),
                other.wf(),
                i < self.nrows(),
                j < other.nrows(),
                a == self.row(i as int),
                b == other.row(j as int),
                forall|x: T, y: T| call_requires(*times, (&x, &y)),
                forall|x: T, y: T| call_requires(*plus, (&x, &y)),
                products.len() == t,
                steps.len() == t + 1,
                steps[0] == zero,
                steps.last() == acc,
                forall|q: int| 0 <= q < t ==> call_ensures(*times, (&a[q], &b[q]), #[trigger] products[q]),
                forall|q: int|
                    0 <= q < t ==> call_ensures(*plus, (&steps[q], &products[q]), #[trigger] steps[q + 1]),
            decreases n - t,
        {
            proof {
                lemma_index_in_bounds(i as int, t as int, self.nrows() as int, n as int);
                lemma_index_in_bounds(j as int, t as int, other.nrows() as int, n as int);
            }
            let prod = times(&self.data[i * n + t], &other.data[j * n + t]);
            let next = plus(&acc, &prod);
            proof {
                let old_products = products;
                let old_steps = steps;
                products = products.push(prod);
                steps = steps.push(next);
                assert forall|q: int| 0 <= q < t + 1 implies call_ensures(
                    *times,
                    (&a[q], &b[q]),
                    #[trigger] products[q],
                ) by {
                    if q < t {
                        assert(products[q] == old_products[q]);
                    }
                }
                assert forall|q: int| 0 <= q < t + 1 implies call_ensures(
                    *plus,
                    (&steps[q], &products[q]),
                    #[trigger] steps[q + 1],
                ) by {
                    if q < t {
                        assert(steps[q] == old_steps[q]);
                        assert(steps[q + 1] == old_steps[q + 1]);
                        assert(products[q] == old_products[q]);
                    }
                }
            }
            acc = next;
            t = t + 1;
        }
        proof {
            assert(pairwise_products(*times, a, b, products));
            assert(fold_steps(*plus, zero, products, steps));
        }
        acc
    }

    /// The matrix product `self * rhs`: element `(i, j)` is the inner product
    /// of row `i` of `self` and column `j` of `rhs`, each product computed by
    /// `times` and summed from `zero` by `plus`.
    pub fn dot_mul<M: Fn(&T, &T) -> T, A: Fn(&T, &T) -> T>(
        &self,
        rhs: &Matrix<T>,
        zero: T,
        times: M,
        plus: A,
    ) -> (d: Matrix<T>)
        requires
            self.wf(),
            rhs.wf(),
            self.ncols() == rhs.nrows(),
            self.nrows() * rhs.ncols() <= usize::MAX,
            forall|x: T, y: T| call_requires(times, (&x, &y)),
            forall|x: T, y: T| call_requires(plus, (&x, &y)),
        ensures
            product_of(d, *self, *rhs, zero, times, plus),
    {
        let m = self.rows;
        let p = rhs.cols;
        let r = rhs.transpose();
        let total = m * p;
        let mut data: Vec<T> = Vec::with_capacity(total);
        let mut k: usize = 0;
        while k < total
            invariant
                k <= total,
                total == self.nrows() * rhs.ncols(),
                m == self.nrows(),
                p == rhs.ncols(),
                self.wf(),
                rhs.wf(),
                r.wf(),
                self.ncols() == rhs.nrows(),
                r.nrows() == rhs.ncols(),
                r.ncols() == rhs.nrows(),
                forall|a: int, b: int|
                    0 <= a < rhs.nrows() && 0 <= b < rhs.ncols() ==> #[trigger] r.at(b, a) == rhs.at(a, b),
                forall|x: T, y: T| call_requires(times, (&x, &y)),
                forall|x: T, y: T| call_requires(plus, (&x, &y)),
                data@.len() == k,
                forall|q: int|
                    0 <= q < k ==> is_dot(
                        times,
                        plus,
                        zero,
                        self.row(q / p as int),
                        rhs.col(q % p as int),
                        #[trigger] data@[q],
                    ),
            decreases total - k,
        {
            proof {
                if p == 0 {
                    assert(m * p == 0) by (nonlinear_arith)
                        requires
                            p == 0,
                    ;
                }
                lemma_flat_index(k as int, m as int, p as int);
            }
            let i = k / p;
            let j = k % p;
            let v = self.dot_rows(&r, i, j, zero, &times, &plus);
            proof {
                assert(r.row(j as int) =~= rhs.col(j as int));
            }
            data.push(v);
            k = k + 1;
        }
        let d = Matrix { rows: m, cols: p, data };
        proof {
            assert(d.wf());
            assert forall|i: int, j: int|
                0 <= i < self.nrows() && 0 <= j < rhs.ncols() implies is_dot(
                times,
                plus,
                zero,
                self.row(i),
                rhs.col(j),
                #[trigger] d.at(i, j),
            ) by {
                lemma_split_index(i, j, p as int);
                lemma_index_in_bounds(i, j, m as int, p as int);
            }
        }
        d
    }
}

impl<T: Copy> Matrix<T> {
    /// Adds `rhs` in place, element by element with `plus`; both must have
    /// the same shape, which stays.
    pub fn add_assign<A: Fn(&T, &T) -> T>(&mut self, rhs: &Matrix<T>, plus: A)
        requires
            old(self).wf(),
            rhs.wf(),
            old(self).same_shape(rhs),
            forall|x: T, y: T| call_requires(plus, (&x, &y)),
        ensures
            zipped(*final(self), *old(self), *rhs, plus),
    {
        *self = self.zip(rhs, plus);
    }

    /// Subtracts `rhs` in place, element by element with `minus`; both must
    /// have the same shape, which stays.
    pub fn sub_assign<S: Fn(&T, &T) -> T>(&mut self, rhs: &Matrix<T>, minus: S)
        requires
            old(self).wf(),
            rhs.wf(),
            old(self).same_shape(rhs),
            forall|x: T, y: T| call_requires(minus, (&x, &y)),
        ensures
            zipped(*final(self), *old(self), *rhs, minus),
    {
        *self = self.zip(rhs, minus);
    }

    /// Adds the number `k` to every element in place with `plus`: element
    /// `i` becomes `plus(&self[i], &k)`. The shape stays.
    pub fn add_scalar_assign<A: Fn(&T, &T) -> T>(&mut self, k: T, plus: A)
        requires
            old(self).wf(),
            forall|x: T, y: T| call_requires(plus, (&x, &y)),
        ensures
            final(self).wf(),
            final(self).same_shape(&*old(self)),
            forall|i: int|
                0 <= i < old(self).entries().len() ==> call_ensures(
                    plus,
                    (&old(self).entries()[i], &k),
                    #[trigger] final(self).entries()[i],
                ),
    {
        let plus = &plus;
        let by_k = |x: &T| -> (o: T)
            ensures
                call_ensures(plus, (x, &k), o),
            { plus(x, &k) };
        *self = self.map(&by_k);
    }

    /// Subtracts the number `k` from every element in place with `minus`:
    /// element `i` becomes `minus(&self[i], &k)`. The shape stays.
    pub fn sub_scalar_assign<S: Fn(&T, &T) -> T>(&mut self, k: T, minus: S)
        requires
            old(self).wf(),
            forall|x: T, y: T| call_requires(minus, (&x, &y)),
        ensures
            final(self).wf(),
            final(self).same_shape(&*old(self)),
            forall|i: int|
                0 <= i < old(self).entries().len() ==> call_ensures(
                    minus,
                    (&old(self).entries()[i], &k),
                    #[trigger] final(self).entries()[i],
                ),
    {
        let minus = &minus;
        let by_k = |x: &T| -> (o: T)
            ensures
                call_ensures(minus, (x, &k), o),
            { minus(x, &k) };
        *self = self.map(&by_k);
    }

    /// Replaces `self` by the matrix product `self * rhs` (see `dot_mul`).
    pub fn mul_assign<M: Fn(&T, &T) -> T, A: Fn(&T, &T) -> T>(
        &mut self,
        rhs: &Matrix<T>,
        zero: T,
        times: M,
        plus: A,
    )
        requires
            old(self).wf(),
            rhs.wf(),
            old(self).ncols() == rhs.nrows(),
            old(self).nrows() * rhs.ncols() <= usize::MAX,
            forall|x: T, y: T| call_requires(times, (&x, &y)),
            forall|x: T, y: T| call_requires(plus, (&x, &y)),
        ensures
            product_of(*final(self), *old(self), *rhs, zero, times, plus),
    {
        *self = self.dot_mul(rhs, zero, times, plus);
    }
}

/// Transposing twice gives back the matrix: same shape, same elements.
pub proof fn lemma_transpose_involution<T>(m: &Matrix<T>, t: &Matrix<T>, tt: &Matrix<T>)
    requires
        m.wf(),
        t.wf(),
        tt.wf(),
        t.is_transpose_of(m),
        tt.is_transpose_of(t),
    ensures
        tt.same_shape(m),
        tt.entries() == m.entries(),
{
    assert forall|k: int| 0 <= k < m.entries().len() implies tt.entries()[k] == m.entries()[k] by {
        if m.ncols() == 0 {
            assert(m.nrows() * m.ncols() == 0) by (nonlinear_arith)
                requires
                    m.ncols() == 0,
            ;
        }
        lemma_flat_index(k, m.nrows() as int, m.ncols() as int);
        let r = k / m.ncols() as int;
        let c = k % m.ncols() as int;
        assert(tt.at(r, c) == t.at(c, r));
        assert(t.at(c, r) == m.at(r, c));
    }
    assert(tt.entries() =~= m.entries());
}

/// With a deterministic `f`, combining the same matrices position by
/// position gives the same matrix.
pub proof fn lemma_zip_unique<T, F: Fn(&T, &T) -> T>(
    m1: Matrix<T>,
    a1: Matrix<T>,
    b1: Matrix<T>,
    m2: Matrix<T>,
    a2: Matrix<T>,
    b2: Matrix<T>,
    f: F,
)
    requires
        deterministic(f),
        a1.wf(),
        a1.same_as(&a2),
        b1.same_as(&b2),
        zipped(m1, a1, b1, f),
        zipped(m2, a2, b2, f),
    ensures
        m1.same_as(&m2),
{
    assert forall|k: int| 0 <= k < m1.entries().len() implies m1.entries()[k] == m2.entries()[k] by {
        assert(call_ensures(f, (&a1.entries()[k], &b1.entries()[k]), m1.entries()[k]));
        assert(call_ensures(f, (&a2.entries()[k], &b2.entries()[k]), m2.entries()[k]));
    }
    assert(m1.entries() =~= m2.entries());
}

/// With deterministic `times` and `plus`, the product of the same matrices
/// is the same matrix.
pub proof fn lemma_product_unique<T, M: Fn(&T, &T) -> T, A: Fn(&T, &T) -> T>(
    d1: Matrix<T>,
    a1: Matrix<T>,
    b1: Matrix<T>,
    d2: Matrix<T>,
    a2: Matrix<T>,
    b2: Matrix<T>,
    zero: T,
    times: M,
    plus: A,
)
    requires
        deterministic(times),
        deterministic(plus),
        a1.same_as(&a2),
        b1.same_as(&b2),
        product_of(d1, a1, b1, zero, times, plus),
        product_of(d2, a2, b2, zero, times, plus),
    ensures
        d1.same_as(&d2),
{
    assert forall|k: int| 0 <= k < d1.entries().len() implies d1.entries()[k] == d2.entries()[k] by {
        if d1.ncols() == 0 {
            assert(d1.nrows() * d1.ncols() == 0) by (nonlinear_arith)
                requires
                    d1.ncols() == 0,
            ;
        }
        lemma_flat_index(k, d1.nrows() as int, d1.ncols() as int);
        let r = k / d1.ncols() as int;
        let c = k % d1.ncols() as int;
        assert(a1.row(r) =~= a2.row(r));
        assert(b1.col(c) =~= b2.col(c));
        assert(is_dot(times, plus, zero, a1.row(r), b1.col(c), d1.at(r, c)));
        assert(is_dot(times, plus, zero, a2.row(r), b2.col(c), d2.at(r, c)));
        lemma_dot_unique(times, plus, zero, a1.row(r), b1.col(c), d1.at(r, c), d2.at(r, c));
    }
    assert(d1.entries() =~= d2.entries());
}

/// Subtracting undoes adding: when `minus(plus(x, y), y)` is `x` for every
/// pair, adding `b` to `a` element by element with `plus` and then
/// subtracting `b` with `minus` gives `a` back.
pub proof fn lemma_sub_undoes_add<T, A: Fn(&T, &T) -> T, S: Fn(&T, &T) -> T>(
    a: Matrix<T>,
    b: Matrix<T>,
    sum: Matrix<T>,
    back: Matrix<T>,
    plus: A,
    minus: S,
)
    requires
        a.wf(),
        b.wf(),
        a.same_shape(&b),
        forall|x: T, y: T, s: T, r: T|
            #[trigger] call_ensures(plus, (&x, &y), s) && #[trigger] call_ensures(minus, (&s, &y), r) ==> r == x,
        zipped(sum, a, b, plus),
        zipped(back, sum, b, minus),
    ensures
        back.same_as(&a),
{
    assert forall|i: int| 0 <= i < a.entries().len() implies back.entries()[i] == a.entries()[i] by {
        assert(call_ensures(plus, (&a.entries()[i], &b.entries()[i]), sum.entries()[i]));
        assert(call_ensures(minus, (&sum.entries()[i], &b.entries()[i]), back.entries()[i]));
    }
    assert(back.entries() =~= a.entries());
}

} // verus!
