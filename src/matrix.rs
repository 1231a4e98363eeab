use vstd::prelude::*;
use core::ops::{Add, Mul, Sub};
use vstd::std_specs::ops::{AddSpec, MulSpec, SubSpec};

verus! {

/// Why a matrix operation refused its operands.
#[derive(Debug, Clone, Copy, PartialEq, Eq, Structural)]
pub enum MatrixError {
    /// The operands' shapes do not fit the operation.
    DimensionMismatch,
}

/// A dense, row-major two-dimensional container.
///
/// A well-formed matrix has at least one row and one column, `rows` rows in
/// `data`, and `cols` cells in each of them.  Every operation returns a new
/// matrix and leaves its operands as they were.
#[derive(Debug, Clone)]
pub struct Matrix<T> {
    pub rows: usize,
    pub cols: usize,
    pub data: Vec<Vec<T>>,
}

impl<T> View for Matrix<T> {
    type V = Seq<Seq<T>>;

    open spec fn view(&self) -> Seq<Seq<T>> {
        grid_of(self.data@)
    }
}

/// The cells of nested rows.
pub open spec fn grid_of<T>(rows: Seq<Vec<T>>) -> Seq<Seq<T>> {
    rows.map_values(|r: Vec<T>| r@)
}

/// `m` has exactly `rows` rows of `cols` cells each.
pub open spec fn has_shape<T>(m: Seq<Seq<T>>, rows: nat, cols: nat) -> bool {
    &&& m.len() == rows
    &&& forall|i: int| 0 <= i < rows ==> (#[trigger] m[i]).len() == cols
}

/// The transposed grid: cell `(j, i)` holds cell `(i, j)` of `m`.
pub open spec fn transposed<T>(m: Seq<Seq<T>>, rows: nat, cols: nat) -> Seq<Seq<T>> {
    Seq::new(cols, |j: int| Seq::new(rows, |i: int| m[i][j]))
}

/// Whether `+`, `-` and `*` are defined on every pair of values of `T`.
pub open spec fn arithmetic_is_total<T: Add<Output = T> + Sub<Output = T> + Mul<Output = T>>() -> bool {
    forall|x: T, y: T| #![trigger x.add_req(y)] #![trigger x.sub_req(y)] #![trigger x.mul_req(y)]
        x.add_req(y) && x.sub_req(y) && x.mul_req(y)
}

/// Whether `T`'s `+` and `*` compute `add_spec` and `mul_spec`.
pub open spec fn obeys_ring_spec<T: Add<Output = T> + Mul<Output = T>>() -> bool {
    T::obeys_add_spec() && T::obeys_mul_spec()
}

/// The left-to-right sum of the first `n` products `a[k] * b[k]` (`n >= 1`).
pub open spec fn dot<T: Add<Output = T> + Mul<Output = T>>(a: Seq<T>, b: Seq<T>, n: nat) -> T
    decreases n,
{
    if n <= 1 {
        a[0].mul_spec(b[0])
    } else {
        dot(a, b, (n - 1) as nat).add_spec(a[n - 1].mul_spec(b[n - 1]))
    }
}

/// Every step of `dot(a, b, n)` stays within the operations' domain.
pub open spec fn dot_defined<T: Add<Output = T> + Mul<Output = T>>(a: Seq<T>, b: Seq<T>, n: nat) -> bool {
    forall|k: int|
        #![trigger a[k].mul_req(b[k])]
        0 <= k < n ==> a[k].mul_req(b[k]) && (1 <= k ==> dot(a, b, k as nat).add_req(
            a[k].mul_spec(b[k]),
        ))
}

impl<T> Matrix<T> {
    /// The matrix is well formed: a positive shape that `data` matches.
    pub open spec fn wf(&self) -> bool {
        &&& self.rows > 0
        &&& self.cols > 0
        &&& has_shape(self@, self.rows as nat, self.cols as nat)
    }

    /// The cell in row `i` and column `j`.
    pub open spec fn cell(&self, i: int, j: int) -> T {
        self@[i][j]
    }

    /// Column `j`, top to bottom.
    pub open spec fn column(&self, j: int) -> Seq<T> {
        Seq::new(self.rows as nat, |k: int| self@[k][j])
    }

    /// Both matrices have the same number of rows and of columns.
    pub open spec fn same_shape<U>(&self, other: &Matrix<U>) -> bool {
        self.rows == other.rows && self.cols == other.cols
    }
}

impl<T: Copy> Matrix<T> {
    /// A `rows` by `cols` matrix whose every cell holds `value`.
    pub fn filled(rows: usize, cols: usize, value: T) -> (r: Matrix<T>)
        requires
            rows > 0,
            cols > 0,
        ensures
            r.wf(),
            r.rows == rows,
            r.cols == cols,
            forall|i: int, j: int| 0 <= i < rows && 0 <= j < cols ==> #[trigger] r.cell(i, j) == value,
    {
        let mut data: Vec<Vec<T>> = Vec::new();
        let mut i: usize = 0;
        while i < rows
            invariant
                i <= rows,
                data@.len() == i,
                forall|a: int| 0 <= a < i ==> (#[trigger] data@[a])@ == Seq::new(cols as nat, |b: int| value),
            decreases rows - i,
        {
            let mut row: Vec<T> = Vec::new();
            let mut j: usize = 0;
            while j < cols
                invariant
                    j <= cols,
                    row@ == Seq::new(j as nat, |b: int| value),
                decreases cols - j,
            {
                row.push(value);
                j = j + 1;
                assert(row@ =~= Seq::new(j as nat, |b: int| value));
            }
            data.push(row);
            i = i + 1;
        }
        let r = Matrix { rows, cols, data };
        assert forall|a: int| 0 <= a < rows implies (#[trigger] r@[a]).len() == cols by {
            assert(r@[a] == r.data@[a]@);
        }
        assert forall|a: int, b: int| 0 <= a < rows && 0 <= b < cols implies #[trigger] r.cell(a, b) == value by {
            assert(r@[a] == r.data@[a]@);
        }
        r
    }

    /// A `rows` by `cols` matrix of zeros, zero being `T`'s default value.
    pub fn zeros(rows: usize, cols: usize) -> (r: Matrix<T>) where T: Default
        requires
            rows > 0,
            cols > 0,
        ensures
            r.wf(),
            r.rows == rows,
            r.cols == cols,
            forall|i: int, j: int|
                0 <= i < rows && 0 <= j < cols ==> call_ensures(T::default, (), #[trigger] r.cell(i, j)),
    {
        let zero = T::default();
        Matrix::filled(rows, cols, zero)
    }

    /// Wraps `data` as it is: as many rows as it has, as many columns as its
    /// first row.  The other rows are not checked; the result is well formed
    /// exactly when they all have that length and it is positive.
    pub fn from(data: Vec<Vec<T>>) -> (r: Matrix<T>)
        requires
            data@.len() > 0,
        ensures
            r.rows == data@.len(),
            r.cols == data@[0]@.len(),
            r.data@ == data@,
            r.wf() <==> (data@[0]@.len() > 0 && forall|i: int|
                0 <= i < data@.len() ==> (#[trigger] data@[i])@.len() == data@[0]@.len()),
    {
        let rows = data.len();
        let cols = data[0].len();
        let r = Matrix { rows, cols, data };
        assert(r@.len() == rows);
        assert forall|i: int| 0 <= i < rows implies (#[trigger] r@[i]) == r.data@[i]@ by {}
        assert forall|i: int| 0 <= i < rows implies (#[trigger] r.data@[i])@ == r@[i] by {}
        r
    }

    /// The `cols` by `rows` matrix whose cell `(j, i)` is cell `(i, j)` here.
    pub fn transpose(&self) -> (r: Matrix<T>)
        requires
            self.wf(),
        ensures
            r.wf(),
            r.rows == self.cols,
            r.cols == self.rows,
            r@ == transposed(self@, self.rows as nat, self.cols as nat),
    {
        let mut data: Vec<Vec<T>> = Vec::new();
        let mut j: usize = 0;
        while j < self.cols
            invariant
                self.wf(),
                j <= self.cols,
                data@.len() == j,
                forall|a: int| 0 <= a < j ==> (#[trigger] data@[a])@ == self.column(a),
            decreases self.cols - j,
        {
            let mut row: Vec<T> = Vec::new();
            let mut i: usize = 0;
            while i < self.rows
                invariant
                    self.wf(),
                    j < self.cols,
                    i <= self.rows,
                    row@ == self.column(j as int).take(i as int),
                decreases self.rows - i,
            {
                assert(self@[i as int] == self.data@[i as int]@);
                row.push(self.data[i][j]);
                i = i + 1;
                assert(row@ =~= self.column(j as int).take(i as int));
            }
            assert(row@ =~= self.column(j as int));
            data.push(row);
            j = j + 1;
        }
        let r = Matrix { rows: self.cols, cols: self.rows, data };
        assert(r@ =~= transposed(self@, self.rows as nat, self.cols as nat)) by {
            assert forall|a: int| 0 <= a < self.cols implies #[trigger] r@[a] =~= transposed(
                self@,
                self.rows as nat,
                self.cols as nat,
            )[a] by {
                assert(r@[a] == r.data@[a]@);
            }
        }
        r
    }

    /// Applies `function` to every cell on its own.
    pub fn map<F: Fn(T) -> T>(&self, function: &F) -> (r: Matrix<T>)
        requires
            self.wf(),
            forall|x: T| #[trigger] function.requires((x,)),
        ensures
            r.wf(),
            r.same_shape(self),
            forall|i: int, j: int|
                0 <= i < self.rows && 0 <= j < self.cols ==> function.ensures(
                    (self.cell(i, j),),
                    #[trigger] r.cell(i, j),
                ),
    {
        let mut data: Vec<Vec<T>> = Vec::new();
        let mut i: usize = 0;
        while i < self.rows
            invariant
                self.wf(),
                forall|x: T| #[trigger] function.requires((x,)),
                i <= self.rows,
                data@.len() == i,
                forall|a: int| 0 <= a < i ==> (#[trigger] data@[a])@.len() == self.cols,
                forall|a: int, b: int|
                    0 <= a < i && 0 <= b < self.cols ==> function.ensures(
                        (self.cell(a, b),),
                        #[trigger] data@[a]@[b],
                    ),
            decreases self.rows - i,
        {
            assert(self@[i as int] == self.data@[i as int]@);
            let mut row: Vec<T> = Vec::new();
            let mut j: usize = 0;
            while j < self.cols
                invariant
                    self.wf(),
                    forall|x: T| #[trigger] function.requires((x,)),
                    i < self.rows,
                    self@[i as int] == self.data@[i as int]@,
                    j <= self.cols,
                    row@.len() == j,
                    forall|b: int|
                        0 <= b < j ==> function.ensures((self.cell(i as int, b),), #[trigger] row@[b]),
                decreases self.cols - j,
            {
                let v = function(self.data[i][j]);
                row.push(v);
                j = j + 1;
            }
            data.push(row);
            i = i + 1;
        }
        let r = Matrix { rows: self.rows, cols: self.cols, data };
        assert forall|a: int| 0 <= a < self.rows implies (#[trigger] r@[a]) == r.data@[a]@ by {}
        r
    }
}

impl<T: Copy + Add<Output = T>> Matrix<T> {
    /// Every pair of corresponding cells can be added.
    pub open spec fn add_defined(&self, other: &Matrix<T>) -> bool {
        forall|i: int, j: int|
            0 <= i < self.rows && 0 <= j < self.cols ==> #[trigger] self.cell(i, j).add_req(
                other.cell(i, j),
            )
    }

    /// The cell-by-cell sum; the shapes must be equal.
    pub fn add(&self, other: &Matrix<T>) -> (r: Result<Matrix<T>, MatrixError>)
        requires
            self.wf(),
            other.wf(),
            self.same_shape(other) ==> self.add_defined(other),
        ensures
            r is Err <==> !self.same_shape(other),
            r is Err ==> r == Err::<Matrix<T>, MatrixError>(MatrixError::DimensionMismatch),
            r matches Ok(m) ==> {
                &&& m.wf()
                &&& m.same_shape(self)
                &&& T::obeys_add_spec() ==> forall|i: int, j: int|
                    0 <= i < self.rows && 0 <= j < self.cols ==> #[trigger] m.cell(i, j)
                        == self.cell(i, j).add_spec(other.cell(i, j))
            },
    {
        if self.rows != other.rows || self.cols != other.cols {
            return Err(MatrixError::DimensionMismatch);
        }
        let mut data: Vec<Vec<T>> = Vec::new();
        let mut i: usize = 0;
        while i < self.rows
            invariant
                self.wf(),
                other.wf(),
                self.same_shape(other),
                self.add_defined(other),
                i <= self.rows,
                data@.len() == i,
                forall|a: int| 0 <= a < i ==> (#[trigger] data@[a])@.len() == self.cols,
                T::obeys_add_spec() ==> forall|a: int, b: int|
                    0 <= a < i && 0 <= b < self.cols ==> #[trigger] data@[a]@[b] == self.cell(
                        a,
                        b,
                    ).add_spec(other.cell(a, b)),
            decreases self.rows - i,
        {
            assert(self@[i as int] == self.data@[i as int]@);
            assert(other@[i as int] == other.data@[i as int]@);
            let mut row: Vec<T> = Vec::new();
            let mut j: usize = 0;
            while j < self.cols
                invariant
                    self.wf(),
                    other.wf(),
                    self.same_shape(other),
                    self.add_defined(other),
                    i < self.rows,
                    self@[i as int] == self.data@[i as int]@,
                    other@[i as int] == other.data@[i as int]@,
                    j <= self.cols,
                    row@.len() == j,
                    T::obeys_add_spec() ==> forall|b: int|
                        0 <= b < j ==> #[trigger] row@[b] == self.cell(i as int, b).add_spec(
                            other.cell(i as int, b),
                        ),
                decreases self.cols - j,
            {
                assert(self.cell(i as int, j as int).add_req(other.cell(i as int, j as int)));
                let v = self.data[i][j] + other.data[i][j];
                row.push(v);
                j = j + 1;
            }
            data.push(row);
            i = i + 1;
        }
        let r = Matrix { rows: self.rows, cols: self.cols, data };
        assert forall|a: int| 0 <= a < self.rows implies (#[trigger] r@[a]) == r.data@[a]@ by {}
        Ok(r)
    }
}

impl<T: Copy + Sub<Output = T>> Matrix<T> {
    /// Every pair of corresponding cells can be subtracted.
    pub open spec fn sub_defined(&self, other: &Matrix<T>) -> bool {
        forall|i: int, j: int|
            0 <= i < self.rows && 0 <= j < self.cols ==> #[trigger] self.cell(i, j).sub_req(
                other.cell(i, j),
            )
    }

    /// The cell-by-cell difference `self - other`; the shapes must be equal.
    pub fn subtract(&self, other: &Matrix<T>) -> (r: Result<Matrix<T>, MatrixError>)
        requires
            self.wf(),
            other.wf(),
            self.same_shape(other) ==> self.sub_defined(other),
        ensures
            r is Err <==> !self.same_shape(other),
            r is Err ==> r == Err::<Matrix<T>, MatrixError>(MatrixError::DimensionMismatch),
            r matches Ok(m) ==> {
                &&& m.wf()
                &&& m.same_shape(self)
                &&& T::obeys_sub_spec() ==> forall|i: int, j: int|
                    0 <= i < self.rows && 0 <= j < self.cols ==> #[trigger] m.cell(i, j)
                        == self.cell(i, j).sub_spec(other.cell(i, j))
            },
    {
        if self.rows != other.rows || self.cols != other.cols {
            return Err(MatrixError::DimensionMismatch);
        }
        let mut data: Vec<Vec<T>> = Vec::new();
        let mut i: usize = 0;
        while i < self.rows
            invariant
                self.wf(),
                other.wf(),
                self.same_shape(other),
                self.sub_defined(other),
                i <= self.rows,
                data@.len() == i,
                forall|a: int| 0 <= a < i ==> (#[trigger] data@[a])@.len() == self.cols,
                T::obeys_sub_spec() ==> forall|a: int, b: int|
                    0 <= a < i && 0 <= b < self.cols ==> #[trigger] data@[a]@[b] == self.cell(
                        a,
                        b,
                    ).sub_spec(other.cell(a, b)),
            decreases self.rows - i,
        {
            assert(self@[i as int] == self.data@[i as int]@);
            assert(other@[i as int] == other.data@[i as int]@);
            let mut row: Vec<T> = Vec::new();
            let mut j: usize = 0;
            while j < self.cols
                invariant
                    self.wf(),
                    other.wf(),
                    self.same_shape(other),
                    self.sub_defined(other),
                    i < self.rows,
                    self@[i as int] == self.data@[i as int]@,
                    other@[i as int] == other.data@[i as int]@,
                    j <= self.cols,
                    row@.len() == j,
                    T::obeys_sub_spec() ==> forall|b: int|
                        0 <= b < j ==> #[trigger] row@[b] == self.cell(i as int, b).sub_spec(
                            other.cell(i as int, b),
                        ),
                decreases self.cols - j,
            {
                assert(self.cell(i as int, j as int).sub_req(other.cell(i as int, j as int)));
                let v = self.data[i][j] - other.data[i][j];
                row.push(v);
                j = j + 1;
            }
            data.push(row);
            i = i + 1;
        }
        let r = Matrix { rows: self.rows, cols: self.cols, data };
        assert forall|a: int| 0 <= a < self.rows implies (#[trigger] r@[a]) == r.data@[a]@ by {}
        Ok(r)
    }
}

impl<T: Copy + Mul<Output = T>> Matrix<T> {
    /// Every pair of corresponding cells can be multiplied.
    pub open spec fn mul_defined(&self, other: &Matrix<T>) -> bool {
        forall|i: int, j: int|
            0 <= i < self.rows && 0 <= j < self.cols ==> #[trigger] self.cell(i, j).mul_req(
                other.cell(i, j),
            )
    }

    /// The cell-by-cell (Hadamard) product; the shapes must be equal.
    pub fn dot_multiply(&self, other: &Matrix<T>) -> (r: Result<Matrix<T>, MatrixError>)
        requires
            self.wf(),
            other.wf(),
            self.same_shape(other) ==> self.mul_defined(other),
        ensures
            r is Err <==> !self.same_shape(other),
            r is Err ==> r == Err::<Matrix<T>, MatrixError>(MatrixError::DimensionMismatch),
            r matches Ok(m) ==> {
                &&& m.wf()
                &&& m.same_shape(self)
                &&& T::obeys_mul_spec() ==> forall|i: int, j: int|
                    0 <= i < self.rows && 0 <= j < self.cols ==> #[trigger] m.cell(i, j)
                        == self.cell(i, j).mul_spec(other.cell(i, j))
            },
    {
        if self.rows != other.rows || self.cols != other.cols {
            return Err(MatrixError::DimensionMismatch);
        }
        let mut data: Vec<Vec<T>> = Vec::new();
        let mut i: usize = 0;
        while i < self.rows
            invariant
                self.wf(),
                other.wf(),
                self.same_shape(other),
                self.mul_defined(other),
                i <= self.rows,
                data@.len() == i,
                forall|a: int| 0 <= a < i ==> (#[trigger] data@[a])@.len() == self.cols,
                T::obeys_mul_spec() ==> forall|a: int, b: int|
                    0 <= a < i && 0 <= b < self.cols ==> #[trigger] data@[a]@[b] == self.cell(
                        a,
                        b,
                    ).mul_spec(other.cell(a, b)),
            decreases self.rows - i,
        {
            assert(self@[i as int] == self.data@[i as int]@);
            assert(other@[i as int] == other.data@[i as int]@);
            let mut row: Vec<T> = Vec::new();
            let mut j: usize = 0;
            while j < self.cols
                invariant
                    self.wf(),
                    other.wf(),
                    self.same_shape(other),
                    self.mul_defined(other),
                    i < self.rows,
                    self@[i as int] == self.data@[i as int]@,
                    other@[i as int] == other.data@[i as int]@,
                    j <= self.cols,
                    row@.len() == j,
                    T::obeys_mul_spec() ==> forall|b: int|
                        0 <= b < j ==> #[trigger] row@[b] == self.cell(i as int, b).mul_spec(
                            other.cell(i as int, b),
                        ),
                decreases self.cols - j,
            {
                assert(self.cell(i as int, j as int).mul_req(other.cell(i as int, j as int)));
                let v = self.data[i][j] * other.data[i][j];
                row.push(v);
                j = j + 1;
            }
            data.push(row);
            i = i + 1;
        }
        let r = Matrix { rows: self.rows, cols: self.cols, data };
        assert forall|a: int| 0 <= a < self.rows implies (#[trigger] r@[a]) == r.data@[a]@ by {}
        Ok(r)
    }
}

impl<T: Copy + Add<Output = T> + Mul<Output = T>> Matrix<T> {
    /// Every sum of products that `multiply` forms can be computed: either
    /// `+` and `*` are defined on all values, or `T` follows its
    /// specification and no step leaves the operations' domain.
    pub open spec fn product_defined(&self, other: &Matrix<T>) -> bool {
        ||| forall|x: T, y: T| #![trigger x.add_req(y)] #![trigger x.mul_req(y)]
            x.add_req(y) && x.mul_req(y)
        ||| obeys_ring_spec::<T>() && forall|i: int, j: int|
            0 <= i < self.rows && 0 <= j < other.cols ==> #[trigger] dot_defined(
                self@[i],
                other.column(j),
                self.cols as nat,
            )
    }

    /// The matrix product `self * other`: cell `(i, j)` is the sum, from left
    /// to right, of `self[i][k] * other[k][j]`.  `self.cols` must equal
    /// `other.rows`.
    #[verifier::loop_isolation(false)]
    pub fn multiply(&self, other: &Matrix<T>) -> (r: Result<Matrix<T>, MatrixError>)
        requires
            self.wf(),
            other.wf(),
            self.cols == other.rows ==> self.product_defined(other),
        ensures
            r is Err <==> self.cols != other.rows,
            r is Err ==> r == Err::<Matrix<T>, MatrixError>(MatrixError::DimensionMismatch),
            r matches Ok(m) ==> {
                &&& m.wf()
                &&& m.rows == self.rows
                &&& m.cols == other.cols
                &&& obeys_ring_spec::<T>() ==> forall|i: int, j: int|
                    0 <= i < self.rows && 0 <= j < other.cols ==> #[trigger] m.cell(i, j) == dot(
                        self@[i],
                        other.column(j),
                        self.cols as nat,
                    )
            },
    {
        if self.cols != other.rows {
            return Err(MatrixError::DimensionMismatch);
        }
        let mut data: Vec<Vec<T>> = Vec::new();
        let mut i: usize = 0;
        while i < self.rows
            invariant
                i <= self.rows,
                data@.len() == i,
                forall|a: int| 0 <= a < i ==> (#[trigger] data@[a])@.len() == other.cols,
                obeys_ring_spec::<T>() ==> forall|a: int, b: int|
                    0 <= a < i && 0 <= b < other.cols ==> #[trigger] data@[a]@[b] == dot(
                        self@[a],
                        other.column(b),
                        self.cols as nat,
                    ),
            decreases self.rows - i,
        {
            let ghost a = self@[i as int];
            assert(a == self.data@[i as int]@);
            let mut row: Vec<T> = Vec::new();
            let mut j: usize = 0;
            while j < other.cols
                invariant
                    i < self.rows,
                    j <= other.cols,
                    row@.len() == j,
                    obeys_ring_spec::<T>() ==> forall|b: int|
                        0 <= b < j ==> #[trigger] row@[b] == dot(a, other.column(b), self.cols as nat),
                decreases other.cols - j,
            {
                let ghost b = other.column(j as int);
                assert(other@[0] == other.data@[0]@);
                assert(b[0] == other.data@[0]@[j as int]);
                assert(a[0].mul_req(b[0])) by {
                    assert(self.product_defined(other));
                    assert(dot_defined(a, b, self.cols as nat) || a[0].mul_req(b[0]));
                }
                let mut acc = self.data[i][0] * other.data[0][j];
                let mut k: usize = 1;
                while k < self.cols
                    invariant
                        1 <= k <= self.cols,
                        i < self.rows,
                        j < other.cols,
                        obeys_ring_spec::<T>() ==> acc == dot(a, b, k as nat),
                    decreases self.cols - k,
                {
                    assert(other@[k as int] == other.data@[k as int]@);
                    assert(b[k as int] == other.data@[k as int]@[j as int]);
                    assert(a[k as int].mul_req(b[k as int])) by {
                        if !(forall|x: T, y: T| #![trigger x.add_req(y)] #![trigger x.mul_req(y)]
                            x.add_req(y) && x.mul_req(y)) {
                            assert(dot_defined(a, b, self.cols as nat));
                        }
                    }
                    let p = self.data[i][k] * other.data[k][j];
                    assert(acc.add_req(p)) by {
                        if !(forall|x: T, y: T| #![trigger x.add_req(y)] #![trigger x.mul_req(y)]
                            x.add_req(y) && x.mul_req(y)) {
                            assert(dot_defined(a, b, self.cols as nat));
                            assert(a[k as int].mul_req(b[k as int]));
                        }
                    }
                    acc = acc + p;
                    k = k + 1;
                }
                row.push(acc);
                j = j + 1;
            }
            data.push(row);
            i = i + 1;
        }
        let r = Matrix { rows: self.rows, cols: other.cols, data };
        assert forall|a: int| 0 <= a < self.rows implies (#[trigger] r@[a]) == r.data@[a]@ by {}
        Ok(r)
    }
}

impl<T: Copy> Matrix<T> {
    /// A `rows` by `cols` matrix whose cells are drawn one by one from
    /// `sample`, row after row.
    pub fn random<S: Fn() -> T>(rows: usize, cols: usize, sample: &S) -> (r: Matrix<T>)
        requires
            rows > 0,
            cols > 0,
            sample.requires(()),
        ensures
            r.wf(),
            r.rows == rows,
            r.cols == cols,
            forall|i: int, j: int|
                0 <= i < rows && 0 <= j < cols ==> sample.ensures((), #[trigger] r.cell(i, j)),
    {
        let mut data: Vec<Vec<T>> = Vec::new();
        let mut i: usize = 0;
        while i < rows
            invariant
                sample.requires(()),
                i <= rows,
                data@.len() == i,
                forall|a: int| 0 <= a < i ==> (#[trigger] data@[a])@.len() == cols,
                forall|a: int, b: int|
                    0 <= a < i && 0 <= b < cols ==> sample.ensures((), #[trigger] data@[a]@[b]),
            decreases rows - i,
        {
            let mut row: Vec<T> = Vec::new();
            let mut j: usize = 0;
            while j < cols
                invariant
                    sample.requires(()),
                    j <= cols,
                    row@.len() == j,
                    forall|b: int| 0 <= b < j ==> sample.ensures((), #[trigger] row@[b]),
                decreases cols - j,
            {
                let v = sample();
                row.push(v);
                j = j + 1;
            }
            data.push(row);
            i = i + 1;
        }
        let r = Matrix { rows, cols, data };
        assert forall|a: int| 0 <= a < rows implies (#[trigger] r@[a]) == r.data@[a]@ by {}
        r
    }

    /// Whether `data` matches a positive `rows` by `cols` shape.
    pub fn is_well_formed(&self) -> (r: bool)
        ensures
            r == self.wf(),
    {
        if self.rows == 0 || self.cols == 0 || self.data.len() != self.rows {
            return false;
        }
        let mut i: usize = 0;
        while i < self.rows
            invariant
                self.rows > 0,
                self.cols > 0,
                self.data@.len() == self.rows,
                i <= self.rows,
                forall|a: int| 0 <= a < i ==> (#[trigger] self@[a]).len() == self.cols,
            decreases self.rows - i,
        {
            assert(self@[i as int] == self.data@[i as int]@);
            if self.data[i].len() != self.cols {
                return false;
            }
            i = i + 1;
        }
        true
    }

    /// A copy of column `j`, top to bottom.
    pub fn column_values(&self, j: usize) -> (r: Vec<T>)
        requires
            self.wf(),
            j < self.cols,
        ensures
            r@ == self.column(j as int),
    {
        let mut out: Vec<T> = Vec::new();
        let mut i: usize = 0;
        while i < self.rows
            invariant
                self.wf(),
                j < self.cols,
                i <= self.rows,
                out@ == self.column(j as int).take(i as int),
            decreases self.rows - i,
        {
            assert(self@[i as int] == self.data@[i as int]@);
            out.push(self.data[i][j]);
            i = i + 1;
            assert(out@ =~= self.column(j as int).take(i as int));
        }
        assert(out@ =~= self.column(j as int));
        out
    }

    /// A copy of the cells as nested rows.
    pub fn to_rows(&self) -> (r: Vec<Vec<T>>)
        requires
            self.wf(),
        ensures
            grid_of(r@) == self@,
    {
        let mut out: Vec<Vec<T>> = Vec::new();
        let mut i: usize = 0;
        while i < self.rows
            invariant
                self.wf(),
                i <= self.rows,
                out@.len() == i,
                forall|a: int| 0 <= a < i ==> (#[trigger] out@[a])@ == self@[a],
            decreases self.rows - i,
        {
            assert(self@[i as int] == self.data@[i as int]@);
            let mut row: Vec<T> = Vec::new();
            let mut j: usize = 0;
            while j < self.cols
                invariant
                    self.wf(),
                    i < self.rows,
                    self@[i as int] == self.data@[i as int]@,
                    j <= self.cols,
                    row@ == self@[i as int].take(j as int),
                decreases self.cols - j,
            {
                row.push(self.data[i][j]);
                j = j + 1;
                assert(row@ =~= self@[i as int].take(j as int));
            }
            assert(row@ =~= self@[i as int]);
            out.push(row);
            i = i + 1;
        }
        assert(grid_of(out@) =~= self@);
        out
    }
}

/// Whether `grid` has exactly `rows` rows of `cols` cells each.
pub fn grid_has_shape<T>(grid: &Vec<Vec<T>>, rows: usize, cols: usize) -> (r: bool)
    ensures
        r == has_shape(grid_of(grid@), rows as nat, cols as nat),
{
    if grid.len() != rows {
        return false;
    }
    let mut i: usize = 0;
    while i < rows
        invariant
            grid@.len() == rows,
            i <= rows,
            forall|a: int| 0 <= a < i ==> (#[trigger] grid_of(grid@)[a]).len() == cols,
        decreases rows - i,
    {
        if grid[i].len() != cols {
            assert(grid_of(grid@)[i as int] == grid@[i as int]@);
            return false;
        }
        i = i + 1;
    }
    true
}

/// Transposing a matrix twice gives back its cells: the second transpose of
/// the `cols` by `rows` result is the original `rows` by `cols` grid.
pub proof fn lemma_transpose_twice<T>(a: Matrix<T>)
    requires
        a.wf(),
    ensures
        transposed(transposed(a@, a.rows as nat, a.cols as nat), a.cols as nat, a.rows as nat) == a@,
{
    let t = transposed(transposed(a@, a.rows as nat, a.cols as nat), a.cols as nat, a.rows as nat);
    assert forall|i: int| 0 <= i < a.rows implies #[trigger] t[i] =~= a@[i] by {}
    assert(t =~= a@);
}

/// For machine integers, subtracting `b` from the sum `a + b` is defined
/// and gives back `a`, cell for cell, whenever that sum was defined.
pub proof fn lemma_add_then_subtract(a: Matrix<i64>, b: Matrix<i64>, sum: Matrix<i64>)
    requires
        a.wf(),
        b.wf(),
        a.same_shape(&b),
        a.add_defined(&b),
        sum.wf(),
        sum.same_shape(&a),
        forall|i: int, j: int|
            0 <= i < a.rows && 0 <= j < a.cols ==> #[trigger] sum.cell(i, j) == a.cell(i, j).add_spec(
                b.cell(i, j),
            ),
    ensures
        sum.sub_defined(&b),
        forall|i: int, j: int|
            0 <= i < a.rows && 0 <= j < a.cols ==> (#[trigger] sum.cell(i, j)).sub_spec(b.cell(i, j))
                == a.cell(i, j),
{
    assert forall|i: int, j: int| 0 <= i < a.rows && 0 <= j < a.cols implies (#[trigger] sum.cell(
        i,
        j,
    )).sub_req(b.cell(i, j)) && sum.cell(i, j).sub_spec(b.cell(i, j)) == a.cell(i, j) by {
        assert(a.cell(i, j).add_req(b.cell(i, j)));
    }
}

} // verus!
