//! A dense matrix whose transpose is a view over unmoved storage.
use vstd::prelude::*;

verus! {

/// A grid of values with a logical shape of rows and columns.
///
/// The grid is kept in `values` as it was built, `stored_rows × stored_cols`;
/// `transposed` says whether logical entry `(r, c)` lives at `values[r][c]` or
/// at `values[c][r]`, so that transposing never moves data.
pub struct Matrix<T> {
    stored_rows: usize,
    stored_cols: usize,
    values: Vec<Vec<T>>,
    transposed: bool,
}

impl<T> Matrix<T> {
    /// The storage is a rectangle of the stored shape.
    #[verifier::type_invariant]
    spec fn well_formed(self) -> bool {
        &&& self.values@.len() == self.stored_rows
        &&& forall|i: int|
            0 <= i < self.stored_rows ==> #[trigger] self.values@[i]@.len() == self.stored_cols
    }

    /// Number of logical rows.
    pub closed spec fn num_rows(&self) -> nat {
        if self.transposed {
            self.stored_cols as nat
        } else {
            self.stored_rows as nat
        }
    }

    /// Number of logical columns.
    pub closed spec fn num_cols(&self) -> nat {
        if self.transposed {
            self.stored_rows as nat
        } else {
            self.stored_cols as nat
        }
    }

    /// The logical entry at row `r`, column `c`.
    pub closed spec fn entry(&self, r: int, c: int) -> T {
        if self.transposed {
            self.values@[c]@[r]
        } else {
            self.values@[r]@[c]
        }
    }

    /// The logical grid, row by row.
    pub open spec fn view(&self) -> Seq<Seq<T>> {
        Seq::new(self.num_rows(), |r: int| Seq::new(self.num_cols(), |c: int| self.entry(r, c)))
    }

    /// Column `c` of the logical grid, top to bottom.
    pub open spec fn column(&self, c: int) -> Seq<T> {
        Seq::new(self.num_rows(), |r: int| self@[r][c])
    }

    /// `self` is the transpose of `other`: shapes swapped, entry `(r, c)` of
    /// one is entry `(c, r)` of the other.
    pub open spec fn is_transpose_of(&self, other: &Self) -> bool {
        &&& self.num_rows() == other.num_cols()
        &&& self.num_cols() == other.num_rows()
        &&& forall|r: int, c: int|
            0 <= r < self.num_rows() && 0 <= c < self.num_cols() ==> #[trigger] self@[r][c]
                == other@[c][r]
    }
}

/// `sums` is a run of multiply-accumulate steps along `row` and `col`: it
/// starts at `zero`, and each later sum is a possible result of `mul_add` on the
/// sum before it and the next pair of entries.
pub open spec fn is_accumulation<T, F: Fn(T, T, T) -> T>(
    mul_add: F,
    zero: T,
    row: Seq<T>,
    col: Seq<T>,
    sums: Seq<T>,
) -> bool {
    &&& sums.len() == row.len() + 1
    &&& sums[0] == zero
    &&& forall|k: int|
        0 <= k < row.len() ==> call_ensures(mul_add, (sums[k], row[k], col[k]), #[trigger] sums[k + 1])
}

/// `v` is a possible result of accumulating, from `zero`, `mul_add` over the
/// pairs of entries of `row` and `col`, in order.
pub open spec fn is_dot_of<T, F: Fn(T, T, T) -> T>(
    mul_add: F,
    zero: T,
    row: Seq<T>,
    col: Seq<T>,
    v: T,
) -> bool {
    exists|sums: Seq<T>| is_accumulation(mul_add, zero, row, col, sums) && sums.last() == v
}

/// A grid whose rows all have length `cols`.
pub open spec fn is_rectangular<T>(g: Seq<Vec<T>>, cols: nat) -> bool {
    forall|i: int| 0 <= i < g.len() ==> #[trigger] g[i]@.len() == cols
}

/// A vector of `n` copies of `fill`.
fn filled_row<T: Copy>(n: usize, fill: T) -> (r: Vec<T>)
    ensures
        r@ == Seq::new(n as nat, |i: int| fill),
{
    let mut row: Vec<T> = Vec::new();
    let mut i: usize = 0;
    while i < n
        invariant
            i <= n,
            row@ == Seq::new(i as nat, |k: int| fill),
        decreases n - i,
    {
        row.push(fill);
        i = i + 1;
        assert(row@ =~= Seq::new(i as nat, |k: int| fill));
    }
    row
}

impl<T: Copy> Matrix<T> {
    /// A `rows × cols` matrix with every entry `zero`.
    pub fn new(rows: usize, cols: usize, zero: T) -> (m: Self)
        ensures
            m.num_rows() == rows,
            m.num_cols() == cols,
            forall|r: int, c: int| 0 <= r < rows && 0 <= c < cols ==> #[trigger] m@[r][c] == zero,
    {
        let mut values: Vec<Vec<T>> = Vec::new();
        let mut i: usize = 0;
        while i < rows
            invariant
                i <= rows,
                values@.len() == i,
                forall|k: int| 0 <= k < i ==> #[trigger] values@[k]@ == Seq::new(cols as nat, |j: int| zero),
            decreases rows - i,
        {
            values.push(filled_row(cols, zero));
            i = i + 1;
        }
        Matrix { stored_rows: rows, stored_cols: cols, values, transposed: false }
    }

    /// The matrix whose rows are `values`. Every row must be as long as the first.
    pub fn from_values(values: Vec<Vec<T>>) -> (m: Self)
        requires
            values@.len() > 0,
            is_rectangular(values@, values@[0]@.len()),
        ensures
            m.num_rows() == values@.len(),
            m.num_cols() == values@[0]@.len(),
            forall|r: int, c: int|
                0 <= r < m.num_rows() && 0 <= c < m.num_cols() ==> #[trigger] m@[r][c]
                    == values@[r]@[c],
    {
        let rows = values.len();
        let cols = values[0].len();
        Matrix { stored_rows: rows, stored_cols: cols, values, transposed: false }
    }

    /// The matrix with a single column holding `values` from top to bottom.
    pub fn from_column(values: Vec<T>) -> (m: Self)
        ensures
            m.num_rows() == values@.len(),
            m.num_cols() == 1,
            forall|r: int| 0 <= r < m.num_rows() ==> #[trigger] m@[r][0] == values@[r],
    {
        let rows = values.len();
        let mut grid: Vec<Vec<T>> = Vec::new();
        let mut i: usize = 0;
        while i < rows
            invariant
                i <= rows,
                rows == values@.len(),
                grid@.len() == i,
                forall|k: int| 0 <= k < i ==> #[trigger] grid@[k]@ == seq![values@[k]],
            decreases rows - i,
        {
            let mut row: Vec<T> = Vec::new();
            row.push(values[i]);
            grid.push(row);
            i = i + 1;
        }
        Matrix { stored_rows: rows, stored_cols: 1, values: grid, transposed: false }
    }

    /// The `size × size` matrix with `one` on the main diagonal and `zero` elsewhere.
    pub fn identity(size: usize, zero: T, one: T) -> (m: Self)
        ensures
            m.num_rows() == size,
            m.num_cols() == size,
            forall|r: int, c: int|
                0 <= r < size && 0 <= c < size ==> #[trigger] m@[r][c] == if r == c {
                    one
                } else {
                    zero
                },
    {
        let mut values: Vec<Vec<T>> = Vec::new();
        let mut i: usize = 0;
        while i < size
            invariant
                i <= size,
                values@.len() == i,
                forall|k: int| 0 <= k < i ==> #[trigger] values@[k]@.len() == size,
                forall|k: int, c: int|
                    0 <= k < i && 0 <= c < size ==> #[trigger] values@[k]@[c] == if k == c {
                        one
                    } else {
                        zero
                    },
            decreases size - i,
        {
            let mut row: Vec<T> = Vec::new();
            let mut j: usize = 0;
            while j < size
                invariant
                    j <= size,
                    i < size,
                    row@.len() == j,
                    forall|c: int| 0 <= c < j ==> #[trigger] row@[c] == if i == c {
                        one
                    } else {
                        zero
                    },
                decreases size - j,
            {
                if i == j {
                    row.push(one);
                } else {
                    row.push(zero);
                }
                j = j + 1;
            }
            values.push(row);
            i = i + 1;
        }
        Matrix { stored_rows: size, stored_cols: size, values, transposed: false }
    }

    /// The entry at logical row `row`, column `col`.
    pub fn get(&self, row: usize, col: usize) -> (v: T)
        requires
            row < self.num_rows(),
            col < self.num_cols(),
        ensures
            v == self@[row as int][col as int],
    {
        proof { use_type_invariant(self); }
        if !self.transposed {
            self.values[row][col]
        } else {
            self.values[col][row]
        }
    }

    /// The logical shape, as `(rows, cols)`.
    pub fn shape(&self) -> (s: (usize, usize))
        ensures
            s.0 == self.num_rows(),
            s.1 == self.num_cols(),
    {
        if self.transposed {
            (self.stored_cols, self.stored_rows)
        } else {
            (self.stored_rows, self.stored_cols)
        }
    }

    /// Entry `(row, col)` of the product of `self` and `other`: the
    /// accumulation, from `zero`, of `mul_add` over `self`'s row and `other`'s column.
    fn product_entry<F: Fn(T, T, T) -> T>(
        &self,
        other: &Self,
        zero: T,
        mul_add: &F,
        row: usize,
        col: usize,
    ) -> (v: T)
        requires
            self.num_cols() == other.num_rows(),
            row < self.num_rows(),
            col < other.num_cols(),
            forall|acc: T, a: T, b: T| call_requires(*mul_add, (acc, a, b)),
        ensures
            is_dot_of(*mul_add, zero, self@[row as int], other.column(col as int), v),
    {
        let (_, inner) = self.shape();
        let mut sum = zero;
        let ghost mut sums: Seq<T> = seq![zero];
        let mut a: usize = 0;
        while a < inner
            invariant
                inner == self.num_cols(),
                self.num_cols() == other.num_rows(),
                row < self.num_rows(),
                col < other.num_cols(),
                forall|acc: T, x: T, y: T| call_requires(*mul_add, (acc, x, y)),
                a <= inner,
                sums.len() == a + 1,
                sums[0] == zero,
                sums.last() == sum,
                forall|k: int|
                    0 <= k < a ==> call_ensures(
                        *mul_add,
                        (sums[k], self@[row as int][k], other.column(col as int)[k]),
                        #[trigger] sums[k + 1],
                    ),
            decreases inner - a,
        {
            let x = self.get(row, a);
            let y = other.get(a, col);
            let next = mul_add(sum, x, y);
            proof {
                let prev = sums;
                sums = sums.push(next);
                assert(other.column(col as int)[a as int] == y);
                assert forall|k: int| 0 <= k < a + 1 implies call_ensures(
                    *mul_add,
                    (sums[k], self@[row as int][k], other.column(col as int)[k]),
                    #[trigger] sums[k + 1],
                ) by {
                    if k < a {
                        assert(sums[k] == prev[k] && sums[k + 1] == prev[k + 1]);
                    }
                }
            }
            sum = next;
            a = a + 1;
        }
        assert(is_accumulation(*mul_add, zero, self@[row as int], other.column(col as int), sums));
        sum
    }

    /// The product of `self`, `m × k`, and `other`, `k × n`: the `m × n`
    /// matrix whose entry `(i, j)` accumulates, from `zero`, `mul_add` over row
    /// `i` of `self` and column `j` of `other`, in order.
    pub fn dot<F: Fn(T, T, T) -> T>(&self, other: &Self, zero: T, mul_add: F) -> (p: Self)
        requires
            self.num_cols() == other.num_rows(),
            forall|acc: T, a: T, b: T| call_requires(mul_add, (acc, a, b)),
        ensures
            p.num_rows() == self.num_rows(),
            p.num_cols() == other.num_cols(),
            forall|i: int, j: int|
                0 <= i < p.num_rows() && 0 <= j < p.num_cols() ==> is_dot_of(
                    mul_add,
                    zero,
                    self@[i],
                    other.column(j),
                    #[trigger] p@[i][j],
                ),
    {
        let (rows, _) = self.shape();
        let (_, cols) = other.shape();
        let mut values: Vec<Vec<T>> = Vec::new();
        let mut i: usize = 0;
        while i < rows
            invariant
                rows == self.num_rows(),
                cols == other.num_cols(),
                self.num_cols() == other.num_rows(),
                forall|acc: T, a: T, b: T| call_requires(mul_add, (acc, a, b)),
                i <= rows,
                values@.len() == i,
                forall|k: int| 0 <= k < i ==> #[trigger] values@[k]@.len() == cols,
                forall|k: int, j: int|
                    0 <= k < i && 0 <= j < cols ==> is_dot_of(
                        mul_add,
                        zero,
                        self@[k],
                        other.column(j),
                        #[trigger] values@[k]@[j],
                    ),
            decreases rows - i,
        {
            let mut row: Vec<T> = Vec::new();
            let mut j: usize = 0;
            while j < cols
                invariant
                    rows == self.num_rows(),
                    cols == other.num_cols(),
                    self.num_cols() == other.num_rows(),
                    forall|acc: T, a: T, b: T| call_requires(mul_add, (acc, a, b)),
                    i < rows,
                    j <= cols,
                    row@.len() == j,
                    forall|c: int|
                        0 <= c < j ==> is_dot_of(
                            mul_add,
                            zero,
                            self@[i as int],
                            other.column(c),
                            #[trigger] row@[c],
                        ),
                decreases cols - j,
            {
                let v = self.product_entry(other, zero, &mul_add, i, j);
                let ghost prev = row@;
                row.push(v);
                assert forall|c: int| 0 <= c < j + 1 implies is_dot_of(
                    mul_add,
                    zero,
                    self@[i as int],
                    other.column(c),
                    #[trigger] row@[c],
                ) by {
                    if c < j {
                        assert(row@[c] == prev[c]);
                    }
                }
                j = j + 1;
            }
            let ghost prev = values@;
            values.push(row);
            assert forall|k: int, c: int| 0 <= k < i + 1 && 0 <= c < cols implies is_dot_of(
                mul_add,
                zero,
                self@[k],
                other.column(c),
                #[trigger] values@[k]@[c],
            ) by {
                if k < i {
                    assert(values@[k] == prev[k]);
                }
            }
            i = i + 1;
        }
        let p = Matrix { stored_rows: rows, stored_cols: cols, values, transposed: false };
        assert forall|k: int, c: int| 0 <= k < p.num_rows() && 0 <= c < p.num_cols() implies is_dot_of(
            mul_add,
            zero,
            self@[k],
            other.column(c),
            #[trigger] p@[k][c],
        ) by {
            assert(p@[k][c] == values@[k]@[c]);
        }
        p
    }

    /// Whether `self` and `other` have the same shape and `same` holds of
    /// their entries at every position. Positions are visited column by column
    /// and the first failure ends the comparison.
    pub fn equals<F: Fn(T, T) -> bool>(&self, other: &Self, same: F) -> (r: bool)
        requires
            forall|a: T, b: T| call_requires(same, (a, b)),
        ensures
            r ==> self.num_rows() == other.num_rows() && self.num_cols() == other.num_cols()
                && forall|i: int, j: int|
                0 <= i < self.num_rows() && 0 <= j < self.num_cols() ==> call_ensures(
                    same,
                    (self@[i][j], other@[i][j]),
                    true,
                ),
            !r ==> self.num_rows() != other.num_rows() || self.num_cols() != other.num_cols()
                || exists|i: int, j: int|
                0 <= i < self.num_rows() && 0 <= j < self.num_cols() && call_ensures(
                    same,
                    (self@[i][j], other@[i][j]),
                    false,
                ),
    {
        let (rows, cols) = self.shape();
        let (other_rows, other_cols) = other.shape();
        if other_rows != rows || other_cols != cols {
            return false;
        }
        let mut c: usize = 0;
        while c < cols
            invariant
                rows == self.num_rows() && rows == other.num_rows(),
                cols == self.num_cols() && cols == other.num_cols(),
                forall|a: T, b: T| call_requires(same, (a, b)),
                c <= cols,
                forall|i: int, j: int|
                    0 <= i < rows && 0 <= j < c ==> call_ensures(
                        same,
                        (self@[i][j], other@[i][j]),
                        true,
                    ),
            decreases cols - c,
        {
            let mut r: usize = 0;
            while r < rows
                invariant
                    rows == self.num_rows() && rows == other.num_rows(),
                    cols == self.num_cols() && cols == other.num_cols(),
                    forall|a: T, b: T| call_requires(same, (a, b)),
                    c < cols,
                    r <= rows,
                    forall|i: int, j: int|
                        0 <= i < rows && 0 <= j < c ==> call_ensures(
                            same,
                            (self@[i][j], other@[i][j]),
                            true,
                        ),
                    forall|i: int|
                        0 <= i < r ==> call_ensures(
                            same,
                            (self@[i][c as int], other@[i][c as int]),
                            true,
                        ),
                decreases rows - r,
            {
                if !same(self.get(r, c), other.get(r, c)) {
                    return false;
                }
                r = r + 1;
            }
            c = c + 1;
        }
        true
    }

    /// Transposes the matrix in place, in constant time and without moving entries.
    pub fn transpose(&mut self)
        ensures
            final(self).is_transpose_of(old(self)),
    {
        proof { use_type_invariant(&*self); }
        self.transposed = !self.transposed;
    }
}

/// Transposing twice gives back the matrix one started from: the same shape
/// and the same entry at every position.
pub proof fn lemma_transpose_twice<T>(m: Matrix<T>, once: Matrix<T>, twice: Matrix<T>)
    requires
        once.is_transpose_of(&m),
        twice.is_transpose_of(&once),
    ensures
        twice.num_rows() == m.num_rows(),
        twice.num_cols() == m.num_cols(),
        twice@ == m@,
{
    assert forall|r: int| 0 <= r < m.num_rows() implies #[trigger] twice@[r] == m@[r] by {
        assert forall|c: int| 0 <= c < m.num_cols() implies #[trigger] twice@[r][c] == m@[r][c] by {
            assert(twice@[r][c] == once@[c][r]);
        }
        assert(twice@[r] =~= m@[r]);
    }
    assert(twice@ =~= m@);
}

proof fn lemma_identity_column_sums<T, F: Fn(T, T, T) -> T>(
    mul_add: F,
    zero: T,
    one: T,
    row: Seq<T>,
    col: Seq<T>,
    sums: Seq<T>,
    j: int,
    k: int,
)
    requires
        is_accumulation(mul_add, zero, row, col, sums),
        col.len() == row.len(),
        0 <= j < row.len(),
        0 <= k <= row.len(),
        forall|r: int| 0 <= r < col.len() ==> #[trigger] col[r] == if r == j { one } else { zero },
        forall|acc: T, a: T, v: T| call_ensures(mul_add, (acc, a, zero), v) ==> v == acc,
        forall|a: T, v: T| call_ensures(mul_add, (zero, a, one), v) ==> v == a,
    ensures
        k <= j ==> sums[k] == zero,
        k > j ==> sums[k] == row[j],
    decreases k,
{
    if k > 0 {
        lemma_identity_column_sums(mul_add, zero, one, row, col, sums, j, k - 1);
        let t = k - 1;
        assert(call_ensures(mul_add, (sums[t], row[t], col[t]), sums[t + 1]));
    }
}

/// Multiplying a matrix on the right by the identity of its width gives the
/// matrix back, for a multiply-accumulate step under which adding a product
/// with `zero` leaves the sum as it was, and a product with `one` added to
/// `zero` is the entry itself.
pub proof fn lemma_dot_identity<T, F: Fn(T, T, T) -> T>(
    m: Matrix<T>,
    id: Matrix<T>,
    p: Matrix<T>,
    zero: T,
    one: T,
    mul_add: F,
)
    requires
        id.num_rows() == m.num_cols(),
        id.num_cols() == m.num_cols(),
        forall|r: int, c: int|
            0 <= r < id.num_rows() && 0 <= c < id.num_cols() ==> #[trigger] id@[r][c] == if r
                == c {
                one
            } else {
                zero
            },
        p.num_rows() == m.num_rows(),
        p.num_cols() == id.num_cols(),
        forall|i: int, j: int|
            0 <= i < p.num_rows() && 0 <= j < p.num_cols() ==> is_dot_of(
                mul_add,
                zero,
                m@[i],
                id.column(j),
                #[trigger] p@[i][j],
            ),
        forall|acc: T, a: T, v: T| call_ensures(mul_add, (acc, a, zero), v) ==> v == acc,
        forall|a: T, v: T| call_ensures(mul_add, (zero, a, one), v) ==> v == a,
    ensures
        p.num_rows() == m.num_rows(),
        p.num_cols() == m.num_cols(),
        p@ == m@,
{
    assert forall|i: int| 0 <= i < m.num_rows() implies #[trigger] p@[i] == m@[i] by {
        assert forall|j: int| 0 <= j < m.num_cols() implies #[trigger] p@[i][j] == m@[i][j] by {
            let col = id.column(j);
            assert(is_dot_of(mul_add, zero, m@[i], col, p@[i][j]));
            let sums = choose|sums: Seq<T>|
                is_accumulation(mul_add, zero, m@[i], col, sums) && sums.last() == p@[i][j];
            assert forall|r: int| 0 <= r < col.len() implies #[trigger] col[r] == if r == j {
                one
            } else {
                zero
            } by {
                assert(col[r] == id@[r][j]);
            }
            lemma_identity_column_sums(mul_add, zero, one, m@[i], col, sums, j, m.num_cols() as int);
        }
        assert(p@[i] =~= m@[i]);
    }
    assert(p@ =~= m@);
}

} // verus!
