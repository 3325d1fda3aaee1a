use vstd::prelude::*;

use crate::vector::{dot_fits, dot_value, Vector};

verus! {

/// A dense row-major grid of scalars.
pub struct Matrix {
    data: Vec<i64>,
    row: usize,
    col: usize,
}

/// The ten decimal digits, in order.
pub open spec fn digit_char(d: int) -> char {
    seq!['0', '1', '2', '3', '4', '5', '6', '7', '8', '9'][d]
}

/// Base-ten digits of `n`, most significant first, without leading zeros.
pub open spec fn digits_of(n: nat) -> Seq<char>
    decreases n,
{
    if n < 10 {
        seq![digit_char(n as int)]
    } else {
        digits_of(n / 10) + seq![digit_char((n % 10) as int)]
    }
}

/// `v` written in base ten, with a leading `-` when negative.
pub open spec fn decimal_text(v: int) -> Seq<char> {
    if v < 0 {
        seq!['-'] + digits_of((-v) as nat)
    } else {
        digits_of(v as nat)
    }
}

/// Relies on the standard library's `Debug` formatting of `i64`: plain base ten,
/// with a leading `-` for negative values.
#[verifier::external_body]
fn i64_text(v: i64) -> (r: String)
    ensures
        r@ == decimal_text(v as int),
{
    format!("{:?}", v)
}

/// Relies on the standard library's `Display` formatting of `usize`: plain base ten.
#[verifier::external_body]
fn usize_text(v: usize) -> (r: String)
    ensures
        r@ == decimal_text(v as int),
{
    format!("{}", v)
}

/// The first `n` elements of row `i` of `m`, in base ten, separated by single spaces.
pub open spec fn row_text(m: Matrix, i: int, n: int) -> Seq<char>
    decreases n,
{
    if n <= 0 {
        Seq::empty()
    } else if n == 1 {
        decimal_text(m.entry(i, 0) as int)
    } else {
        row_text(m, i, n - 1) + seq![' '] + decimal_text(m.entry(i, n - 1) as int)
    }
}

/// The first `n` rows of `m`, each as `row_text`, separated by `, `.
pub open spec fn rows_text(m: Matrix, n: int) -> Seq<char>
    decreases n,
{
    if n <= 0 {
        Seq::empty()
    } else if n == 1 {
        row_text(m, 0, m.cols() as int)
    } else {
        rows_text(m, n - 1) + seq![',', ' '] + row_text(m, n - 1, m.cols() as int)
    }
}

/// The display form of `m`: all rows inside braces, as in `{22 28, 49 64}`.
pub open spec fn display_text(m: Matrix) -> Seq<char> {
    seq!['{'] + rows_text(m, m.rows() as int) + seq!['}']
}

/// The debug form of `m`, as in `Matrix(row=2, col=2, {22 28, 49 64})`.
pub open spec fn debug_text(m: Matrix) -> Seq<char> {
    "Matrix(row="@ + decimal_text(m.rows() as int) + ", col="@ + decimal_text(m.cols() as int)
        + ", "@ + display_text(m) + ")"@
}

impl PartialEq for Matrix {
    /// Structural equality: same dimensions and the same elements.
    fn eq(&self, other: &Matrix) -> (r: bool) {
        if self.row != other.row || self.col != other.col || self.data.len() != other.data.len() {
            return false;
        }
        let n = self.data.len();
        let mut k: usize = 0;
        while k < n
            invariant
                n == self.cells().len(),
                n == other.cells().len(),
                k <= n,
                self.cells().take(k as int) == other.cells().take(k as int),
            decreases n - k,
        {
            if self.data[k] != other.data[k] {
                assert(self.cells()[k as int] != other.cells()[k as int]);
                return false;
            }
            assert(self.cells().take(k + 1) =~= self.cells().take(k as int).push(self.cells()[k as int]));
            assert(other.cells().take(k + 1) =~= other.cells().take(k as int).push(other.cells()[k as int]));
            k = k + 1;
        }
        assert(self.cells() =~= self.cells().take(n as int));
        assert(other.cells() =~= other.cells().take(n as int));
        true
    }
}

impl vstd::std_specs::cmp::PartialEqSpecImpl for Matrix {
    open spec fn obeys_eq_spec() -> bool {
        true
    }

    open spec fn eq_spec(&self, other: &Matrix) -> bool {
        self.rows() == other.rows() && self.cols() == other.cols() && self.cells() == other.cells()
    }
}

impl Matrix {
    pub closed spec fn rows(&self) -> nat {
        self.row as nat
    }

    pub closed spec fn cols(&self) -> nat {
        self.col as nat
    }

    /// The elements in row-major order.
    pub closed spec fn cells(&self) -> Seq<i64> {
        self.data@
    }

    pub open spec fn wf(&self) -> bool {
        self.cells().len() == self.rows() * self.cols()
    }

    /// The element in row `i`, column `j`.
    pub open spec fn entry(&self, i: int, j: int) -> i64 {
        self.cells()[i * self.cols() + j]
    }

    pub open spec fn row_seq(&self, i: int) -> Seq<i64> {
        Seq::new(self.cols(), |k: int| self.entry(i, k))
    }

    pub open spec fn col_seq(&self, j: int) -> Seq<i64> {
        Seq::new(self.rows(), |k: int| self.entry(k, j))
    }

    /// Builds a `row` by `col` matrix from its elements in row-major order.
    pub fn new(data: Vec<i64>, row: usize, col: usize) -> (r: Matrix)
        requires
            data@.len() == row * col,
        ensures
            r.wf(),
            r.rows() == row,
            r.cols() == col,
            r.cells() == data@,
    {
        Matrix { data, row, col }
    }

    pub fn row_count(&self) -> (r: usize)
        ensures
            r == self.rows(),
    {
        self.row
    }

    pub fn col_count(&self) -> (r: usize)
        ensures
            r == self.cols(),
    {
        self.col
    }

    /// The element in row `i`, column `j`.
    pub fn get(&self, i: usize, j: usize) -> (r: i64)
        requires
            self.wf(),
            i < self.rows(),
            j < self.cols(),
        ensures
            r == self.entry(i as int, j as int),
    {
        let total = self.data.len();
        proof {
            lemma_flat_index(i as int, j as int, self.rows() as int, self.cols() as int);
        }
        self.data[i * self.col + j]
    }

    /// A copy of row `i`.
    pub fn row(&self, i: usize) -> (r: Vector)
        requires
            self.wf(),
            i < self.rows(),
        ensures
            r@ == self.row_seq(i as int),
    {
        let total = self.data.len();
        let mut out: Vec<i64> = Vec::new();
        let mut k: usize = 0;
        while k < self.col
            invariant
                total == self.cells().len(),
                self.wf(),
                i < self.rows(),
                k <= self.cols(),
                out@ == self.row_seq(i as int).take(k as int),
            decreases self.col - k,
        {
            proof {
                lemma_flat_index(i as int, k as int, self.rows() as int, self.cols() as int);
            }
            out.push(self.data[i * self.col + k]);
            k = k + 1;
            assert(out@ =~= self.row_seq(i as int).take(k as int));
        }
        assert(out@ =~= self.row_seq(i as int));
        Vector::new(out)
    }

    /// A copy of column `j`: every `cols`-th element, starting at offset `j`.
    pub fn column(&self, j: usize) -> (r: Vector)
        requires
            self.wf(),
            j < self.cols(),
        ensures
            r@ == self.col_seq(j as int),
    {
        let total = self.data.len();
        let mut out: Vec<i64> = Vec::new();
        let mut k: usize = 0;
        while k < self.row
            invariant
                total == self.cells().len(),
                self.wf(),
                j < self.cols(),
                k <= self.rows(),
                out@ == self.col_seq(j as int).take(k as int),
            decreases self.row - k,
        {
            proof {
                lemma_flat_index(k as int, j as int, self.rows() as int, self.cols() as int);
            }
            out.push(self.data[k * self.col + j]);
            k = k + 1;
            assert(out@ =~= self.col_seq(j as int).take(k as int));
        }
        assert(out@ =~= self.col_seq(j as int));
        Vector::new(out)
    }

    /// The display form: `{` + rows + `}`, elements of a row separated by single
    /// spaces, rows separated by `, `.
    pub fn to_display_string(&self) -> (r: String)
        requires
            self.wf(),
        ensures
            r@ == display_text(*self),
    {
        let mut s = String::new();
        s.append("{");
        proof {
            reveal_strlit("{");
        }
        let mut i: usize = 0;
        while i < self.row
            invariant
                self.wf(),
                i <= self.rows(),
                s@ == seq!['{'] + rows_text(*self, i as int),
            decreases self.row - i,
        {
            if i > 0 {
                s.append(", ");
            }
            let ghost before = s@;
            let mut j: usize = 0;
            while j < self.col
                invariant
                    self.wf(),
                    i < self.rows(),
                    j <= self.cols(),
                    s@ == before + row_text(*self, i as int, j as int),
                decreases self.col - j,
            {
                let ghost start = s@;
                if j > 0 {
                    s.append(" ");
                }
                let t = i64_text(self.get(i, j));
                s.append(t.as_str());
                proof {
                    reveal_strlit(" ");
                    let prev = row_text(*self, i as int, j as int);
                    if j > 0 {
                        assert(s@ =~= start + seq![' '] + t@);
                        assert(row_text(*self, i as int, j + 1) == prev + seq![' '] + t@);
                        assert(s@ =~= before + (prev + seq![' '] + t@));
                    } else {
                        assert(s@ == start + t@);
                        assert(row_text(*self, i as int, j + 1) == t@);
                        assert(prev =~= Seq::<char>::empty());
                        assert(s@ =~= before + t@);
                    }
                }
                j = j + 1;
            }
            proof {
                reveal_strlit(", ");
                let row = row_text(*self, i as int, self.cols() as int);
                if i > 0 {
                    assert(s@ =~= seq!['{'] + rows_text(*self, i as int) + seq![',', ' '] + row);
                    assert(rows_text(*self, i + 1) == rows_text(*self, i as int) + seq![',', ' '] + row);
                    assert(s@ =~= seq!['{'] + (rows_text(*self, i as int) + seq![',', ' '] + row));
                } else {
                    assert(rows_text(*self, i + 1) == row);
                    assert(s@ =~= seq!['{'] + row);
                }
            }
            i = i + 1;
        }
        s.append("}");
        proof {
            reveal_strlit("}");
        }
        assert(s@ =~= display_text(*self));
        s
    }

    /// The debug form: `Matrix(row=<rows>, col=<cols>, <display form>)`.
    pub fn to_debug_string(&self) -> (r: String)
        requires
            self.wf(),
        ensures
            r@ == debug_text(*self),
    {
        let mut s = String::new();
        s.append("Matrix(row=");
        let t = usize_text(self.row);
        s.append(t.as_str());
        s.append(", col=");
        let t = usize_text(self.col);
        s.append(t.as_str());
        s.append(", ");
        let t = self.to_display_string();
        s.append(t.as_str());
        s.append(")");
        assert(s@ =~= debug_text(*self));
        s
    }
}

/// Cell `(i, j)` of a `rows` by `cols` grid sits at `i * cols + j`, inside the grid,
/// and that position gives back `i` and `j` by division and remainder.
pub proof fn lemma_flat_index(i: int, j: int, rows: int, cols: int)
    requires
        0 <= i < rows,
        0 <= j < cols,
    ensures
        0 <= i * cols,
        i * cols + j < rows * cols,
        (i * cols + j) / cols == i,
        (i * cols + j) % cols == j,
{
    assert(0 <= i * cols) by (nonlinear_arith)
        requires
            0 <= i,
            0 <= cols,
    ;
    assert(i * cols + j < rows * cols) by (nonlinear_arith)
        requires
            0 <= i < rows,
            0 <= j < cols,
    ;
    vstd::arithmetic::div_mod::lemma_fundamental_div_mod_converse(i * cols + j, cols, i, j);
}

} // verus!
