use vstd::prelude::*;

use crate::error::MatrixError;

verus! {

/// Sum of the first `n` element-wise products of `a` and `b`, taken left to right.
pub open spec fn dot_upto(a: Seq<i64>, b: Seq<i64>, n: int) -> int
    decreases n,
{
    if n <= 0 {
        0
    } else {
        dot_upto(a, b, n - 1) + a[n - 1] * b[n - 1]
    }
}

/// The dot product of `a` and `b`, as a mathematical integer.
pub open spec fn dot_value(a: Seq<i64>, b: Seq<i64>) -> int {
    dot_upto(a, b, a.len() as int)
}

pub open spec fn in_i64(x: int) -> bool {
    i64::MIN <= x <= i64::MAX
}

/// Step `k` of the left-to-right evaluation: its product and the running sum after it fit in `i64`.
pub open spec fn step_fits(a: Seq<i64>, b: Seq<i64>, k: int) -> bool {
    in_i64(a[k - 1] * b[k - 1]) && in_i64(dot_upto(a, b, k))
}

/// Every product and every running sum of the left-to-right evaluation fits in `i64`.
pub open spec fn dot_fits(a: Seq<i64>, b: Seq<i64>) -> bool {
    forall|k: int| 1 <= k <= a.len() ==> #[trigger] step_fits(a, b, k)
}

/// What a dot product of `a` and `b` comes to.
pub open spec fn dot_result(a: Seq<i64>, b: Seq<i64>) -> Result<i64, MatrixError> {
    if a.len() != b.len() {
        Err(MatrixError::LengthMismatch)
    } else if !dot_fits(a, b) {
        Err(MatrixError::Overflow)
    } else {
        Ok(dot_value(a, b) as i64)
    }
}

/// A dot product that fits in `i64` at every step ends inside `i64`.
pub proof fn lemma_dot_fits_in_i64(a: Seq<i64>, b: Seq<i64>)
    requires
        dot_fits(a, b),
    ensures
        in_i64(dot_value(a, b)),
{
    if a.len() > 0 {
        assert(step_fits(a, b, a.len() as int));
    }
}

/// An ordered sequence of scalars, fixed in length once built.
pub struct Vector {
    data: Vec<i64>,
}

impl View for Vector {
    type V = Seq<i64>;

    closed spec fn view(&self) -> Seq<i64> {
        self.data@
    }
}

impl Vector {
    pub fn new(data: Vec<i64>) -> (r: Vector)
        ensures
            r@ == data@,
    {
        Vector { data }
    }

    pub fn len(&self) -> (r: usize)
        ensures
            r == self@.len(),
    {
        self.data.len()
    }

    /// The element at position `i`.
    pub fn get(&self, i: usize) -> (r: i64)
        requires
            i < self@.len(),
        ensures
            r == self@[i as int],
    {
        self.data[i]
    }

    /// Dot product with `other`, evaluated left to right from zero.
    pub fn dot(&self, other: &Vector) -> (r: Result<i64, MatrixError>)
        ensures
            r == dot_result(self@, other@),
    {
        if self.data.len() != other.data.len() {
            return Err(MatrixError::LengthMismatch);
        }
        let n = self.data.len();
        let mut sum: i64 = 0;
        let mut k: usize = 0;
        while k < n
            invariant
                n == self@.len(),
                n == other@.len(),
                k <= n,
                sum == dot_upto(self@, other@, k as int),
                forall|m: int| 1 <= m <= k ==> #[trigger] step_fits(self@, other@, m),
            decreases n - k,
        {
            let x = self.data[k];
            let y = other.data[k];
            let ghost next = k as int + 1;
            assert(dot_upto(self@, other@, next) == sum + x * y);
            let p = match x.checked_mul(y) {
                Some(p) => p,
                None => {
                    assert(!dot_fits(self@, other@)) by {
                        assert(!step_fits(self@, other@, next));
                    }
                    return Err(MatrixError::Overflow);
                },
            };
            match sum.checked_add(p) {
                Some(s) => {
                    sum = s;
                },
                None => {
                    assert(!dot_fits(self@, other@)) by {
                        assert(!step_fits(self@, other@, next));
                    }
                    return Err(MatrixError::Overflow);
                },
            }
            assert(step_fits(self@, other@, next));
            k = k + 1;
        }
        assert(dot_fits(self@, other@));
        Ok(sum)
    }
}

/// Dot product of two vectors of equal length.
pub fn dot_product(a: Vector, b: Vector) -> (r: Result<i64, MatrixError>)
    ensures
        r == dot_result(a@, b@),
{
    a.dot(&b)
}

} // verus!
