use vstd::prelude::*;

use crate::error::MatrixError;
use crate::matrix::{lemma_flat_index, Matrix};
use crate::vector::{dot_fits, dot_result, dot_value, lemma_dot_fits_in_i64, Vector};

verus! {

/// Number of workers that `multiply` routes its tasks to.
pub const NUM_WORKERS: usize = 4;

/// One multiply sub-task: the output cell `idx`, with the row and the column
/// whose dot product fills it.
pub struct MsgInput {
    pub idx: usize,
    pub row: Vector,
    pub col: Vector,
}

/// A worker's reply: the computed value, tagged with the cell it belongs to.
#[derive(Clone, Copy, Debug, PartialEq, Eq, Structural)]
pub struct MsgOutput {
    pub idx: usize,
    pub value: i64,
}

impl MsgInput {
    pub fn new(idx: usize, row: Vector, col: Vector) -> (r: MsgInput)
        ensures
            r.idx == idx,
            r.row@ == row@,
            r.col@ == col@,
    {
        MsgInput { idx, row, col }
    }
}

/// What a worker answers to `task`.
pub open spec fn reply_to(task: MsgInput) -> Result<MsgOutput, MatrixError> {
    match dot_result(task.row@, task.col@) {
        Ok(v) => Ok(MsgOutput { idx: task.idx, value: v }),
        Err(e) => Err(e),
    }
}

/// Every cell of `a` times `b` can be computed without leaving `i64`.
pub open spec fn product_fits(a: Matrix, b: Matrix) -> bool {
    forall|i: int, j: int|
        0 <= i < a.rows() && 0 <= j < b.cols() ==> #[trigger] dot_fits(a.row_seq(i), b.col_seq(j))
}

/// Cell `(i, j)` of the mathematical product of `a` and `b`.
pub open spec fn product_entry(a: Matrix, b: Matrix, i: int, j: int) -> int {
    dot_value(a.row_seq(i), b.col_seq(j))
}

/// `m` is the product of `a` and `b`: `a.rows()` by `b.cols()`, and each cell is
/// the dot product of a row of `a` with a column of `b`.
pub open spec fn is_product(m: Matrix, a: Matrix, b: Matrix) -> bool {
    &&& m.wf()
    &&& m.rows() == a.rows()
    &&& m.cols() == b.cols()
    &&& forall|i: int, j: int|
        0 <= i < m.rows() && 0 <= j < m.cols() ==> #[trigger] m.entry(i, j) == product_entry(
            a,
            b,
            i,
            j,
        )
}

/// `task` is the task for output cell `t` of `a` times `b`.
pub open spec fn is_task_for(task: MsgInput, a: Matrix, b: Matrix, t: int) -> bool {
    &&& task.idx == t
    &&& task.row@ == a.row_seq(t / b.cols() as int)
    &&& task.col@ == b.col_seq(t % b.cols() as int)
}

/// `tasks` holds one task per output cell of `a` times `b`, in row-major order.
pub open spec fn is_plan(tasks: Seq<MsgInput>, a: Matrix, b: Matrix) -> bool {
    &&& tasks.len() == a.rows() * b.cols()
    &&& forall|t: int| 0 <= t < tasks.len() ==> #[trigger] is_task_for(tasks[t], a, b, t)
}

/// Some reply in `replies` is tagged with cell `k`.
pub open spec fn covered(replies: Seq<MsgOutput>, k: int) -> bool {
    exists|i: int| 0 <= i < replies.len() && replies[i].idx == k
}

/// The reply tags form a bijection onto `[0, n)`: every tag is in range, no two
/// replies share a tag, and every cell has a reply.
pub open spec fn valid_replies(replies: Seq<MsgOutput>, n: int) -> bool {
    &&& forall|i: int| 0 <= i < replies.len() ==> #[trigger] replies[i].idx < n
    &&& forall|i: int, j: int|
        #![trigger replies[i].idx, replies[j].idx]
        0 <= i < replies.len() && 0 <= j < replies.len() && i != j ==> replies[i].idx
            != replies[j].idx
    &&& forall|k: int| 0 <= k < n ==> #[trigger] covered(replies, k)
}

/// The value that the reply tagged `k` carries.
pub open spec fn reply_value(replies: Seq<MsgOutput>, k: int) -> i64 {
    replies[choose|i: int| 0 <= i < replies.len() && replies[i].idx == k].value
}

/// The output buffer of size `n` once every reply is placed at its tag.
pub open spec fn assembled(replies: Seq<MsgOutput>, n: int) -> Seq<i64> {
    Seq::new(n as nat, |k: int| reply_value(replies, k))
}

/// Computes the reply to one task: the dot product of its row and column,
/// tagged with its cell, or the reason it failed.
pub fn run_task(task: &MsgInput) -> (r: Result<MsgOutput, MatrixError>)
    ensures
        r == reply_to(*task),
{
    match task.row.dot(&task.col) {
        Ok(value) => Ok(MsgOutput { idx: task.idx, value }),
        Err(e) => Err(e),
    }
}

/// The worker that the task for cell `idx` is routed to.
pub fn worker_for(idx: usize, workers: usize) -> (r: usize)
    requires
        workers > 0,
    ensures
        r == idx % workers,
        r < workers,
{
    idx % workers
}

/// Builds one task per output cell of `a` times `b`, in row-major order: the task
/// for cell `(i, j)` has index `i * b.cols() + j`, row `i` of `a` and column `j` of `b`.
pub fn plan_tasks(a: &Matrix, b: &Matrix) -> (r: Vec<MsgInput>)
    requires
        a.wf(),
        b.wf(),
        a.cols() == b.rows(),
        a.rows() * b.cols() <= usize::MAX,
    ensures
        is_plan(r@, *a, *b),
{
    let rows = a.row_count();
    let cols = b.col_count();
    let mut tasks: Vec<MsgInput> = Vec::new();
    let mut i: usize = 0;
    while i < rows
        invariant
            a.wf(),
            b.wf(),
            a.cols() == b.rows(),
            rows == a.rows(),
            cols == b.cols(),
            rows * cols <= usize::MAX,
            i <= rows,
            tasks@.len() == i * cols,
            forall|t: int| 0 <= t < tasks@.len() ==> #[trigger] is_task_for(tasks@[t], *a, *b, t),
        decreases rows - i,
    {
        let mut j: usize = 0;
        while j < cols
            invariant
                a.wf(),
                b.wf(),
                a.cols() == b.rows(),
                rows == a.rows(),
                cols == b.cols(),
                rows * cols <= usize::MAX,
                i < rows,
                j <= cols,
                tasks@.len() == i * cols + j,
                forall|t: int|
                    0 <= t < tasks@.len() ==> #[trigger] is_task_for(tasks@[t], *a, *b, t),
            decreases cols - j,
        {
            proof {
                lemma_flat_index(i as int, j as int, rows as int, cols as int);
            }
            let idx = i * cols + j;
            let task = MsgInput::new(idx, a.row(i), b.column(j));
            tasks.push(task);
            assert(is_task_for(tasks@[idx as int], *a, *b, idx as int));
            j = j + 1;
        }
        assert((i + 1) * cols == i * cols + cols) by (nonlinear_arith);
        i = i + 1;
    }
    tasks
}

/// Places each reply's value at its tag in a buffer of `row * col` cells and
/// returns that buffer as a `row` by `col` matrix. This succeeds exactly when the
/// tags form a bijection onto the cells, so that every cell is written once; any
/// other set of replies is `ChannelClosed`: some cell's reply never came.
pub fn assemble(replies: &Vec<MsgOutput>, row: usize, col: usize) -> (r: Result<
    Matrix,
    MatrixError,
>)
    requires
        row * col <= usize::MAX,
    ensures
        valid_replies(replies@, row * col) ==> r is Ok,
        !valid_replies(replies@, row * col) ==> r == Err::<Matrix, MatrixError>(
            MatrixError::ChannelClosed,
        ),
        r matches Ok(m) ==> {
            &&& m.wf()
            &&& m.rows() == row
            &&& m.cols() == col
            &&& m.cells() == assembled(replies@, row * col)
        },
{
    let n = row * col;
    let mut data: Vec<i64> = Vec::new();
    let mut written: Vec<bool> = Vec::new();
    let mut k: usize = 0;
    while k < n
        invariant
            n == row * col,
            k <= n,
            data@.len() == k,
            written@.len() == k,
            forall|m: int| 0 <= m < k ==> !#[trigger] written@[m],
        decreases n - k,
    {
        data.push(0);
        written.push(false);
        k = k + 1;
    }
    let len = replies.len();
    let mut p: usize = 0;
    while p < len
        invariant
            n == row * col,
            len == replies@.len(),
            p <= len,
            data@.len() == n,
            written@.len() == n,
            forall|i: int| 0 <= i < p ==> #[trigger] replies@[i].idx < n,
            forall|i: int| 0 <= i < p ==> #[trigger] written@[replies@[i].idx as int],
            forall|i: int, j: int|
                #![trigger replies@[i].idx, replies@[j].idx]
                0 <= i < p && 0 <= j < p && i != j ==> replies@[i].idx != replies@[j].idx,
            forall|m: int|
                0 <= m < n && #[trigger] written@[m] ==> exists|i: int|
                    0 <= i < p && replies@[i].idx == m && data@[m] == replies@[i].value,
        decreases len - p,
    {
        let o = replies[p];
        if o.idx >= n {
            assert(!valid_replies(replies@, n as int)) by {
                assert(replies@[p as int].idx >= n);
            }

            return Err(MatrixError::ChannelClosed);
        }
        if written[o.idx] {
            assert(!valid_replies(replies@, n as int)) by {
                let i = choose|i: int|
                    0 <= i < p && replies@[i].idx == o.idx && data@[o.idx as int]
                        == replies@[i].value;
                assert(replies@[i].idx == replies@[p as int].idx);
            }
            return Err(MatrixError::ChannelClosed);
        }
        data.set(o.idx, o.value);
        written.set(o.idx, true);
        assert forall|m: int| 0 <= m < n && #[trigger] written@[m] implies exists|i: int|
            0 <= i < p + 1 && replies@[i].idx == m && data@[m] == replies@[i].value by {
            if m == o.idx {
                assert(replies@[p as int].idx == m);
            } else {
                let i = choose|i: int|
                    0 <= i < p && replies@[i].idx == m && data@[m] == replies@[i].value;
                assert(replies@[i].idx == m);
            }
        }
        p = p + 1;
    }
    let mut k: usize = 0;
    while k < n
        invariant
            n == row * col,
            len == replies@.len(),
            k <= n,
            data@.len() == n,
            written@.len() == n,
            forall|m: int| 0 <= m < k ==> #[trigger] written@[m],
            forall|i: int| 0 <= i < len ==> #[trigger] replies@[i].idx < n,
            forall|i: int| 0 <= i < len ==> #[trigger] written@[replies@[i].idx as int],
            forall|i: int, j: int|
                #![trigger replies@[i].idx, replies@[j].idx]
                0 <= i < len && 0 <= j < len && i != j ==> replies@[i].idx != replies@[j].idx,
            forall|m: int|
                0 <= m < n && #[trigger] written@[m] ==> exists|i: int|
                    0 <= i < len && replies@[i].idx == m && data@[m] == replies@[i].value,
        decreases n - k,
    {
        if !written[k] {
            assert(!valid_replies(replies@, n as int)) by {
                if covered(replies@, k as int) {
                    let i = choose|i: int| 0 <= i < replies@.len() && replies@[i].idx == k;
                    assert(written@[replies@[i].idx as int]);
                }
            }
            return Err(MatrixError::ChannelClosed);
        }
        k = k + 1;
    }
    assert forall|m: int| 0 <= m < n implies #[trigger] covered(replies@, m) by {
        assert(written@[m]);
    }
    assert(valid_replies(replies@, n as int));
    assert forall|m: int| 0 <= m < n implies data@[m] == #[trigger] reply_value(replies@, m) by {
        assert(written@[m]);
        let i = choose|i: int|
            0 <= i < len && replies@[i].idx == m && data@[m] == replies@[i].value;
        let c = choose|c: int| 0 <= c < replies@.len() && replies@[c].idx == m;
        assert(replies@[i].idx == replies@[c].idx);
    }
    assert(data@ =~= assembled(replies@, n as int));
    Ok(Matrix::new(data, row, col))
}

/// The reply `o` holds the product cell that its tag names, and that cell fits in `i64`.
pub open spec fn is_cell_reply(o: MsgOutput, a: Matrix, b: Matrix) -> bool {
    let i = o.idx as int / b.cols() as int;
    let j = o.idx as int % b.cols() as int;
    dot_fits(a.row_seq(i), b.col_seq(j)) && o.value == dot_value(a.row_seq(i), b.col_seq(j))
}

/// A position `t` inside a `rows` by `cols` grid splits into a row `t / cols`
/// and a column `t % cols` inside the grid.
pub proof fn lemma_flat_split(t: int, rows: int, cols: int)
    requires
        0 <= t < rows * cols,
        0 <= rows,
    ensures
        cols > 0,
        0 <= t / cols < rows,
        0 <= t % cols < cols,
        t == (t / cols) * cols + t % cols,
{
    if cols <= 0 {
        assert(rows * cols <= 0) by (nonlinear_arith)
            requires
                0 <= rows,
                cols <= 0,
        ;
    }
    vstd::arithmetic::div_mod::lemma_fundamental_div_mod(t, cols);
    vstd::arithmetic::div_mod::lemma_mod_bound(t, cols);
    let q = t / cols;
    let m = t % cols;
    assert(q * cols == cols * q) by (nonlinear_arith);
    assert(0 <= q < rows) by (nonlinear_arith)
        requires
            t == cols * q + m,
            0 <= m < cols,
            0 <= t < rows * cols,
    ;
}

/// Two positions with the same remainder modulo `w`, less than `w` apart, are equal.
proof fn lemma_same_residue(t: int, u: int, w: int)
    requires
        w > 0,
        0 <= t <= u < t + w,
        u % w == t % w,
    ensures
        u == t,
{
    vstd::arithmetic::div_mod::lemma_fundamental_div_mod(t, w);
    vstd::arithmetic::div_mod::lemma_fundamental_div_mod(u, w);
    let qt = t / w;
    let qu = u / w;
    assert(qu == qt) by (nonlinear_arith)
        requires
            t == w * qt + t % w,
            u == w * qu + u % w,
            u % w == t % w,
            t <= u < t + w,
            w > 0,
    ;
}

/// Multiplies `a` by `b` with the cells routed over `workers` workers: the task
/// for cell `idx` goes to worker `idx % workers`, each worker answers its tasks in
/// the order it received them, and the replies, which thus come back grouped by
/// worker rather than by cell, are placed by their tags.
///
/// Fails with `ShapeMismatch`, before any task is built, when `a.cols() != b.rows()`,
/// and with `Overflow` when some cell does not fit in `i64`.
pub fn multiply_with_workers(a: &Matrix, b: &Matrix, workers: usize) -> (r: Result<
    Matrix,
    MatrixError,
>)
    requires
        a.wf(),
        b.wf(),
        workers > 0,
        a.cols() == b.rows() ==> a.rows() * b.cols() <= usize::MAX,
    ensures
        a.cols() != b.rows() ==> r == Err::<Matrix, MatrixError>(MatrixError::ShapeMismatch),
        a.cols() == b.rows() && product_fits(*a, *b) ==> (r matches Ok(m) && is_product(m, *a, *b)),
        a.cols() == b.rows() && !product_fits(*a, *b) ==> r == Err::<Matrix, MatrixError>(
            MatrixError::Overflow,
        ),
{
    if a.col_count() != b.row_count() {
        return Err(MatrixError::ShapeMismatch);
    }
    let rows = a.row_count();
    let cols = b.col_count();
    let tasks = plan_tasks(a, b);
    let n = tasks.len();
    let mut replies: Vec<MsgOutput> = Vec::new();
    let mut w: usize = 0;
    while w < workers
        invariant
            a.wf(),
            b.wf(),
            a.cols() == b.rows(),
            rows == a.rows(),
            cols == b.cols(),
            is_plan(tasks@, *a, *b),
            n == tasks@.len(),
            workers > 0,
            w <= workers,
            forall|i: int|
                0 <= i < replies@.len() ==> #[trigger] replies@[i].idx < n && replies@[i].idx
                    as int % (workers as int) < w && is_cell_reply(replies@[i], *a, *b),
            forall|i: int, j: int|
                #![trigger replies@[i].idx, replies@[j].idx]
                0 <= i < replies@.len() && 0 <= j < replies@.len() && i != j ==> replies@[i].idx
                    != replies@[j].idx,
            forall|u: int| 0 <= u < n && u % (workers as int) < w ==> #[trigger] covered(replies@, u),
        decreases workers - w,
    {
        let mut t: usize = w;
        proof {
            vstd::arithmetic::div_mod::lemma_small_mod(w as nat, workers as nat);
            assert forall|u: int|
                0 <= u < n && (u % (workers as int) < w || (u % (workers as int) == w && u < t))
                    implies #[trigger] covered(replies@, u) by {
                if u % (workers as int) == w && u < t {
                    vstd::arithmetic::div_mod::lemma_small_mod(u as nat, workers as nat);
                }
            }
        }
        while t < n
            invariant
                a.wf(),
                b.wf(),
                a.cols() == b.rows(),
                rows == a.rows(),
                cols == b.cols(),
                is_plan(tasks@, *a, *b),
                n == tasks@.len(),
                workers > 0,
                w < workers,
                t < n ==> t % workers == w,
                forall|i: int|
                    0 <= i < replies@.len() ==> #[trigger] replies@[i].idx < n && (
                    replies@[i].idx as int % (workers as int) < w || (replies@[i].idx as int % (workers as int) == w
                        && replies@[i].idx < t)) && is_cell_reply(replies@[i], *a, *b),
                forall|i: int, j: int|
                    #![trigger replies@[i].idx, replies@[j].idx]
                    0 <= i < replies@.len() && 0 <= j < replies@.len() && i != j
                        ==> replies@[i].idx != replies@[j].idx,
                forall|u: int|
                    0 <= u < n && (u % (workers as int) < w || (u % (workers as int) == w && u < t))
                        ==> #[trigger] covered(replies@, u),
            decreases n - t,
        {
            let ghost tt = t as int;
            let ghost before = replies@;
            assert(is_task_for(tasks@[tt], *a, *b, tt));
            proof {
                lemma_flat_split(tt, rows as int, cols as int);
            }
            match run_task(&tasks[t]) {
                Ok(o) => {
                    replies.push(o);
                },
                Err(e) => {
                    assert(!product_fits(*a, *b)) by {
                        assert(!dot_fits(a.row_seq(tt / cols as int), b.col_seq(tt % cols as int)));
                    }
                    return Err(e);
                },
            }
            let ghost last = replies@.len() - 1;
            proof {
                lemma_dot_fits_in_i64(tasks@[tt].row@, tasks@[tt].col@);
                assert(replies@[last].idx == tt);
                assert(is_cell_reply(replies@[last], *a, *b));
                assert(forall|i: int| 0 <= i < last ==> replies@[i] == before[i]);
            }
            assert forall|u: int|
                0 <= u < n && (u % (workers as int) < w || (u % (workers as int) == w && u <= tt))
                    implies #[trigger] covered(replies@, u) by {
                if u == tt {
                    assert(replies@[last].idx == u);
                } else {
                    assert(covered(before, u));
                    let i = choose|i: int| 0 <= i < before.len() && before[i].idx == u;
                    assert(replies@[i].idx == u);
                }
            }
            if workers >= n - t {
                assert forall|u: int|
                    0 <= u < n && (u % (workers as int) < w || u % (workers as int) == w)
                        implies #[trigger] covered(replies@, u) by {
                    if u % (workers as int) == w && u > tt {
                        lemma_same_residue(tt, u, workers as int);
                    }
                }
                t = n;
            } else {
                proof {
                    vstd::arithmetic::div_mod::lemma_mod_multiples_vanish(1, tt, workers as int);
                    assert forall|u: int|
                        0 <= u < n && (u % (workers as int) < w || (u % (workers as int) == w && u
                            < tt + workers as int)) implies #[trigger] covered(replies@, u) by {
                        if u % (workers as int) == w && u > tt {
                            lemma_same_residue(tt, u, workers as int);
                        }
                    }
                }
                t = t + workers;
            }
        }
        w = w + 1;
    }
    proof {
        assert forall|u: int| 0 <= u < n implies #[trigger] covered(replies@, u) by {
            vstd::arithmetic::div_mod::lemma_mod_bound(u, workers as int);
        }
        assert(valid_replies(replies@, n as int));
        assert forall|i: int, j: int|
            0 <= i < a.rows() && 0 <= j < b.cols() implies #[trigger] dot_fits(
            a.row_seq(i),
            b.col_seq(j),
        ) by {
            lemma_flat_index(i, j, rows as int, cols as int);
            let u = i * cols + j;
            assert(covered(replies@, u));
            let k = choose|k: int| 0 <= k < replies@.len() && replies@[k].idx == u;
            assert(is_cell_reply(replies@[k], *a, *b));
        }
    }
    let r = assemble(&replies, rows, cols);
    proof {
        if let Ok(m) = &r {
            assert forall|i: int, j: int| 0 <= i < m.rows() && 0 <= j < m.cols() implies #[trigger] m.entry(i, j)
                == product_entry(*a, *b, i, j) by {
                lemma_flat_index(i, j, rows as int, cols as int);
                let u = i * cols + j;
                assert(covered(replies@, u));
                let k = choose|k: int| 0 <= k < replies@.len() && replies@[k].idx == u;
                assert(is_cell_reply(replies@[k], *a, *b));
                assert(dot_fits(a.row_seq(i), b.col_seq(j)));
                lemma_dot_fits_in_i64(a.row_seq(i), b.col_seq(j));
                assert(m.cells()[u] == reply_value(replies@, u));
            }
        }
    }
    r
}

/// Multiplies `a` by `b` over `NUM_WORKERS` workers.
///
/// Fails with `ShapeMismatch`, before any task is built, when `a.cols() != b.rows()`,
/// and with `Overflow` when some cell does not fit in `i64`.
pub fn multiply(a: &Matrix, b: &Matrix) -> (r: Result<Matrix, MatrixError>)
    requires
        a.wf(),
        b.wf(),
        a.cols() == b.rows() ==> a.rows() * b.cols() <= usize::MAX,
    ensures
        a.cols() != b.rows() ==> r == Err::<Matrix, MatrixError>(MatrixError::ShapeMismatch),
        a.cols() == b.rows() && product_fits(*a, *b) ==> (r matches Ok(m) && is_product(m, *a, *b)),
        a.cols() == b.rows() && !product_fits(*a, *b) ==> r == Err::<Matrix, MatrixError>(
            MatrixError::Overflow,
        ),
{
    multiply_with_workers(a, b, NUM_WORKERS)
}

/// The order in which replies arrive does not change the assembled buffer: two
/// valid reply sets for `n` cells, one holding every reply of the other, assemble
/// to the same values.
pub proof fn lemma_reply_order_irrelevant(r1: Seq<MsgOutput>, r2: Seq<MsgOutput>, n: nat)
    requires
        valid_replies(r1, n as int),
        valid_replies(r2, n as int),
        forall|i: int| 0 <= i < r1.len() ==> r2.contains(#[trigger] r1[i]),
    ensures
        assembled(r1, n as int) == assembled(r2, n as int),
{
    assert forall|k: int| 0 <= k < assembled(r1, n as int).len() implies #[trigger] assembled(r1, n as int)[k]
        == assembled(r2, n as int)[k] by {
        assert(covered(r1, k));
        assert(covered(r2, k));
        let i1 = choose|i: int| 0 <= i < r1.len() && r1[i].idx == k;
        let i2 = choose|i: int| 0 <= i < r2.len() && r2[i].idx == k;
        assert(r2.contains(r1[i1]));
        let j = choose|j: int| 0 <= j < r2.len() && r2[j] == r1[i1];
        assert(r2[j].idx == r2[i2].idx);
    }
    assert(assembled(r1, n as int) =~= assembled(r2, n as int));
}

/// The product is unique: two matrices that are both the product of `a` and `b`
/// are equal, whatever the number of workers that computed them and however often
/// the multiplication was repeated.
pub proof fn lemma_product_unique(m1: Matrix, m2: Matrix, a: Matrix, b: Matrix)
    requires
        is_product(m1, a, b),
        is_product(m2, a, b),
    ensures
        m1.rows() == m2.rows(),
        m1.cols() == m2.cols(),
        m1.cells() == m2.cells(),
{
    let rows = a.rows() as int;
    let cols = b.cols() as int;
    assert forall|t: int| 0 <= t < m1.cells().len() implies m1.cells()[t] == m2.cells()[t] by {
        lemma_flat_split(t, rows, cols);
        let i = t / cols;
        let j = t % cols;
        assert(m1.entry(i, j) == product_entry(a, b, i, j));
        assert(m2.entry(i, j) == product_entry(a, b, i, j));
    }
    assert(m1.cells() =~= m2.cells());
}

} // verus!
