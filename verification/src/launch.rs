//! How the threads of a kernel launch share the work.
//!
//! A launch starts as many workgroups of [`WORKGROUP_SIZE`] threads along the first axis
//! as the number of threads asked for takes. A device runs at most
//! [`MAX_NUM_WORKGROUPS`] of them, so a caller may ask for fewer threads than there are
//! columns, and a thread does not stop after one: thread `x` takes the columns `x`,
//! `x + MAX_NUM_THREADS`, `x + 2·MAX_NUM_THREADS` and so on.

use crate::buffer::{
    law_replaced_columns, lemma_cell, lemma_cell_of_index, lemma_columns_twice, with_column,
    with_columns,
};
use vstd::prelude::*;

verus! {

/// Threads per workgroup.
pub const WORKGROUP_SIZE: u32 = 256;

/// Most workgroups that a device runs along one axis of a launch.
pub const MAX_NUM_WORKGROUPS: u32 = 65535;

/// Most threads that a device runs along one axis of a launch:
/// `MAX_NUM_WORKGROUPS * WORKGROUP_SIZE`.
pub const MAX_NUM_THREADS: u32 = 16_776_960;

/// Position of a thread in its launch, along the three axes.
#[derive(Clone, Copy, Debug, PartialEq, Eq)]
pub struct InvocationId {
    pub x: u32,
    pub y: u32,
    pub z: u32,
}

/// Whether thread `x` works on column `e` of `n`.
pub open spec fn owns(x: int, n: int, e: int) -> bool {
    x <= e < n && (e - x) % (MAX_NUM_THREADS as int) == 0
}

/// Threads that a launch starts when `num_threads` are asked for: whole workgroups.
pub open spec fn started(num_threads: int) -> int {
    (num_threads + WORKGROUP_SIZE - 1) / (WORKGROUP_SIZE as int) * WORKGROUP_SIZE
}

/// Whether one of the threads below `x` works on column `e` of `n`.
pub open spec fn reached(x: int, n: int, e: int) -> bool {
    0 <= e < n && e % (MAX_NUM_THREADS as int) < x
}

/// Every column has exactly one thread below [`MAX_NUM_THREADS`] that works on it:
/// the one at the column's remainder.
pub proof fn law_one_thread_per_column(n: int, e: int)
    requires
        0 <= e < n,
    ensures
        0 <= e % (MAX_NUM_THREADS as int) < MAX_NUM_THREADS,
        forall|x: int|
            0 <= x < MAX_NUM_THREADS ==> (#[trigger] owns(x, n, e) <==> x == e % (
            MAX_NUM_THREADS as int)),
{
    let m = MAX_NUM_THREADS as int;
    assert forall|x: int| 0 <= x < m implies (#[trigger] owns(x, n, e) <==> x == e % m) by {
        lemma_owner(x, n, e);
    }
}

/// A thread starts at the column of its own number and goes on by the number of all threads: a
/// column is its own if and only if it is a whole number of strides away, and below the count.
pub proof fn law_thread_strides(x: int, n: int, e: int, k: int)
    requires
        0 <= k,
        x + k * MAX_NUM_THREADS <= e < x + (k + 1) * MAX_NUM_THREADS,
    ensures
        owns(x, n, e) == (e == x + k * MAX_NUM_THREADS && e < n),
{
    let m = MAX_NUM_THREADS as int;
    let r = e - x - k * m;
    assert((k + 1) * m == k * m + m) by (nonlinear_arith);
    assert(0 <= k * m) by (nonlinear_arith)
        requires
            0 <= k,
            0 <= m,
    ;
    vstd::arithmetic::div_mod::lemma_fundamental_div_mod_converse(e - x, m, k, r);
}

/// What has been reached when the threads below `x` have run are the columns of those threads.
pub proof fn law_reached_columns(x: int, n: int, e: int)
    requires
        0 <= e,
    ensures
        reached(x, n, e) == (exists|y: int| 0 <= y < x && #[trigger] owns(y, n, e)),
{
    let m = MAX_NUM_THREADS as int;
    let y = e % m;
    vstd::arithmetic::div_mod::lemma_fundamental_div_mod(e, m);
    vstd::arithmetic::div_mod::lemma_mod_bound(e, m);
    if reached(x, n, e) {
        lemma_owner(y, n, e);
        assert(owns(y, n, e));
    }
    if exists|y: int| 0 <= y < x && #[trigger] owns(y, n, e) {
        let z = choose|y: int| 0 <= y < x && #[trigger] owns(y, n, e);
        lemma_owner(z, n, e);
        assert(reached(z + 1, n, e));
    }
}

/// A launch starts whole workgroups, as few as hold the threads asked for.
pub proof fn law_launch_is_whole_workgroups(num_threads: int)
    requires
        0 <= num_threads,
    ensures
        num_threads <= started(num_threads) < num_threads + WORKGROUP_SIZE,
        started(num_threads) % (WORKGROUP_SIZE as int) == 0,
{
    let q = (num_threads + 255) / 256;
    assert(num_threads <= q * 256 < num_threads + 256);
    assert((q * 256) % 256 == 0);
}

/// The threads below `x` and thread `x` together are the threads below `x + 1`.
pub proof fn lemma_owner(x: int, n: int, e: int)
    requires
        0 <= x,
        0 <= e < n,
    ensures
        reached(x + 1, n, e) == (reached(x, n, e) || owns(x, n, e)),
        x < MAX_NUM_THREADS ==> (owns(x, n, e) <==> e % (MAX_NUM_THREADS as int) == x),
{
    let m = MAX_NUM_THREADS as int;
    let q = e / m;
    let r = e % m;
    assert(e == m * q + r && 0 <= r < m && 0 <= q) by (nonlinear_arith)
        requires
            q == e / m,
            r == e % m,
            m == 16776960,
            0 <= e,
    ;
    if x < m {
        if r == x {
            assert((e - x) % m == 0) by (nonlinear_arith)
                requires
                    e - x == m * q,
                    m == 16776960,
            ;
            assert(m * q >= 0) by (nonlinear_arith)
                requires
                    m == 16776960,
                    q >= 0,
            ;
        }
        if owns(x, n, e) {
            let k = (e - x) / m;
            assert(e == m * k + x) by (nonlinear_arith)
                requires
                    (e - x) % m == 0,
                    k == (e - x) / m,
                    m == 16776960,
            ;
            vstd::arithmetic::div_mod::lemma_fundamental_div_mod_converse(e, m, k, x);
        }
    }
}

/// The columns of a thread are one stride apart.
pub proof fn lemma_stride(x: int, n: int, e: int)
    requires
        (e - x) % (MAX_NUM_THREADS as int) == 0,
    ensures
        (e + MAX_NUM_THREADS - x) % (MAX_NUM_THREADS as int) == 0,
        forall|c: int| e < c < e + MAX_NUM_THREADS ==> !#[trigger] owns(x, n, c),
{
    assert forall|c: int| e < c < e + MAX_NUM_THREADS implies !#[trigger] owns(x, n, c) by {
        assert((c - x) % 16776960 != 0);
    }
}

/// A launch for all columns reaches every column.
pub proof fn lemma_launch_reaches(num_threads: int, n: int, e: int)
    requires
        0 <= e < n <= num_threads,
    ensures
        num_threads <= started(num_threads) < num_threads + WORKGROUP_SIZE,
        reached(started(num_threads), n, e),
{
    let m = MAX_NUM_THREADS as int;
    assert(e % m <= e) by (nonlinear_arith)
        requires
            0 <= e,
            m == 16776960,
    ;
}

/// A buffer after thread `x` has replaced its columns.
pub open spec fn after_thread<T>(
    buf: Seq<T>,
    n: int,
    x: int,
    col: spec_fn(int) -> Seq<T>,
) -> Seq<T> {
    with_columns(buf, n, |e: int| owns(x, n, e), col)
}

/// A buffer after the threads below `x` have replaced their columns.
pub open spec fn after_threads<T>(
    buf: Seq<T>,
    n: int,
    x: int,
    col: spec_fn(int) -> Seq<T>,
) -> Seq<T> {
    with_columns(buf, n, |e: int| reached(x, n, e), col)
}

/// A buffer whose first `n` columns have all been replaced.
pub open spec fn after_launch<T>(buf: Seq<T>, n: int, col: spec_fn(int) -> Seq<T>) -> Seq<T> {
    with_columns(buf, n, |e: int| 0 <= e < n, col)
}

/// A buffer after thread `x` has replaced its columns below `limit`.
pub open spec fn within_thread<T>(
    buf: Seq<T>,
    n: int,
    x: int,
    limit: int,
    col: spec_fn(int) -> Seq<T>,
) -> Seq<T> {
    with_columns(buf, n, |e: int| owns(x, n, e) && e < limit, col)
}

/// At its first column a thread has replaced nothing.
pub proof fn lemma_thread_start<T>(buf: Seq<T>, n: int, x: int, col: spec_fn(int) -> Seq<T>)
    ensures
        within_thread(buf, n, x, x, col) == buf,
{
    assert(within_thread(buf, n, x, x, col) =~= buf);
}

/// Replacing its next column takes a thread one stride further.
pub proof fn lemma_thread_step<T>(
    buf: Seq<T>,
    n: int,
    x: int,
    e: int,
    col: spec_fn(int) -> Seq<T>,
)
    requires
        0 <= x,
        owns(x, n, e),
    ensures
        with_column(within_thread(buf, n, x, e, col), n, e, col(e)) == within_thread(
            buf,
            n,
            x,
            e + MAX_NUM_THREADS,
            col,
        ),
{
    let a = with_column(within_thread(buf, n, x, e, col), n, e, col(e));
    let b = within_thread(buf, n, x, e + MAX_NUM_THREADS, col);
    assert forall|i: int| 0 <= i < buf.len() implies a[i] == b[i] by {
        lemma_cell_of_index(i, n);
    }
    assert(a =~= b);
}

/// Past its last column a thread has replaced all of its columns.
pub proof fn lemma_thread_end<T>(
    buf: Seq<T>,
    n: int,
    x: int,
    e: int,
    col: spec_fn(int) -> Seq<T>,
)
    requires
        n <= e,
    ensures
        within_thread(buf, n, x, e, col) == after_thread(buf, n, x, col),
{
    assert(within_thread(buf, n, x, e, col) =~= after_thread(buf, n, x, col));
}

/// No thread has run yet.
pub proof fn lemma_threads_start<T>(buf: Seq<T>, n: int, col: spec_fn(int) -> Seq<T>)
    ensures
        after_threads(buf, n, 0, col) == buf,
{
    assert forall|i: int| 0 <= i < buf.len() implies after_threads(buf, n, 0, col)[i]
        == buf[i] by {
        assert(!reached(0, n, i % n));
    }
    assert(after_threads(buf, n, 0, col) =~= buf);
}

/// One thread more has run.
pub proof fn lemma_threads_step<T>(
    buf: Seq<T>,
    n: int,
    x: int,
    col: spec_fn(int) -> Seq<T>,
    again: spec_fn(int) -> Seq<T>,
)
    requires
        0 <= x,
        forall|e: int| 0 <= e < n ==> #[trigger] again(e) == col(e),
    ensures
        after_thread(after_threads(buf, n, x, col), n, x, again) == after_threads(
            buf,
            n,
            x + 1,
            col,
        ),
{
    let first = |e: int| reached(x, n, e);
    let second = |e: int| owns(x, n, e);
    let both = |e: int| reached(x + 1, n, e);
    if 0 < n {
        assert forall|e: int| 0 <= e < n implies #[trigger] both(e) == (first(e) || second(e)) by {
            lemma_owner(x, n, e);
        }
        lemma_columns_twice(buf, n, first, second, both, col, again);
    } else {
        assert(after_thread(after_threads(buf, n, x, col), n, x, again) =~= after_threads(
            buf,
            n,
            x + 1,
            col,
        ));
    }
}

/// Enough threads have run to replace every column.
pub proof fn lemma_threads_end<T>(
    buf: Seq<T>,
    n: int,
    num_threads: int,
    col: spec_fn(int) -> Seq<T>,
)
    requires
        n <= num_threads,
    ensures
        after_threads(buf, n, started(num_threads), col) == after_launch(buf, n, col),
{
    let a = after_threads(buf, n, started(num_threads), col);
    let b = after_launch(buf, n, col);
    assert forall|i: int| 0 <= i < buf.len() implies a[i] == b[i] by {
        if 0 <= i % n < n {
            lemma_launch_reaches(num_threads, n, i % n);
        }
    }
    assert(a =~= b);
}

/// Computes [`started`].
pub fn threads_started(num_threads: u32) -> (total: u64)
    ensures
        total == started(num_threads as int),
        num_threads <= total < num_threads + WORKGROUP_SIZE,
        total <= 0x1_0000_0000,
{
    (num_threads as u64 + WORKGROUP_SIZE as u64 - 1) / (WORKGROUP_SIZE as u64)
        * WORKGROUP_SIZE as u64
}

/// The workgroups of the largest launch hold [`MAX_NUM_THREADS`] threads.
pub proof fn law_max_num_threads()
    ensures
        MAX_NUM_THREADS == MAX_NUM_WORKGROUPS * WORKGROUP_SIZE,
{
    assert(MAX_NUM_WORKGROUPS * WORKGROUP_SIZE == 16_776_960);
}

/// Element `(d, e)` of a filled matrix lies at index `d·n + e` and holds row `d` of what
/// column `e` was filled with; below the filled rows the column is as it was.
pub proof fn law_element_layout<T>(
    buf: Seq<T>,
    n: int,
    col: spec_fn(int) -> Seq<T>,
    d: int,
    e: int,
)
    requires
        0 <= e < n,
        0 <= d,
        d * n + e < buf.len(),
    ensures
        after_launch(buf, n, col)[d * n + e] == (if d < col(e).len() {
            col(e)[d]
        } else {
            buf[d * n + e]
        }),
{
    lemma_cell(d, n, e);
}

/// Two threads of a launch may run in either order.
pub proof fn law_threads_commute<T>(
    buf: Seq<T>,
    n: int,
    x: int,
    y: int,
    col: spec_fn(int) -> Seq<T>,
)
    ensures
        after_thread(after_thread(buf, n, x, col), n, y, col) == after_thread(
            after_thread(buf, n, y, col),
            n,
            x,
            col,
        ),
{
    assert(after_thread(after_thread(buf, n, x, col), n, y, col) =~= after_thread(
        after_thread(buf, n, y, col),
        n,
        x,
        col,
    ));
}

/// A buffer after the threads `order`, one after the other, have replaced their columns.
pub open spec fn after_order<T>(
    buf: Seq<T>,
    n: int,
    order: Seq<int>,
    col: spec_fn(int) -> Seq<T>,
) -> Seq<T>
    decreases order.len(),
{
    if order.len() == 0 {
        buf
    } else {
        after_thread(after_order(buf, n, order.drop_last(), col), n, order.last(), col)
    }
}

/// Whether one of the threads `order` works on column `e` of `n`.
pub open spec fn touched(order: Seq<int>, n: int, e: int) -> bool {
    exists|i: int| 0 <= i < order.len() && owns(#[trigger] order[i], n, e)
}

/// One thread more touches its own columns too.
pub proof fn lemma_touched_step(order: Seq<int>, n: int, e: int)
    requires
        0 < order.len(),
    ensures
        touched(order, n, e) == (touched(order.drop_last(), n, e) || owns(order.last(), n, e)),
{
    let before = order.drop_last();
    if touched(order, n, e) {
        let i = choose|i: int| 0 <= i < order.len() && owns(#[trigger] order[i], n, e);
        if i < before.len() {
            assert(before[i] == order[i]);
        }
    }
    if touched(before, n, e) {
        let i = choose|i: int| 0 <= i < before.len() && owns(#[trigger] before[i], n, e);
        assert(order[i] == before[i]);
    }
    if owns(order.last(), n, e) {
        assert(owns(order[order.len() - 1], n, e));
    }
}

/// Every thread of a launch for all columns has run: then every column is touched.
pub proof fn lemma_all_touched(order: Seq<int>, n: int, num_threads: int, e: int)
    requires
        n <= num_threads,
        forall|x: int| 0 <= x < started(num_threads) ==> #[trigger] order.contains(x),
        0 <= e < n,
    ensures
        touched(order, n, e),
{
    let x = e % (MAX_NUM_THREADS as int);
    lemma_launch_reaches(num_threads, n, e);
    lemma_owner(x, n, e);
    assert(order.contains(x));
    let i = choose|i: int| 0 <= i < order.len() && order[i] == x;
    assert(owns(order[i], n, e));
}

/// A buffer after the threads `order` has the columns of those threads replaced.
proof fn lemma_after_order<T>(buf: Seq<T>, n: int, order: Seq<int>, col: spec_fn(int) -> Seq<T>)
    requires
        0 < n,
    ensures
        after_order(buf, n, order, col) == with_columns(
            buf,
            n,
            |e: int| touched(order, n, e),
            col,
        ),
    decreases order.len(),
{
    let both = |e: int| touched(order, n, e);
    if order.len() == 0 {
        assert(after_order(buf, n, order, col) =~= with_columns(buf, n, both, col));
    } else {
        let before = order.drop_last();
        let first = |e: int| touched(before, n, e);
        let second = |e: int| owns(order.last(), n, e);
        lemma_after_order(buf, n, before, col);
        assert forall|e: int| 0 <= e < n implies #[trigger] both(e) == (first(e) || second(e)) by {
            lemma_touched_step(order, n, e);
        }
        lemma_columns_twice(buf, n, first, second, both, col, col);
    }
}

/// The threads of a launch for all columns may run in any order, and any of them more than
/// once: once every one of them has run, every column is replaced.
pub proof fn law_launch_in_any_order<T>(
    buf: Seq<T>,
    n: int,
    num_threads: int,
    order: Seq<int>,
    col: spec_fn(int) -> Seq<T>,
)
    requires
        0 < n <= num_threads,
        forall|x: int| 0 <= x < started(num_threads) ==> #[trigger] order.contains(x),
    ensures
        after_order(buf, n, order, col) == after_launch(buf, n, col),
{
    let mine = |e: int| touched(order, n, e);
    lemma_after_order(buf, n, order, col);
    assert forall|i: int| 0 <= i < buf.len() implies with_columns(buf, n, mine, col)[i]
        == after_launch(buf, n, col)[i] by {
        lemma_cell_of_index(i, n);
        lemma_all_touched(order, n, num_threads, i % n);
    }
    assert(with_columns(buf, n, mine, col) =~= after_launch(buf, n, col));
}

/// A thread fills the columns that it owns, as far as they go, and leaves every other element;
/// so do the threads below `x` together, and a launch with the columns of all.
pub proof fn law_thread_elements<T>(
    buf: Seq<T>,
    n: int,
    x: int,
    col: spec_fn(int) -> Seq<T>,
    d: int,
    e: int,
)
    requires
        0 <= e < n,
        0 <= d,
        d * n + e < buf.len(),
    ensures
        after_thread(buf, n, x, col).len() == buf.len(),
        after_threads(buf, n, x, col).len() == buf.len(),
        after_launch(buf, n, col).len() == buf.len(),
        after_thread(buf, n, x, col)[d * n + e] == (if owns(x, n, e) && d < col(e).len() {
            col(e)[d]
        } else {
            buf[d * n + e]
        }),
        after_threads(buf, n, x, col)[d * n + e] == (if reached(x, n, e) && d < col(e).len() {
            col(e)[d]
        } else {
            buf[d * n + e]
        }),
        after_launch(buf, n, col)[d * n + e] == (if d < col(e).len() {
            col(e)[d]
        } else {
            buf[d * n + e]
        }),
{
    law_replaced_columns(buf, n, |c: int| owns(x, n, c), col, d, e);
    law_replaced_columns(buf, n, |c: int| reached(x, n, c), col, d, e);
    law_replaced_columns(buf, n, |c: int| 0 <= c < n, col, d, e);
}

} // verus!
