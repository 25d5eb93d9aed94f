//! Element access to kernel buffers and the row-major matrix layout they share.
//!
//! A kernel buffer is a slice that holds a `[rows x n]` matrix, row after row:
//! element `(d, e)` lies at index `d * n + e`. Column `e` belongs to environment
//! (or sample) `e`, and a kernel thread fills whole columns.

use vstd::prelude::*;

verus! {

/// Index of element `(d, e)` in a row-major matrix with `n` columns.
pub open spec fn cell(d: int, n: int, e: int) -> int {
    d * n + e
}

/// Reads element `i` of a buffer.
///
/// Calls `khal_std::index::MaybeIndexUnchecked::read` on the slice, which copies
/// out the element at the index. An index past the end is left out: the call
/// would panic there.
#[verifier::external_body]
pub(crate) fn load<T: Copy>(buffer: &[T], i: usize) -> (value: T)
    requires
        i < buffer@.len(),
    ensures
        value == buffer@[i as int],
{
    khal_std::index::MaybeIndexUnchecked::read(buffer, i)
}

/// Writes element `i` of a buffer.
///
/// Calls `khal_std::index::MaybeIndexUnchecked::write` on the slice, which stores
/// the value at the index and touches nothing else. An index past the end is left
/// out: the call would panic there.
#[verifier::external_body]
pub(crate) fn store<T: Copy>(buffer: &mut [T], i: usize, value: T)
    requires
        i < old(buffer)@.len(),
    ensures
        final(buffer)@ == old(buffer)@.update(i as int, value),
{
    khal_std::index::MaybeIndexUnchecked::write(buffer, i, value)
}

/// Column `e` of the top `rows` rows.
pub open spec fn column<T>(buf: Seq<T>, rows: nat, n: int, e: int) -> Seq<T> {
    Seq::new(rows, |d: int| buf[cell(d, n, e)])
}

/// A buffer in which the top of column `e` has been replaced by `col`.
pub open spec fn with_column<T>(buf: Seq<T>, n: int, e: int, col: Seq<T>) -> Seq<T> {
    Seq::new(
        buf.len(),
        |i: int|
            if i % n == e && i / n < col.len() {
                col[i / n]
            } else {
                buf[i]
            },
    )
}

/// A buffer in which the top of every column that `mine` selects has been replaced
/// by what `col` gives for it.
pub open spec fn with_columns<T>(
    buf: Seq<T>,
    n: int,
    mine: spec_fn(int) -> bool,
    col: spec_fn(int) -> Seq<T>,
) -> Seq<T> {
    Seq::new(
        buf.len(),
        |i: int|
            if mine(i % n) && i / n < col(i % n).len() {
                col(i % n)[i / n]
            } else {
                buf[i]
            },
    )
}

/// A buffer in which every row of width `w` that `mine` selects has been replaced by
/// what `row` gives for it.
pub open spec fn with_rows<T>(
    buf: Seq<T>,
    w: int,
    mine: spec_fn(int) -> bool,
    row: spec_fn(int) -> Seq<T>,
) -> Seq<T> {
    Seq::new(
        buf.len(),
        |i: int|
            if 0 < w && mine(i / w) {
                row(i / w)[i % w]
            } else {
                buf[i]
            },
    )
}

/// A buffer in which every entry that `mine` selects has been replaced by what `value`
/// gives for it.
pub open spec fn with_entries<T>(
    buf: Seq<T>,
    mine: spec_fn(int) -> bool,
    value: spec_fn(int) -> T,
) -> Seq<T> {
    Seq::new(
        buf.len(),
        |i: int|
            if mine(i) {
                value(i)
            } else {
                buf[i]
            },
    )
}

/// Row and column can be told from the index, and the index from them.
pub proof fn lemma_cell(d: int, n: int, e: int)
    requires
        0 <= e < n,
        0 <= d,
    ensures
        cell(d, n, e) / n == d,
        cell(d, n, e) % n == e,
        0 <= cell(d, n, e),
{
    vstd::arithmetic::div_mod::lemma_fundamental_div_mod_converse(cell(d, n, e), n, d, e);
    assert(0 <= d * n) by (nonlinear_arith)
        requires
            0 <= d,
            0 <= n,
    ;
}

/// Every index is that of the element in its own row and column.
pub proof fn lemma_cell_of_index(i: int, n: int)
    requires
        0 <= i,
        0 < n,
    ensures
        cell(i / n, n, i % n) == i,
        0 <= i / n,
        0 <= i % n < n,
{
    vstd::arithmetic::div_mod::lemma_fundamental_div_mod(i, n);
    vstd::arithmetic::div_mod::lemma_div_pos_is_pos(i, n);
    vstd::arithmetic::mul::lemma_mul_is_commutative(i / n, n);
}

/// The elements of a matrix that fits in a buffer lie in the buffer.
pub proof fn lemma_cell_in(d: int, rows: int, n: int, e: int, len: int)
    requires
        0 <= d < rows,
        0 <= e < n,
        rows * n <= len,
    ensures
        0 <= cell(d, n, e) < len,
{
    assert(0 <= d * n && d * n + n <= rows * n) by (nonlinear_arith)
        requires
            0 <= d < rows,
            0 <= n,
    ;
}

/// A matrix with at least one column has no more rows than elements.
pub proof fn lemma_rows_bounded(rows: int, n: int, len: int)
    requires
        0 <= rows,
        1 <= n,
        rows * n <= len,
    ensures
        rows <= len,
{
    assert(rows <= rows * n) by (nonlinear_arith)
        requires
            0 <= rows,
            1 <= n,
    ;
}

/// Replacing no row changes nothing.
pub proof fn lemma_no_rows<T>(buf: Seq<T>, n: int, e: int)
    requires
        0 < n,
    ensures
        with_column(buf, n, e, Seq::empty()) == buf,
{
    assert forall|i: int| 0 <= i < buf.len() implies with_column(buf, n, e, Seq::empty())[i]
        == buf[i] by {
        lemma_cell_of_index(i, n);
    }
    assert(with_column(buf, n, e, Seq::empty()) =~= buf);
}

/// Writing the element below the replaced top of a column replaces one row more.
pub proof fn lemma_one_more_row<T>(buf: Seq<T>, n: int, e: int, col: Seq<T>, value: T)
    requires
        0 <= e < n,
        cell(col.len() as int, n, e) < buf.len(),
    ensures
        with_column(buf, n, e, col).update(cell(col.len() as int, n, e), value) == with_column(
            buf,
            n,
            e,
            col.push(value),
        ),
{
    let d = col.len() as int;
    let k = cell(d, n, e);
    lemma_cell(d, n, e);
    let a = with_column(buf, n, e, col).update(k, value);
    let b = with_column(buf, n, e, col.push(value));
    assert forall|i: int| 0 <= i < buf.len() implies a[i] == b[i] by {
        lemma_cell_of_index(i, n);
        if i != k && i % n == e && i / n == d {
            assert(cell(i / n, n, i % n) == k);
        }
    }
    assert(a =~= b);
}

/// Replacing columns twice replaces the columns that either selection names, if both
/// replacements agree on what a column holds.
pub proof fn lemma_columns_twice<T>(
    buf: Seq<T>,
    n: int,
    first: spec_fn(int) -> bool,
    second: spec_fn(int) -> bool,
    both: spec_fn(int) -> bool,
    col: spec_fn(int) -> Seq<T>,
    again: spec_fn(int) -> Seq<T>,
)
    requires
        0 < n,
        forall|e: int| 0 <= e < n ==> #[trigger] both(e) == (first(e) || second(e)),
        forall|e: int| 0 <= e < n && #[trigger] second(e) ==> again(e) == col(e),
    ensures
        with_columns(with_columns(buf, n, first, col), n, second, again) == with_columns(
            buf,
            n,
            both,
            col,
        ),
{
    let a = with_columns(with_columns(buf, n, first, col), n, second, again);
    let b = with_columns(buf, n, both, col);
    assert forall|i: int| 0 <= i < buf.len() implies a[i] == b[i] by {
        lemma_cell_of_index(i, n);
        assert(both(i % n) == (first(i % n) || second(i % n)));
        assert(second(i % n) ==> again(i % n) == col(i % n));
    }
    assert(a =~= b);
}

/// Replacing rows twice replaces the rows that either selection names.
pub proof fn lemma_rows_twice<T>(
    buf: Seq<T>,
    w: int,
    first: spec_fn(int) -> bool,
    second: spec_fn(int) -> bool,
    both: spec_fn(int) -> bool,
    row: spec_fn(int) -> Seq<T>,
)
    requires
        forall|e: int| #[trigger] both(e) == (first(e) || second(e)),
    ensures
        with_rows(with_rows(buf, w, first, row), w, second, row) == with_rows(buf, w, both, row),
{
    let a = with_rows(with_rows(buf, w, first, row), w, second, row);
    let b = with_rows(buf, w, both, row);
    assert forall|i: int| 0 <= i < buf.len() implies a[i] == b[i] by {
        assert(both(i / w) == (first(i / w) || second(i / w)));
    }
    assert(a =~= b);
}

/// Replacing columns replaces, row by row, the elements `d * n + e` of the columns `e` that
/// `mine` selects, as far as they go, and no other element.
pub proof fn law_replaced_columns<T>(
    buf: Seq<T>,
    n: int,
    mine: spec_fn(int) -> bool,
    col: spec_fn(int) -> Seq<T>,
    d: int,
    e: int,
)
    requires
        0 <= e < n,
        0 <= d,
        d * n + e < buf.len(),
    ensures
        with_columns(buf, n, mine, col).len() == buf.len(),
        with_columns(buf, n, mine, col)[d * n + e] == (if mine(e) && d < col(e).len() {
            col(e)[d]
        } else {
            buf[d * n + e]
        }),
{
    lemma_cell(d, n, e);
}

/// Replacing rows replaces, element by element, the elements `r * w + d` of the rows `r` that
/// `mine` selects, and replacing entries the entries that `mine` selects. Nothing else changes.
pub proof fn law_replaced_rows<T>(
    buf: Seq<T>,
    w: int,
    mine: spec_fn(int) -> bool,
    row: spec_fn(int) -> Seq<T>,
    value: spec_fn(int) -> T,
    r: int,
    d: int,
)
    requires
        0 <= d < w,
        0 <= r,
        r * w + d < buf.len(),
    ensures
        with_rows(buf, w, mine, row).len() == buf.len(),
        with_rows(buf, w, mine, row)[r * w + d] == (if mine(r) {
            row(r)[d]
        } else {
            buf[r * w + d]
        }),
        with_entries(buf, mine, value).len() == buf.len(),
        r < buf.len() ==> with_entries(buf, mine, value)[r] == (if mine(r) {
            value(r)
        } else {
            buf[r]
        }),
{
    lemma_cell(r, w, d);
}

/// Whether a `[rows x n]` matrix fits in a buffer of `len` elements.
pub fn matrix_fits(rows: u64, n: u32, len: usize) -> (r: bool)
    ensures
        r == (rows * n <= len),
{
    assert(0 <= rows * n <= 0xffff_ffff_ffff_ffff * 0xffff_ffff) by (nonlinear_arith)
        requires
            0 <= rows <= 0xffff_ffff_ffff_ffff,
            0 <= n <= 0xffff_ffff,
    ;
    rows as u128 * n as u128 <= len as u128
}

/// Reads element `(d, e)` of a matrix with `n` columns.
pub(crate) fn get<T: Copy>(buffer: &[T], d: usize, n: usize, e: usize) -> (value: T)
    requires
        cell(d as int, n as int, e as int) < buffer@.len(),
    ensures
        value == buffer@[cell(d as int, n as int, e as int)],
{
    assert(0 <= d * n) by (nonlinear_arith);
    assert(buffer@.len() == buffer.len());
    load(buffer, d * n + e)
}

/// Writes row `d` of column `e` of a matrix with `n` columns, where the rows above it
/// have been replaced by `col` and the rest of the buffer is that of `base`.
pub(crate) fn put_row<T: Copy>(
    buffer: &mut [T],
    d: usize,
    n: usize,
    e: usize,
    value: T,
    Ghost(base): Ghost<Seq<T>>,
    Ghost(col): Ghost<Seq<T>>,
)
    requires
        e < n,
        d == col.len(),
        cell(d as int, n as int, e as int) < base.len(),
        old(buffer)@ == with_column(base, n as int, e as int, col),
    ensures
        final(buffer)@ == with_column(base, n as int, e as int, col.push(value)),
{
    proof {
        assert(0 <= d * n) by (nonlinear_arith);
        assert(buffer@.len() == buffer.len());
        lemma_one_more_row(base, n as int, e as int, col, value);
    }
    store(buffer, d * n + e, value);
}

} // verus!
