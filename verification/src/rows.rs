//! Data movement on row-major buffers.
//!
//! A buffer of `rows * width` elements is read as `rows` rows of `width`
//! elements. Every function here moves elements and computes none, so it is
//! generic in the element type.

use vstd::arithmetic::div_mod::*;
use vstd::arithmetic::mul::*;
use vstd::prelude::*;

verus! {

pub(crate) proof fn lemma_widths_add(a: nat, b: nat, width: nat)
    ensures
        (a + b) * width == a * width + b * width,
{
    assert((a + b) * width == a * width + b * width) by (nonlinear_arith);
}

/// Buffers one after the other.
pub open spec fn stacked<T>(parts: Seq<Seq<T>>) -> Seq<T>
    decreases parts.len(),
{
    if parts.len() == 0 {
        Seq::empty()
    } else {
        stacked(parts.drop_last()) + parts.last()
    }
}

/// The element of row `r` and column `c` lies inside the first `rows` rows.
pub proof fn lemma_cell_in_rows(r: int, c: int, rows: int, width: int)
    requires
        0 <= r < rows,
        0 <= c < width,
    ensures
        0 <= r * width,
        0 <= r * width + c < rows * width,
        (r + 1) * width <= rows * width,
{
    assert(0 <= r * width) by (nonlinear_arith)
        requires
            0 <= r,
            0 <= c < width,
    ;
    assert((r + 1) * width <= rows * width) by (nonlinear_arith)
        requires
            r + 1 <= rows,
            0 <= c < width,
    ;
    assert((r + 1) * width == r * width + width) by (nonlinear_arith);
}

/// Row `r` of `rows` rows of `width` elements lies in the buffer.
pub proof fn lemma_row_bounds(r: int, rows: int, width: int)
    requires
        0 <= r < rows,
        0 <= width,
    ensures
        0 <= r * width,
        r * width + width <= rows * width,
        (r + 1) * width == r * width + width,
{
    assert(0 <= r * width && r * width + width <= rows * width && (r + 1) * width == r * width
        + width) by (nonlinear_arith)
        requires
            0 <= r < rows,
            0 <= width,
    ;
}

/// The flat index of row `r` and column `c` determines both.
pub proof fn lemma_cell_coordinates(r: int, c: int, width: int)
    requires
        0 <= c < width,
    ensures
        (r * width + c) / width == r,
        (r * width + c) % width == c,
{
    lemma_fundamental_div_mod_converse(r * width + c, width, r, c);
}

/// A flat index below `rows * width` has its row below `rows`.
pub proof fn lemma_flat_index(i: int, rows: int, width: int)
    requires
        0 <= i < rows * width,
        0 <= width,
    ensures
        0 < width,
        0 <= i / width < rows,
        0 <= i % width < width,
        i == (i / width) * width + i % width,
{
    assert(0 < width) by (nonlinear_arith)
        requires
            0 <= i < rows * width,
            0 <= width,
    ;
    lemma_fundamental_div_mod(i, width);
    lemma_mul_is_commutative(width, i / width);
    let q = i / width;
    assert(0 <= i % width < width) by {
        lemma_mod_bound(i, width);
    }
    assert(0 <= q) by {
        lemma_div_pos_is_pos(i, width);
    }
    assert(q < rows) by (nonlinear_arith)
        requires
            q * width <= i < rows * width,
            0 < width,
    ;
}

/// Columns `start .. start + len` of a buffer of `rows` rows of `width`.
pub open spec fn columns<T>(data: Seq<T>, rows: nat, width: nat, start: nat, len: nat) -> Seq<T> {
    Seq::new(rows * len, |i: int| data[(i / len as int) * width + start + i % len as int])
}

/// Column `c` of row `r` of the selected columns is column `start + c` of row
/// `r` of the buffer.
pub proof fn law_columns_cell<T>(
    data: Seq<T>,
    rows: nat,
    width: nat,
    start: nat,
    len: nat,
    r: int,
    c: int,
)
    requires
        0 <= r < rows,
        0 <= c < len,
    ensures
        0 <= r * len + c < rows * len,
        columns(data, rows, width, start, len)[r * len + c] == data[r * width + start + c],
{
    lemma_cell_in_rows(r, c, rows as int, len as int);
    lemma_cell_coordinates(r, c, len as int);
}

/// Columns depend on their rows alone: two buffers that agree on their first
/// `rows` rows have the same columns there.
pub proof fn law_columns_of_prefix<T>(
    data: Seq<T>,
    other: Seq<T>,
    rows: nat,
    width: nat,
    start: nat,
    len: nat,
)
    requires
        start + len <= width,
        rows * width <= data.len(),
        rows * width <= other.len(),
        data.take((rows * width) as int) == other.take((rows * width) as int),
    ensures
        columns(data, rows, width, start, len) == columns(other, rows, width, start, len),
{
    let a = columns(data, rows, width, start, len);
    let b = columns(other, rows, width, start, len);
    let seen = (rows * width) as int;
    assert forall|i: int| 0 <= i < a.len() implies a[i] == b[i] by {
        lemma_flat_index(i, rows as int, len as int);
        let r = i / len as int;
        let c = i % len as int;
        lemma_cell_in_rows(r, start + c, rows as int, width as int);
        let at = r * width + start + c;
        assert(data.take(seen)[at] == data[at]);
        assert(other.take(seen)[at] == other[at]);
    }
    assert(a =~= b);
}

/// The columns of stacked buffers are the stacked columns.
pub proof fn law_columns_of_stack<T>(
    top: Seq<T>,
    bottom: Seq<T>,
    top_rows: nat,
    bottom_rows: nat,
    width: nat,
    start: nat,
    len: nat,
)
    requires
        start + len <= width,
        top.len() == top_rows * width,
        bottom.len() == bottom_rows * width,
    ensures
        columns(top + bottom, top_rows + bottom_rows, width, start, len) == columns(
            top,
            top_rows,
            width,
            start,
            len,
        ) + columns(bottom, bottom_rows, width, start, len),
{
    let all = columns(top + bottom, top_rows + bottom_rows, width, start, len);
    let a = columns(top, top_rows, width, start, len);
    let b = columns(bottom, bottom_rows, width, start, len);
    assert((top_rows + bottom_rows) * len == top_rows * len + bottom_rows * len)
        by (nonlinear_arith);
    assert forall|i: int| 0 <= i < all.len() implies all[i] == (a + b)[i] by {
        lemma_flat_index(i, (top_rows + bottom_rows) as int, len as int);
        let r = i / len as int;
        let c = i % len as int;
        if i < top_rows * len {
            lemma_flat_index(i, top_rows as int, len as int);
            lemma_cell_in_rows(r, start + c, top_rows as int, width as int);
        } else {
            let j = i - top_rows * len;
            lemma_flat_index(j, bottom_rows as int, len as int);
            let q = j / len as int;
            let d = j % len as int;
            assert(i == (top_rows + q) * len + d) by (nonlinear_arith)
                requires
                    i == top_rows * len + j,
                    j == q * len + d,
            ;
            lemma_cell_coordinates(top_rows + q, d, len as int);
            lemma_cell_in_rows(q, start + d, bottom_rows as int, width as int);
            assert((top_rows + q) * width == top_rows * width + q * width) by (nonlinear_arith);
        }
    }
    assert(all =~= a + b);
}

/// Copies `len` elements at `start`, `start + stride`, ... for `rows` blocks.
///
/// The blocks may reach over the end of a stride; all that is asked is that
/// the last one lies in the buffer.
pub fn take_strided<T: Copy>(
    data: &[T],
    rows: usize,
    stride: usize,
    start: usize,
    len: usize,
) -> (out: Vec<T>)
    requires
        rows > 0 && len > 0 ==> (rows - 1) * stride + start + len <= data@.len(),
        rows * len <= usize::MAX,
    ensures
        out@ == columns(data@, rows as nat, stride as nat, start as nat, len as nat),
{
    let mut out: Vec<T> = Vec::new();
    let available: usize = data.len();
    let total: usize = rows * len;
    let mut i: usize = 0;
    while i < total
        invariant
            total == rows * len,
            i <= total,
            rows > 0 && len > 0 ==> (rows - 1) * stride + start + len <= available,
            available == data@.len(),
            out@ == columns(data@, rows as nat, stride as nat, start as nat, len as nat).take(
                i as int,
            ),
        decreases total - i,
    {
        proof {
            lemma_flat_index(i as int, rows as int, len as int);
        }
        let r: usize = i / len;
        let c: usize = i % len;
        proof {
            assert(0 <= r * stride <= (rows - 1) * stride) by (nonlinear_arith)
                requires
                    0 <= r <= rows - 1,
                    0 <= stride,
            ;
        }
        out.push(data[r * stride + start + c]);
        i = i + 1;
    }
    out
}

/// Copies columns `start .. start + len` out of every row.
pub fn take_columns<T: Copy>(
    data: &[T],
    rows: usize,
    width: usize,
    start: usize,
    len: usize,
) -> (out: Vec<T>)
    requires
        rows * width <= data@.len(),
        start + len <= width,
    ensures
        out@ == columns(data@, rows as nat, width as nat, start as nat, len as nat),
{
    let available: usize = data.len();
    proof {
        assert(rows * len <= rows * width) by (nonlinear_arith)
            requires
                0 <= len <= width,
                0 <= rows,
        ;
        assert((rows - 1) * width + width == rows * width) by (nonlinear_arith);
    }
    take_strided(data, rows, width, start, len)
}

/// The transpose of a `rows x cols` buffer.
pub open spec fn transposed<T>(data: Seq<T>, rows: nat, cols: nat) -> Seq<T> {
    Seq::new(rows * cols, |i: int| data[(i % rows as int) * cols + i / rows as int])
}

/// Cell `(c, r)` of the transpose is cell `(r, c)` of the buffer.
pub proof fn law_transposed_cell<T>(data: Seq<T>, rows: nat, cols: nat, r: int, c: int)
    requires
        0 <= r < rows,
        0 <= c < cols,
    ensures
        0 <= c * rows + r < rows * cols,
        transposed(data, rows, cols)[c * rows + r] == data[r * cols + c],
{
    lemma_cell_in_rows(c, r, cols as int, rows as int);
    lemma_mul_is_commutative(rows as int, cols as int);
    lemma_cell_coordinates(c, r, rows as int);
}

/// Transposing twice gives the buffer back.
pub proof fn law_transpose_twice<T>(data: Seq<T>, rows: nat, cols: nat)
    requires
        data.len() == rows * cols,
    ensures
        transposed(transposed(data, rows, cols), cols, rows) == data,
{
    lemma_mul_is_commutative(rows as int, cols as int);
    let once = transposed(data, rows, cols);
    let twice = transposed(once, cols, rows);
    assert(twice.len() == data.len());
    assert forall|i: int| 0 <= i < data.len() implies twice[i] == data[i] by {
        lemma_flat_index(i, rows as int, cols as int);
        let r = i / cols as int;
        let c = i % cols as int;
        assert(twice[i] == once[c * rows + r]);
        law_transposed_cell(data, rows, cols, r, c);
    }
    assert(twice =~= data);
}

/// Transposes a `rows x cols` buffer.
pub fn transpose<T: Copy>(data: &[T], rows: usize, cols: usize) -> (out: Vec<T>)
    requires
        rows * cols <= data@.len(),
    ensures
        out@ == transposed(data@, rows as nat, cols as nat),
{
    let mut out: Vec<T> = Vec::new();
    let available: usize = data.len();
    let total: usize = rows * cols;
    let mut i: usize = 0;
    while i < total
        invariant
            total == rows * cols,
            i <= total,
            rows * cols <= available,
            available == data@.len(),
            out@ == transposed(data@, rows as nat, cols as nat).take(i as int),
        decreases total - i,
    {
        proof {
            lemma_mul_is_commutative(rows as int, cols as int);
            lemma_flat_index(i as int, cols as int, rows as int);
        }
        let c: usize = i / rows;
        let r: usize = i % rows;
        proof {
            lemma_cell_in_rows(r as int, c as int, rows as int, cols as int);
        }
        out.push(data[r * cols + c]);
        i = i + 1;
    }
    out
}

/// The last `keep` elements.
pub open spec fn suffix<T>(data: Seq<T>, keep: nat) -> Seq<T> {
    data.subrange(data.len() - keep, data.len() as int)
}

/// Copies `data[from .. from + len]`.
pub fn copy_range<T: Copy>(data: &[T], from: usize, len: usize) -> (out: Vec<T>)
    requires
        from + len <= data@.len(),
    ensures
        out@ == data@.subrange(from as int, from + len),
{
    let mut out: Vec<T> = Vec::new();
    let available: usize = data.len();
    let mut i: usize = 0;
    while i < len
        invariant
            i <= len,
            from + len <= available,
            available == data@.len(),
            out@ == data@.subrange(from as int, from + i),
        decreases len - i,
    {
        out.push(data[from + i]);
        i = i + 1;
    }
    out
}

/// Appends every element of `more`.
pub fn append_all<T: Copy>(data: &mut Vec<T>, more: &[T])
    ensures
        final(data)@ == old(data)@ + more@,
{
    let n: usize = more.len();
    let mut i: usize = 0;
    while i < n
        invariant
            i <= n,
            n == more@.len(),
            data@ == old(data)@ + more@.take(i as int),
        decreases n - i,
    {
        data.push(more[i]);
        i = i + 1;
        assert(more@.take(i as int) == more@.take(i - 1).push(more@[i - 1]));
    }
    assert(more@.take(n as int) == more@);
}

/// `len` copies of one element.
pub fn filled<T: Copy>(value: T, len: usize) -> (out: Vec<T>)
    ensures
        out@ == Seq::new(len as nat, |i: int| value),
{
    let mut out: Vec<T> = Vec::new();
    let mut i: usize = 0;
    while i < len
        invariant
            i <= len,
            out@ == Seq::new(i as nat, |j: int| value),
        decreases len - i,
    {
        out.push(value);
        i = i + 1;
    }
    out
}

/// Query, key and value rows of one fused projection.
pub struct QkvRows<T> {
    pub q: Vec<T>,
    pub k: Vec<T>,
    pub v: Vec<T>,
}

/// Splits rows laid out as `q_dim` query, `kv_dim` key and `kv_dim` value
/// columns into three buffers.
pub fn split_qkv<T: Copy>(qkv: &[T], rows: usize, q_dim: usize, kv_dim: usize) -> (out: QkvRows<T>)
    requires
        q_dim + 2 * kv_dim <= usize::MAX,
        rows * (q_dim + 2 * kv_dim) <= qkv@.len(),
    ensures
        out.q@ == columns(qkv@, rows as nat, (q_dim + 2 * kv_dim) as nat, 0, q_dim as nat),
        out.k@ == columns(
            qkv@,
            rows as nat,
            (q_dim + 2 * kv_dim) as nat,
            q_dim as nat,
            kv_dim as nat,
        ),
        out.v@ == columns(
            qkv@,
            rows as nat,
            (q_dim + 2 * kv_dim) as nat,
            (q_dim + kv_dim) as nat,
            kv_dim as nat,
        ),
{
    let width: usize = q_dim + 2 * kv_dim;
    let q = take_columns(qkv, rows, width, 0, q_dim);
    let k = take_columns(qkv, rows, width, q_dim, kv_dim);
    let v = take_columns(qkv, rows, width, q_dim + kv_dim, kv_dim);
    QkvRows { q, k, v }
}

/// Splitting loses nothing: every cell of the fused rows is found in exactly
/// the part whose columns it lies in.
pub proof fn law_split_covers<T>(
    qkv: Seq<T>,
    rows: nat,
    q_dim: nat,
    kv_dim: nat,
    r: int,
    c: int,
)
    requires
        0 <= r < rows,
        0 <= c < q_dim + 2 * kv_dim,
    ensures
        ({
            let width = (q_dim + 2 * kv_dim) as nat;
            let cell = qkv[r * width + c];
            if c < q_dim {
                columns(qkv, rows, width, 0, q_dim)[r * q_dim + c] == cell
            } else if c < q_dim + kv_dim {
                columns(qkv, rows, width, q_dim, kv_dim)[r * kv_dim + (c - q_dim)] == cell
            } else {
                columns(qkv, rows, width, (q_dim + kv_dim) as nat, kv_dim)[r * kv_dim + (c - q_dim
                    - kv_dim)] == cell
            }
        }),
{
    let width = (q_dim + 2 * kv_dim) as nat;
    if c < q_dim {
        law_columns_cell(qkv, rows, width, 0, q_dim, r, c);
    } else if c < q_dim + kv_dim {
        law_columns_cell(qkv, rows, width, q_dim, kv_dim, r, c - q_dim);
    } else {
        law_columns_cell(
            qkv,
            rows,
            width,
            (q_dim + kv_dim) as nat,
            kv_dim,
            r,
            c - q_dim - kv_dim,
        );
    }
}

/// Row `i` of a gather: the table row that `id` names, or zeros where the id
/// is outside the vocabulary or its row is not all in the table.
pub open spec fn gathered_row<T>(
    table: Seq<T>,
    vocab: nat,
    width: nat,
    id: nat,
    zero: T,
) -> Seq<T> {
    if id < vocab && (id + 1) * width <= table.len() {
        table.subrange(id * width as int, (id + 1) * width as int)
    } else {
        Seq::new(width, |c: int| zero)
    }
}

/// The rows that `ids` name, one after the other.
pub open spec fn gathered<T>(
    table: Seq<T>,
    vocab: nat,
    width: nat,
    ids: Seq<usize>,
    zero: T,
) -> Seq<T>
    decreases ids.len(),
{
    if ids.len() == 0 {
        Seq::empty()
    } else {
        gathered(table, vocab, width, ids.drop_last(), zero) + gathered_row(
            table,
            vocab,
            width,
            ids.last() as nat,
            zero,
        )
    }
}

/// Looks up one table row per id.
pub fn gather_rows<T: Copy>(
    table: &[T],
    vocab: usize,
    width: usize,
    ids: &[usize],
    zero: T,
) -> (out: Vec<T>)
    requires
        vocab * width <= usize::MAX,
    ensures
        out@ == gathered(table@, vocab as nat, width as nat, ids@, zero),
{
    let mut out: Vec<T> = Vec::new();
    let available: usize = table.len();
    let n: usize = ids.len();
    let mut i: usize = 0;
    assert(ids@.take(0) =~= Seq::<usize>::empty());
    while i < n
        invariant
            i <= n,
            n == ids@.len(),
            available == table@.len(),
            vocab * width <= usize::MAX,
            out@ == gathered(table@, vocab as nat, width as nat, ids@.take(i as int), zero),
        decreases n - i,
    {
        let id: usize = ids[i];
        let ghost before = out@;
        let mut taken: bool = false;
        if id < vocab {
            proof {
                assert((id + 1) * width <= vocab * width) by (nonlinear_arith)
                    requires
                        id + 1 <= vocab,
                        0 <= width,
                ;
                assert((id + 1) * width == id * width + width) by (nonlinear_arith);
                assert(0 <= id * width) by (nonlinear_arith)
                    requires
                        0 <= id,
                        0 <= width,
                ;
            }
            let start: usize = id * width;
            if width <= available && start <= available - width {
                let row = copy_range(table, start, width);
                append_all(&mut out, row.as_slice());
                taken = true;
            }
        }
        if !taken {
            let row = filled(zero, width);
            append_all(&mut out, row.as_slice());
        }
        assert(out@ == before + gathered_row(
            table@,
            vocab as nat,
            width as nat,
            id as nat,
            zero,
        ));
        assert(ids@.take(i + 1).drop_last() =~= ids@.take(i as int));
        i = i + 1;
    }
    assert(ids@.take(n as int) =~= ids@);
    out
}

} // verus!
