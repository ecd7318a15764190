//! Cache-aware reference attention.
//!
//! A layer's cache holds the rotated keys and the raw values of every token
//! seen so far, one row per token, so that a decode step attends over the
//! whole prior context.

use crate::error::Error;
use crate::kernels::attend_rows;
use crate::rows::{append_all, columns, copy_range, filled, take_strided};
use crate::scalar::{Number, Relation, ScalarOp, Scalars};
use crate::tensor::HostTensor;
use vstd::prelude::*;

verus! {

/// Key and value history of one layer.
#[derive(Debug, Clone)]
pub struct RefKvCache<T> {
    /// Rotated keys, one row per cached token.
    pub k: Vec<T>,
    /// Raw values, one row per cached token.
    pub v: Vec<T>,
    /// Number of cached token positions.
    pub past_len: usize,
}

impl<T> RefKvCache<T> {
    /// Keys and values hold `past_len` rows of `row` elements each.
    pub open spec fn wf(&self, row: nat) -> bool {
        &&& self.k@.len() == self.past_len * row
        &&& self.v@.len() == self.past_len * row
    }

    /// An empty cache.
    pub fn new() -> (cache: Self)
        ensures
            cache.k@ == Seq::<T>::empty(),
            cache.v@ == Seq::<T>::empty(),
            cache.past_len == 0,
    {
        RefKvCache { k: Vec::new(), v: Vec::new(), past_len: 0 }
    }
}

/// The key tensor names a row width: rank two or more, and the width not zero.
pub open spec fn has_row_width(dims: Seq<usize>) -> bool {
    dims.len() >= 2 && dims[1] > 0
}

/// Appends one call's keys and values and returns the number of cached tokens.
///
/// The full history to attend over is then `cache.k` and `cache.v`.
pub fn append_and_get<T: Copy>(
    cache: &mut RefKvCache<T>,
    k_new: &HostTensor<T>,
    v_new: &[T],
) -> (result: Result<usize, Error>)
    requires
        k_new.wf(),
        old(cache).k@.len() + k_new.data@.len() <= usize::MAX,
    ensures
        match result {
            Ok(total) => {
                &&& has_row_width(k_new.dims@)
                &&& v_new@.len() == k_new.data@.len()
                &&& final(cache).k@ == old(cache).k@ + k_new.data@
                &&& final(cache).v@ == old(cache).v@ + v_new@
                &&& total == final(cache).k@.len() as int / k_new.dims@[1] as int
                &&& final(cache).past_len == total
            },
            Err(Error::KeyRank { dims }) => {
                &&& !has_row_width(k_new.dims@)
                &&& dims@ == k_new.dims@
                &&& *final(cache) == *old(cache)
            },
            Err(Error::ValueLength { values, keys }) => {
                &&& has_row_width(k_new.dims@)
                &&& v_new@.len() != k_new.data@.len()
                &&& values == v_new@.len()
                &&& keys == k_new.data@.len()
                &&& *final(cache) == *old(cache)
            },
            Err(_) => false,
        },
        result is Ok <==> has_row_width(k_new.dims@) && v_new@.len() == k_new.data@.len(),
        result is Ok && old(cache).wf(k_new.dims@[1] as nat) && k_new.dims@.len() == 2 ==> {
            &&& final(cache).wf(k_new.dims@[1] as nat)
            &&& final(cache).past_len == old(cache).past_len + k_new.dims@[0]
        },
{
    if k_new.dims.len() < 2 || k_new.dims[1] == 0 {
        return Err(Error::KeyRank { dims: copy_range(k_new.dims.as_slice(), 0, k_new.dims.len()) });
    }
    let row: usize = k_new.dims[1];
    if v_new.len() != k_new.data.len() {
        return Err(Error::ValueLength { values: v_new.len(), keys: k_new.data.len() });
    }
    append_all(&mut cache.k, k_new.data.as_slice());
    append_all(&mut cache.v, v_new);
    let total: usize = cache.k.len() / row;
    cache.past_len = total;
    proof {
        if old(cache).wf(row as nat) && k_new.dims@.len() == 2 {
            crate::tensor::lemma_element_count_2d(k_new.dims@);
            let past = old(cache).past_len as int;
            let added = k_new.dims@[0] as int;
            let tokens = past + added;
            assert(tokens * row == past * row + added * row) by (nonlinear_arith)
                requires
                    tokens == past + added,
            ;
            vstd::arithmetic::div_mod::lemma_div_by_multiple(tokens as int, row as int);
        }
    }
    Ok(total)
}

/// The last history row that query `t` of a call may see.
pub open spec fn last_visible(past_len: nat, t: nat, total_len: nat) -> int {
    if past_len + t <= total_len - 1 {
        (past_len + t) as int
    } else {
        total_len - 1
    }
}

/// The key or value head that query head `h` reads.
pub open spec fn kv_head_of(kv_head: Seq<usize>, h: int) -> nat {
    if h < kv_head.len() {
        kv_head[h] as nat
    } else {
        h as nat
    }
}

/// The rows of one key or value head that a query may see.
pub open spec fn visible_rows<T>(
    history: Seq<T>,
    last: int,
    row: nat,
    head: nat,
    head_dim: nat,
) -> Seq<T> {
    columns(history, (last + 1) as nat, row, head * head_dim, head_dim)
}

/// What one query head reads and gives: `attend` was handed exactly the query
/// head, the visible keys and the visible values, and gave `block`.
pub open spec fn attended<T, F: Fn(Vec<T>, Vec<T>, Vec<T>) -> Vec<T>>(
    attend: F,
    q: Seq<T>,
    k: Seq<T>,
    v: Seq<T>,
    block: Seq<T>,
) -> bool {
    exists|a: Vec<T>, b: Vec<T>, c: Vec<T>, r: Vec<T>|
        a@ == q && b@ == k && c@ == v && r@ == block && #[trigger] call_ensures(
            attend,
            (a, b, c),
            r,
        )
}

/// The part of an output buffer that head `h` of token `t` fills.
pub open spec fn head_block<T>(out: Seq<T>, t: int, h: int, q_row: nat, head_dim: nat) -> Seq<T> {
    out.subrange(t * q_row + h * head_dim, t * q_row + h * head_dim + head_dim)
}

/// Head `h` of token `t` was attended over what that token may see, and its
/// result lies in its place of `out`.
pub open spec fn token_head_done<T, F: Fn(Vec<T>, Vec<T>, Vec<T>) -> Vec<T>>(
    attend: F,
    q: Seq<T>,
    k: Seq<T>,
    v: Seq<T>,
    total_len: nat,
    past_len: nat,
    head_dim: nat,
    q_row: nat,
    kv_row: nat,
    kv_head: Seq<usize>,
    out: Seq<T>,
    t: int,
    h: int,
) -> bool {
    let last = last_visible(past_len, t as nat, total_len);
    let head = kv_head_of(kv_head, h);
    attended(
        attend,
        head_block(q, t, h, q_row, head_dim),
        visible_rows(k, last, kv_row, head, head_dim),
        visible_rows(v, last, kv_row, head, head_dim),
        head_block(out, t, h, q_row, head_dim),
    )
}

/// The history reaches as far as head `h` of the last token will read.
pub open spec fn history_reaches(
    len: nat,
    last: int,
    kv_row: nat,
    head: nat,
    head_dim: nat,
) -> bool {
    last * kv_row + (head + 1) * head_dim <= len
}

proof fn lemma_block_bounds(t: int, h: int, new_tokens: int, num_heads: int, q_row: int, head_dim: int)
    requires
        0 <= t < new_tokens,
        0 <= h < num_heads,
        0 <= head_dim,
        num_heads * head_dim <= q_row,
    ensures
        0 <= t * q_row,
        0 <= h * head_dim,
        h * head_dim + head_dim <= num_heads * head_dim,
        t * q_row + q_row <= new_tokens * q_row,
        t * q_row <= (new_tokens - 1) * q_row,
{
    assert(0 <= h * head_dim && h * head_dim + head_dim <= num_heads * head_dim)
        by (nonlinear_arith)
        requires
            0 <= h < num_heads,
            0 <= head_dim,
    ;
    assert(0 <= t * q_row && t * q_row + q_row <= new_tokens * q_row && t * q_row <= (new_tokens
        - 1) * q_row) by (nonlinear_arith)
        requires
            0 <= t < new_tokens,
            0 <= q_row,
    ;
}

/// Attends every query head of `new_tokens` tokens over the history.
///
/// `attend` weighs the visible values of one head by the scores of its query
/// against the visible keys. Query `t` of the call sees the history rows up to
/// its own position `past_len + t` and none after it.
pub fn attend_tokens<T: Copy, F: Fn(Vec<T>, Vec<T>, Vec<T>) -> Vec<T>>(
    q: &[T],
    k: &[T],
    v: &[T],
    new_tokens: usize,
    total_len: usize,
    past_len: usize,
    num_heads: usize,
    head_dim: usize,
    q_row_elems: usize,
    kv_row_elems: usize,
    kv_head: &[usize],
    zero: T,
    attend: F,
) -> (out: Vec<T>)
    requires
        num_heads * head_dim <= q_row_elems,
        new_tokens * q_row_elems <= usize::MAX,
        past_len + new_tokens <= usize::MAX,
        total_len * head_dim <= usize::MAX,
        new_tokens > 0 ==> total_len > 0,
        new_tokens > 0 ==> (new_tokens - 1) * q_row_elems + num_heads * head_dim <= q@.len(),
        new_tokens > 0 ==> forall|h: int|
            0 <= h < num_heads ==> {
                let last = last_visible(past_len as nat, (new_tokens - 1) as nat, total_len as nat);
                let head = #[trigger] kv_head_of(kv_head@, h);
                &&& history_reaches(k@.len(), last, kv_row_elems as nat, head, head_dim as nat)
                &&& history_reaches(v@.len(), last, kv_row_elems as nat, head, head_dim as nat)
            },
        forall|a: Vec<T>, b: Vec<T>, c: Vec<T>|
            a@.len() == head_dim ==> #[trigger] call_requires(attend, (a, b, c)),
        forall|a: Vec<T>, b: Vec<T>, c: Vec<T>, r: Vec<T>| #[trigger]
            call_ensures(attend, (a, b, c), r) && a@.len() == head_dim ==> r@.len() == head_dim,
    ensures
        out@.len() == new_tokens * q_row_elems,
        forall|t: int, h: int|
            0 <= t < new_tokens && 0 <= h < num_heads ==> #[trigger] token_head_done(
                attend,
                q@,
                k@,
                v@,
                total_len as nat,
                past_len as nat,
                head_dim as nat,
                q_row_elems as nat,
                kv_row_elems as nat,
                kv_head@,
                out@,
                t,
                h,
            ),
        forall|t: int, c: int|
            0 <= t < new_tokens && num_heads * head_dim <= c < q_row_elems ==> out@[#[trigger] (t
                * q_row_elems + c)] == zero,
{
    let ghost done = |o: Seq<T>, t: int, h: int|
        token_head_done(
            attend,
            q@,
            k@,
            v@,
            total_len as nat,
            past_len as nat,
            head_dim as nat,
            q_row_elems as nat,
            kv_row_elems as nat,
            kv_head@,
            o,
            t,
            h,
        );
    let mut out: Vec<T> = Vec::new();
    let k_len: usize = k.len();
    let v_len: usize = v.len();
    let q_len: usize = q.len();
    let used: usize = num_heads * head_dim;
    let mut t: usize = 0;
    while t < new_tokens
        invariant
            t <= new_tokens,
            k_len == k@.len(),
            v_len == v@.len(),
            q_len == q@.len(),
            used == num_heads * head_dim,
            used <= q_row_elems,
            new_tokens * q_row_elems <= usize::MAX,
            past_len + new_tokens <= usize::MAX,
            total_len * head_dim <= usize::MAX,
            new_tokens > 0 ==> total_len > 0,
            new_tokens > 0 ==> (new_tokens - 1) * q_row_elems + used <= q_len,
            new_tokens > 0 ==> forall|h: int|
                0 <= h < num_heads ==> {
                    let last = last_visible(
                        past_len as nat,
                        (new_tokens - 1) as nat,
                        total_len as nat,
                    );
                    let head = #[trigger] kv_head_of(kv_head@, h);
                    &&& history_reaches(k@.len(), last, kv_row_elems as nat, head, head_dim as nat)
                    &&& history_reaches(v@.len(), last, kv_row_elems as nat, head, head_dim as nat)
                },
            forall|a: Vec<T>, b: Vec<T>, c: Vec<T>|
                a@.len() == head_dim ==> #[trigger] call_requires(attend, (a, b, c)),
            forall|a: Vec<T>, b: Vec<T>, c: Vec<T>, r: Vec<T>| #[trigger]
                call_ensures(attend, (a, b, c), r) && a@.len() == head_dim ==> r@.len() == head_dim,
            done == (|o: Seq<T>, t: int, h: int|
                token_head_done(
                    attend,
                    q@,
                    k@,
                    v@,
                    total_len as nat,
                    past_len as nat,
                    head_dim as nat,
                    q_row_elems as nat,
                    kv_row_elems as nat,
                    kv_head@,
                    o,
                    t,
                    h,
                )),
            out@.len() == t * q_row_elems,
            forall|t2: int, h: int|
                0 <= t2 < t && 0 <= h < num_heads ==> #[trigger] done(out@, t2, h),
            forall|t2: int, c: int|
                0 <= t2 < t && used <= c < q_row_elems ==> out@[#[trigger] (t2 * q_row_elems + c)]
                    == zero,
        decreases new_tokens - t,
    {
        let last: usize = if past_len + t < total_len {
            past_len + t
        } else {
            total_len - 1
        };
        let ghost base = out@;
        let mut h: usize = 0;
        assert(0 * head_dim == 0);
        while h < num_heads
            invariant
                0 <= t < new_tokens,
                h <= num_heads,
                k_len == k@.len(),
                v_len == v@.len(),
                q_len == q@.len(),
                used == num_heads * head_dim,
                used <= q_row_elems,
                new_tokens * q_row_elems <= usize::MAX,
                total_len * head_dim <= usize::MAX,
                last == last_visible(past_len as nat, t as nat, total_len as nat),
                last < total_len,
                (new_tokens - 1) * q_row_elems + used <= q_len,
                forall|h: int|
                    0 <= h < num_heads ==> {
                        let last = last_visible(
                            past_len as nat,
                            (new_tokens - 1) as nat,
                            total_len as nat,
                        );
                        let head = #[trigger] kv_head_of(kv_head@, h);
                        &&& history_reaches(
                            k@.len(),
                            last,
                            kv_row_elems as nat,
                            head,
                            head_dim as nat,
                        )
                        &&& history_reaches(
                            v@.len(),
                            last,
                            kv_row_elems as nat,
                            head,
                            head_dim as nat,
                        )
                    },
                forall|a: Vec<T>, b: Vec<T>, c: Vec<T>|
                    a@.len() == head_dim ==> #[trigger] call_requires(attend, (a, b, c)),
                forall|a: Vec<T>, b: Vec<T>, c: Vec<T>, r: Vec<T>| #[trigger]
                    call_ensures(attend, (a, b, c), r) && a@.len() == head_dim ==> r@.len() == head_dim,
                base.len() == t * q_row_elems,
                out@.len() == t * q_row_elems + h * head_dim,
                out@.take(base.len() as int) == base,
                forall|h2: int|
                    0 <= h2 < h ==> #[trigger] token_head_done(
                        attend,
                        q@,
                        k@,
                        v@,
                        total_len as nat,
                        past_len as nat,
                        head_dim as nat,
                        q_row_elems as nat,
                        kv_row_elems as nat,
                        kv_head@,
                        out@,
                        t as int,
                        h2,
                    ),
            decreases num_heads - h,
        {
            let head: usize = if h < kv_head.len() {
                kv_head[h]
            } else {
                h
            };
            proof {
                assert(head == kv_head_of(kv_head@, h as int));
                lemma_block_bounds(
                    t as int,
                    h as int,
                    new_tokens as int,
                    num_heads as int,
                    q_row_elems as int,
                    head_dim as int,
                );
                let last_max = last_visible(
                    past_len as nat,
                    (new_tokens - 1) as nat,
                    total_len as nat,
                );
                assert(last * kv_row_elems <= last_max * kv_row_elems) by (nonlinear_arith)
                    requires
                        last <= last_max,
                        0 <= kv_row_elems,
                ;
                assert(head * head_dim + head_dim == (head + 1) * head_dim) by (nonlinear_arith);
                assert(0 <= last * kv_row_elems) by (nonlinear_arith)
                    requires
                        0 <= last,
                        0 <= kv_row_elems,
                ;
                assert((last + 1) * head_dim <= total_len * head_dim) by (nonlinear_arith)
                    requires
                        last + 1 <= total_len,
                        0 <= head_dim,
                ;
                assert((h + 1) * head_dim == h * head_dim + head_dim) by (nonlinear_arith);
                assert(0 <= head * head_dim) by (nonlinear_arith)
                    requires
                        0 <= head,
                        0 <= head_dim,
                ;
            }
            let q_head = copy_range(q, t * q_row_elems + h * head_dim, head_dim);
            let keys = take_strided(k, last + 1, kv_row_elems, head * head_dim, head_dim);
            let values = take_strided(v, last + 1, kv_row_elems, head * head_dim, head_dim);
            let ghost before = out@;
            let ghost args = (q_head, keys, values);
            let block = attend(q_head, keys, values);
            append_all(&mut out, block.as_slice());
            proof {
                assert(call_ensures(attend, args, block));
                assert(head_block(
                    out@,
                    t as int,
                    h as int,
                    q_row_elems as nat,
                    head_dim as nat,
                ) =~= block@);
                assert(attended(
                    attend,
                    head_block(q@, t as int, h as int, q_row_elems as nat, head_dim as nat),
                    visible_rows(k@, last as int, kv_row_elems as nat, head as nat, head_dim as nat),
                    visible_rows(v@, last as int, kv_row_elems as nat, head as nat, head_dim as nat),
                    block@,
                ));
                assert forall|h2: int| 0 <= h2 < h implies #[trigger] token_head_done(
                    attend,
                    q@,
                    k@,
                    v@,
                    total_len as nat,
                    past_len as nat,
                    head_dim as nat,
                    q_row_elems as nat,
                    kv_row_elems as nat,
                    kv_head@,
                    out@,
                    t as int,
                    h2,
                ) by {
                    assert(token_head_done(
                        attend,
                        q@,
                        k@,
                        v@,
                        total_len as nat,
                        past_len as nat,
                        head_dim as nat,
                        q_row_elems as nat,
                        kv_row_elems as nat,
                        kv_head@,
                        before,
                        t as int,
                        h2,
                    ));
                    lemma_block_bounds(
                        t as int,
                        h2,
                        new_tokens as int,
                        h as int,
                        q_row_elems as int,
                        head_dim as int,
                    );
                    assert(head_block(
                        out@,
                        t as int,
                        h2,
                        q_row_elems as nat,
                        head_dim as nat,
                    ) =~= head_block(
                        before,
                        t as int,
                        h2,
                        q_row_elems as nat,
                        head_dim as nat,
                    ));
                }
            }
            h = h + 1;
        }
        let ghost heads = out@;
        let pad = filled(zero, q_row_elems - used);
        append_all(&mut out, pad.as_slice());
        proof {
            assert((t + 1) * q_row_elems == t * q_row_elems + q_row_elems) by (nonlinear_arith);
            assert forall|t2: int, h2: int|
                0 <= t2 < t + 1 && 0 <= h2 < num_heads implies #[trigger] done(out@, t2, h2) by {
                lemma_block_bounds(
                    t2,
                    h2,
                    t + 1,
                    num_heads as int,
                    q_row_elems as int,
                    head_dim as int,
                );
                if t2 < t {
                    assert(done(base, t2, h2));
                    lemma_block_bounds(
                        t2,
                        h2,
                        t as int,
                        num_heads as int,
                        q_row_elems as int,
                        head_dim as int,
                    );
                    assert(head_block(out@, t2, h2, q_row_elems as nat, head_dim as nat)
                        =~= head_block(base, t2, h2, q_row_elems as nat, head_dim as nat)) by {
                        assert(forall|i: int| 0 <= i < base.len() ==> heads[i] == base[i]) by {
                            assert(forall|i: int|
                                0 <= i < base.len() ==> heads.take(base.len() as int)[i]
                                    == heads[i]);
                        }
                    }
                } else {
                    assert(token_head_done(
                        attend,
                        q@,
                        k@,
                        v@,
                        total_len as nat,
                        past_len as nat,
                        head_dim as nat,
                        q_row_elems as nat,
                        kv_row_elems as nat,
                        kv_head@,
                        heads,
                        t as int,
                        h2,
                    ));
                    assert(head_block(out@, t2, h2, q_row_elems as nat, head_dim as nat)
                        =~= head_block(heads, t2, h2, q_row_elems as nat, head_dim as nat));
                }
            }
            assert forall|t2: int, c: int|
                0 <= t2 < t + 1 && used <= c < q_row_elems implies out@[#[trigger] (t2 * q_row_elems
                + c)] == zero by {
                if t2 < t {
                    crate::rows::lemma_cell_in_rows(t2, c, t as int, q_row_elems as int);
                    assert(heads.take(base.len() as int)[t2 * q_row_elems + c] == base[t2
                        * q_row_elems + c]);
                } else {
                    assert(out@[t * q_row_elems + c] == pad@[c - used]);
                }
            }
        }
        t = t + 1;
    }
    proof {
        assert forall|t: int, h: int|
            0 <= t < new_tokens && 0 <= h < num_heads implies #[trigger] token_head_done(
            attend,
            q@,
            k@,
            v@,
            total_len as nat,
            past_len as nat,
            head_dim as nat,
            q_row_elems as nat,
            kv_row_elems as nat,
            kv_head@,
            out@,
            t,
            h,
        ) by {
            assert(done(out@, t, h));
        }
    }
    out
}

/// Softmax attention of every query head of `new_tokens` tokens over the
/// history, with scores kept within a cap where there is one. Columns of a row beyond the heads are zero.
pub fn causal_attention<
    T: Copy,
    F: Fn(ScalarOp, T, T) -> T,
    C: Fn(Number) -> T,
    Z: Fn(Relation, T, T) -> bool,
>(
    x: &Scalars<T, F, C, Z>,
    cap: Option<T>,
    q: &[T],
    k: &[T],
    v: &[T],
    new_tokens: usize,
    total_len: usize,
    past_len: usize,
    num_heads: usize,
    head_dim: usize,
    q_row_elems: usize,
    kv_row_elems: usize,
    kv_head: &[usize],
) -> (out: Vec<T>)
    requires
        x.wf(),
        num_heads * head_dim <= q_row_elems,
        new_tokens * q_row_elems <= usize::MAX,
        past_len + new_tokens <= usize::MAX,
        total_len * head_dim <= usize::MAX,
        new_tokens > 0 ==> total_len > 0,
        new_tokens > 0 ==> (new_tokens - 1) * q_row_elems + num_heads * head_dim <= q@.len(),
        new_tokens > 0 ==> forall|h: int|
            0 <= h < num_heads ==> {
                let last = last_visible(past_len as nat, (new_tokens - 1) as nat, total_len as nat);
                let head = #[trigger] kv_head_of(kv_head@, h);
                &&& history_reaches(k@.len(), last, kv_row_elems as nat, head, head_dim as nat)
                &&& history_reaches(v@.len(), last, kv_row_elems as nat, head, head_dim as nat)
            },
    ensures
        out@.len() == new_tokens * q_row_elems,
        forall|t: int, h: int|
            0 <= t < new_tokens && 0 <= h < num_heads ==> #[trigger] head_block(
                out@,
                t,
                h,
                q_row_elems as nat,
                head_dim as nat,
            ) == x.head_attended(
                cap,
                q@,
                k@,
                v@,
                total_len as nat,
                past_len as nat,
                head_dim as nat,
                q_row_elems as nat,
                kv_row_elems as nat,
                kv_head@,
                t,
                h,
            ),
        forall|t: int, c: int|
            0 <= t < new_tokens && num_heads * head_dim <= c < q_row_elems ==> out@[#[trigger] (t
                * q_row_elems + c)] == x.zero(),
{
    let attend = |a: Vec<T>, b: Vec<T>, c: Vec<T>| -> (r: Vec<T>)
        requires
            a@.len() == head_dim,
        ensures
            r@.len() == head_dim,
            x.attended_rows(cap, a@, b@, c@, r@)
        { attend_rows(x, cap, a.as_slice(), b.as_slice(), c.as_slice()) };
    let out = attend_tokens(
        q,
        k,
        v,
        new_tokens,
        total_len,
        past_len,
        num_heads,
        head_dim,
        q_row_elems,
        kv_row_elems,
        kv_head,
        x.zero(),
        attend,
    );
    proof {
        assert forall|t: int, h: int|
            0 <= t < new_tokens && 0 <= h < num_heads implies #[trigger] head_block(
            out@,
            t,
            h,
            q_row_elems as nat,
            head_dim as nat,
        ) == x.head_attended(
            cap,
            q@,
            k@,
            v@,
            total_len as nat,
            past_len as nat,
            head_dim as nat,
            q_row_elems as nat,
            kv_row_elems as nat,
            kv_head@,
            t,
            h,
        ) by {
            assert(token_head_done(
                attend,
                q@,
                k@,
                v@,
                total_len as nat,
                past_len as nat,
                head_dim as nat,
                q_row_elems as nat,
                kv_row_elems as nat,
                kv_head@,
                out@,
                t,
                h,
            ));
            let last = last_visible(past_len as nat, t as nat, total_len as nat);
            let head = kv_head_of(kv_head@, h);
            lemma_block_bounds(
                t,
                h,
                new_tokens as int,
                num_heads as int,
                q_row_elems as int,
                head_dim as int,
            );
            let seen = (last + 1) as nat;
            let query = head_block(q@, t, h, q_row_elems as nat, head_dim as nat);
            let keys = visible_rows(k@, last, kv_row_elems as nat, head, head_dim as nat);
            let values = visible_rows(v@, last, kv_row_elems as nat, head, head_dim as nat);
            let block = head_block(out@, t, h, q_row_elems as nat, head_dim as nat);
            let (a, b, c, r) = choose|a: Vec<T>, b: Vec<T>, c: Vec<T>, r: Vec<T>|
                a@ == query && b@ == keys && c@ == values && r@ == block
                    && #[trigger] call_ensures(attend, (a, b, c), r);
            assert(query.len() == head_dim);
            assert(keys.len() == seen * head_dim && values.len() == seen * head_dim);
            assert(x.attended_rows(cap, a@, b@, c@, r@));
            assert(r@ == x.attended(cap, a@, b@, c@, seen));
        }
    }
    out
}

impl<T: Copy, F: Fn(ScalarOp, T, T) -> T, C: Fn(Number) -> T, Z: Fn(Relation, T, T) -> bool> Scalars<T, F, C, Z> {
    /// What head `h` of token `t` gives over the rows that the token may see,
    /// its scores kept within a cap where there is one.
    pub open spec fn head_attended(
        &self,
        cap: Option<T>,
        q: Seq<T>,
        k: Seq<T>,
        v: Seq<T>,
        total_len: nat,
        past_len: nat,
        head_dim: nat,
        q_row: nat,
        kv_row: nat,
        kv_head: Seq<usize>,
        t: int,
        h: int,
    ) -> Seq<T> {
        let last = last_visible(past_len, t as nat, total_len);
        let head = kv_head_of(kv_head, h);
        self.attended(
            cap,
            head_block(q, t, h, q_row, head_dim),
            visible_rows(k, last, kv_row, head, head_dim),
            visible_rows(v, last, kv_row, head, head_dim),
            (last + 1) as nat,
        )
    }
}

/// Future tokens stay unseen: two histories that agree on the rows up to a
/// query's own position show that query the same keys.
pub proof fn law_future_is_hidden<T>(
    history: Seq<T>,
    other: Seq<T>,
    past_len: nat,
    t: nat,
    total_len: nat,
    row: nat,
    head: nat,
    head_dim: nat,
)
    requires
        past_len + t < total_len,
        (head + 1) * head_dim <= row,
        history.len() == total_len * row,
        other.len() == total_len * row,
        history.take(((past_len + t + 1) * row) as int) == other.take(
            ((past_len + t + 1) * row) as int,
        ),
    ensures
        visible_rows(history, last_visible(past_len, t, total_len), row, head, head_dim)
            == visible_rows(other, last_visible(past_len, t, total_len), row, head, head_dim),
{
    let last = last_visible(past_len, t, total_len);
    let seen = (last + 1) * row;
    let a = visible_rows(history, last, row, head, head_dim);
    let b = visible_rows(other, last, row, head, head_dim);
    assert(seen <= total_len * row) by (nonlinear_arith)
        requires
            last + 1 <= total_len,
            seen == (last + 1) * row,
            0 <= row,
    ;
    assert(head * head_dim + head_dim == (head + 1) * head_dim) by (nonlinear_arith);
    assert forall|i: int| 0 <= i < a.len() implies a[i] == b[i] by {
        crate::rows::lemma_flat_index(i, last + 1, head_dim as int);
        let r = i / head_dim as int;
        let c = i % head_dim as int;
        crate::rows::lemma_cell_in_rows(r, head * head_dim + c, last + 1, row as int);
        let at = r * row + head * head_dim + c;
        assert(history.take(seen)[at] == history[at]);
        assert(other.take(seen)[at] == other[at]);
    }
    assert(a =~= b);
}

/// Decode sees what prefill saw: a token at absolute position `past_len + t`
/// sees the same rows whether it comes in one call with its predecessors or
/// alone after they were cached, whatever rows the history gains later.
pub proof fn law_decode_sees_prefill_rows<T>(
    history: Seq<T>,
    later: Seq<T>,
    past_len: nat,
    t: nat,
    row: nat,
    head: nat,
    head_dim: nat,
)
    requires
        history.len() == (past_len + t + 1) * row,
        (head + 1) * head_dim <= row,
    ensures
        visible_rows(
            history + later,
            last_visible(0, past_len + t, past_len + t + 1),
            row,
            head,
            head_dim,
        ) == visible_rows(
            history,
            last_visible(past_len + t, 0, past_len + t + 1),
            row,
            head,
            head_dim,
        ),
{
    let last = (past_len + t) as int;
    let a = visible_rows(history + later, last, row, head, head_dim);
    let b = visible_rows(history, last, row, head, head_dim);
    assert(head * head_dim + head_dim == (head + 1) * head_dim) by (nonlinear_arith);
    assert forall|i: int| 0 <= i < a.len() implies a[i] == b[i] by {
        crate::rows::lemma_flat_index(i, last + 1, head_dim as int);
        let r = i / head_dim as int;
        let c = i % head_dim as int;
        crate::rows::lemma_cell_in_rows(r, head * head_dim + c, last + 1, row as int);
    }
    assert(a =~= b);
}

/// Appending the rows of two calls leaves the history that appending them in
/// one call leaves.
pub proof fn law_append_in_two_calls<T>(past: Seq<T>, first: Seq<T>, second: Seq<T>)
    ensures
        (past + first) + second == past + (first + second),
{
    assert((past + first) + second =~= past + (first + second));
}

} // verus!
