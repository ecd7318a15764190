//! The heads of latent attention: each reads its own keys and values.

use crate::kimi_k3::{row, KimiK3Mla, MlaCache};
use crate::kimi_run::{MlaPart, MlaRows};
use crate::rows::{
    columns, law_columns_cell, lemma_cell_coordinates, lemma_flat_index, lemma_row_bounds,
};
use crate::scalar::{Number, Relation, ScalarOp, Scalars};
use crate::surroundings::Surroundings;
use vstd::prelude::*;

verus! {

/// Rows `at`, `at + step`, and so on of one buffer are the first `n` rows of
/// another, from row `from` on and `by` rows apart.
pub open spec fn same_every<T>(
    data: Seq<T>,
    at: nat,
    step: nat,
    other: Seq<T>,
    from: nat,
    by: nat,
    n: nat,
    width: nat,
) -> bool {
    forall|s: nat|
        s < n ==> row(data, (s * step + at) as int, width) == row(
            other,
            #[trigger] (s * by + from) as int,
            width,
        )
}

/// The columns of a head are the rows of that head.
proof fn lemma_head_columns<T>(
    data: Seq<T>,
    heads: nat,
    h: nat,
    other: Seq<T>,
    others: nat,
    i: nat,
    n: nat,
    width: nat,
)
    requires
        h < heads,
        i < others,
        same_every(data, h, heads, other, i, others, n, width),
        n * (heads * width) <= data.len(),
        n * (others * width) <= other.len(),
    ensures
        columns(data, n, heads * width, h * width, width) == columns(
            other,
            n,
            others * width,
            i * width,
            width,
        ),
{
    let a = columns(data, n, heads * width, h * width, width);
    let b = columns(other, n, others * width, i * width, width);
    assert forall|p: int| 0 <= p < a.len() implies a[p] == b[p] by {
        lemma_flat_index(p, n as int, width as int);
        let s = (p / width as int) as nat;
        let c = p % width as int;
        assert(row(data, (s * heads + h) as int, width) == row(
            other,
            (s * others + i) as int,
            width,
        ));
        lemma_place(s, heads, h, n, width);
        lemma_place(s, others, i, n, width);
        assert(row(data, (s * heads + h) as int, width)[c] == data[s * (heads * width) + h * width
            + c]);
        assert(row(other, (s * others + i) as int, width)[c] == other[s * (others * width) + i
            * width + c]);
    }
    assert(a =~= b);
}

proof fn lemma_place(s: nat, heads: nat, h: nat, n: nat, width: nat)
    requires
        h < heads,
        s < n,
    ensures
        (s * heads + h) * width == s * (heads * width) + h * width,
        0 <= (s * heads + h) * width,
        (s * heads + h) * width + width <= n * (heads * width),
{
    assert((s * heads + h) * width == s * (heads * width) + h * width) by (nonlinear_arith);
    assert(h * width + width <= heads * width) by (nonlinear_arith)
        requires
            h < heads,
    ;
    assert(s * (heads * width) + heads * width <= n * (heads * width)) by (nonlinear_arith)
        requires
            s < n,
    ;
    assert(0 <= (s * heads + h) * width) by (nonlinear_arith);
}

/// Heads run by themselves: head `h` of token `t` gives what the only head of a
/// layer gives for that token, whose queries, keys and values are those of head
/// `h`, token by token.
pub proof fn law_mla_heads_run_alone<
    T: Copy,
    F: Fn(ScalarOp, T, T) -> T,
    C: Fn(Number) -> T,
    Z: Fn(Relation, T, T) -> bool,
>(
    x: &Scalars<T, F, C, Z>,
    mla: &KimiK3Mla,
    alone: &KimiK3Mla,
    q_nope: Seq<T>,
    q_rope: Seq<T>,
    k: Seq<T>,
    k_rope: Seq<T>,
    v: Seq<T>,
    own_nope: Seq<T>,
    own_rope: Seq<T>,
    own_k: Seq<T>,
    own_v: Seq<T>,
    offset: nat,
    h: nat,
    t: nat,
)
    requires
        h < mla.num_heads,
        alone.num_heads == 1,
        alone.qk_nope_head_dim == mla.qk_nope_head_dim,
        alone.qk_rope_head_dim == mla.qk_rope_head_dim,
        alone.v_head_dim == mla.v_head_dim,
        ({
            let heads = mla.num_heads as nat;
            let (nope, rope, vd) = (
                mla.qk_nope_head_dim as nat,
                mla.qk_rope_head_dim as nat,
                mla.v_head_dim as nat,
            );
            let seen = offset + t + 1;
            &&& row(own_nope, t as int, nope) == row(q_nope, (t * heads + h) as int, nope)
            &&& row(own_rope, t as int, rope) == row(q_rope, (t * heads + h) as int, rope)
            &&& same_every(k, h, heads, own_k, 0, 1, seen, nope)
            &&& same_every(v, h, heads, own_v, 0, 1, seen, vd)
            &&& seen * (heads * nope) <= k.len()
            &&& seen * (heads * vd) <= v.len()
            &&& seen * nope <= own_k.len()
            &&& seen * vd <= own_v.len()
        }),
    ensures
        x.mla_row(
            mla,
            q_nope,
            q_rope,
            k,
            k_rope,
            v,
            offset,
            (t * mla.num_heads + h) as int,
        ) == x.mla_row(alone, own_nope, own_rope, own_k, k_rope, own_v, offset, t as int),
{
    let heads = mla.num_heads as nat;
    let (nope, vd) = (mla.qk_nope_head_dim as nat, mla.v_head_dim as nat);
    let seen = offset + t + 1;
    lemma_cell_coordinates(t as int, h as int, heads as int);
    lemma_cell_coordinates(t as int, 0, 1);
    assert(1 * nope == nope && 1 * vd == vd);
    lemma_head_columns(k, heads, h, own_k, 1, 0, seen, nope);
    lemma_head_columns(v, heads, h, own_v, 1, 0, seen, vd);
}

/// A head reads its own channels alone: whatever the keys and values of the
/// other heads are, head `h` of token `t` gives the same.
pub proof fn law_mla_heads_read_their_own<
    T: Copy,
    F: Fn(ScalarOp, T, T) -> T,
    C: Fn(Number) -> T,
    Z: Fn(Relation, T, T) -> bool,
>(
    x: &Scalars<T, F, C, Z>,
    mla: &KimiK3Mla,
    q_nope: Seq<T>,
    q_rope: Seq<T>,
    k: Seq<T>,
    k_rope: Seq<T>,
    v: Seq<T>,
    other_k: Seq<T>,
    other_v: Seq<T>,
    offset: nat,
    h: nat,
    t: nat,
)
    requires
        h < mla.num_heads,
        ({
            let heads = mla.num_heads as nat;
            let (nope, vd) = (mla.qk_nope_head_dim as nat, mla.v_head_dim as nat);
            let seen = offset + t + 1;
            &&& same_every(k, h, heads, other_k, h, heads, seen, nope)
            &&& same_every(v, h, heads, other_v, h, heads, seen, vd)
            &&& seen * (heads * nope) <= k.len()
            &&& seen * (heads * vd) <= v.len()
            &&& seen * (heads * nope) <= other_k.len()
            &&& seen * (heads * vd) <= other_v.len()
        }),
    ensures
        x.mla_row(
            mla,
            q_nope,
            q_rope,
            k,
            k_rope,
            v,
            offset,
            (t * mla.num_heads + h) as int,
        ) == x.mla_row(
            mla,
            q_nope,
            q_rope,
            other_k,
            k_rope,
            other_v,
            offset,
            (t * mla.num_heads + h) as int,
        ),
{
    let heads = mla.num_heads as nat;
    let (nope, vd) = (mla.qk_nope_head_dim as nat, mla.v_head_dim as nat);
    let seen = offset + t + 1;
    lemma_cell_coordinates(t as int, h as int, heads as int);
    lemma_head_columns(k, heads, h, other_k, heads, h, seen, nope);
    lemma_head_columns(v, heads, h, other_v, heads, h, seen, vd);
}

impl<T: Copy, F: Fn(ScalarOp, T, T) -> T, C: Fn(Number) -> T, Z: Fn(Relation, T, T) -> bool> Scalars<T, F, C, Z> {
    /// The share of a sum in itself and the floor that it is divided with.
    pub open spec fn floored_share(&self, sum: T) -> T {
        self.over(sum, self.plus(sum, self.tiny()))
    }

    /// What the exponentials of the scores of head `h` of token `t` add up to.
    pub open spec fn mla_weight(
        &self,
        mla: &KimiK3Mla,
        q_nope: Seq<T>,
        q_rope: Seq<T>,
        k: Seq<T>,
        k_rope: Seq<T>,
        offset: nat,
        h: nat,
        t: nat,
    ) -> T {
        let heads = mla.num_heads as nat;
        let (nope, rope) = (mla.qk_nope_head_dim as nat, mla.qk_rope_head_dim as nat);
        let seen = offset + t + 1;
        self.row_sum(
            self.exponentials_of(
                self.part_scores(
                    row(q_nope, (t * heads + h) as int, nope),
                    row(q_rope, (t * heads + h) as int, rope),
                    columns(k, seen, heads * nope, h * nope, nope),
                    k_rope.take((seen * rope) as int),
                    seen,
                ),
            ),
        )
    }
}

/// Weights that are divided by their sum and a floor add up to the share of the
/// sum in both.
pub proof fn law_floored_weights_add_up<
    T: Copy,
    F: Fn(ScalarOp, T, T) -> T,
    C: Fn(Number) -> T,
    Z: Fn(Relation, T, T) -> bool,
>(x: &Scalars<T, F, C, Z>, scores: Seq<T>)
    requires
        x.exact(),
        x.unit(x.plus(x.row_sum(x.exponentials_of(scores)), x.tiny())),
    ensures
        x.row_sum(x.softmax_of(scores, Some(x.tiny()))) == x.floored_share(
            x.row_sum(x.exponentials_of(scores)),
        ),
{
    let e = x.exponentials_of(scores);
    let sum = x.row_sum(e);
    let total = x.plus(sum, x.tiny());
    let w = x.softmax_of(scores, Some(x.tiny()));
    let n = scores.len();
    assert forall|i: int| 0 <= i < n implies #[trigger] e[i] == x.times(total, w[i]) by {
        assert(x.times(x.over(e[i], total), total) == e[i]);
        x.times_comm(w[i], total);
    }
    x.gathered_times(n, total, |i: int| w[i], |i: int| e[i]);
    x.times_comm(total, x.row_sum(w));
    let share = x.floored_share(sum);
    assert(x.times(x.over(sum, total), total) == sum);
    x.unit_cancel(x.row_sum(w), share, total);
}

/// A head whose visible values are all the same row gives that row, up to the
/// floor of the softmax: every element is multiplied by one and the same share.
pub proof fn law_mla_head_keeps_a_common_row<
    T: Copy,
    F: Fn(ScalarOp, T, T) -> T,
    C: Fn(Number) -> T,
    Z: Fn(Relation, T, T) -> bool,
>(
    x: &Scalars<T, F, C, Z>,
    mla: &KimiK3Mla,
    q_nope: Seq<T>,
    q_rope: Seq<T>,
    k: Seq<T>,
    k_rope: Seq<T>,
    v: Seq<T>,
    value: Seq<T>,
    offset: nat,
    h: nat,
    t: nat,
)
    requires
        x.exact(),
        x.unit(
            x.plus(x.mla_weight(mla, q_nope, q_rope, k, k_rope, offset, h, t), x.tiny()),
        ),
        h < mla.num_heads,
        value.len() == mla.v_head_dim,
        (offset + t + 1) * (mla.num_heads * mla.v_head_dim) <= v.len(),
        forall|s: nat|
            s < offset + t + 1 ==> row(
                v,
                #[trigger] (s * mla.num_heads + h) as int,
                mla.v_head_dim as nat,
            ) == value,
    ensures
        x.mla_row(
            mla,
            q_nope,
            q_rope,
            k,
            k_rope,
            v,
            offset,
            (t * mla.num_heads + h) as int,
        ) == Seq::new(
            mla.v_head_dim as nat,
            |d: int|
                x.times(
                    value[d],
                    x.floored_share(
                        x.mla_weight(mla, q_nope, q_rope, k, k_rope, offset, h, t),
                    ),
                ),
        ),
{
    let heads = mla.num_heads as nat;
    let (nope, rope, vd) = (
        mla.qk_nope_head_dim as nat,
        mla.qk_rope_head_dim as nat,
        mla.v_head_dim as nat,
    );
    let seen = offset + t + 1;
    let r = (t * heads + h) as int;
    lemma_cell_coordinates(t as int, h as int, heads as int);
    let keys = columns(k, seen, heads * nope, h * nope, nope);
    let values = columns(v, seen, heads * vd, h * vd, vd);
    let scores = x.part_scores(
        row(q_nope, r, nope),
        row(q_rope, r, rope),
        keys,
        k_rope.take((seen * rope) as int),
        seen,
    );
    let w = x.softmax_of(scores, Some(x.tiny()));
    let sum = x.row_sum(x.exponentials_of(scores));
    assert(sum == x.mla_weight(mla, q_nope, q_rope, k, k_rope, offset, h, t));
    law_floored_weights_add_up(x, scores);
    let out = x.mla_row(mla, q_nope, q_rope, k, k_rope, v, offset, r);
    assert forall|d: int| 0 <= d < vd implies #[trigger] out[d] == x.times(
        value[d],
        x.floored_share(sum),
    ) by {
        let part = |s: int| x.times(w[s], values[s * vd + d]);
        assert forall|s: int| 0 <= s < seen implies #[trigger] part(s) == x.times(
            value[d],
            w[s],
        ) by {
            law_columns_cell(v, seen, heads * vd, h * vd, vd, s, d);
            assert(row(v, (s as nat * heads + h) as int, vd) == value);
            lemma_place(s as nat, heads, h, seen, vd);
            assert(row(v, (s * heads + h) as int, vd)[d] == v[(s * heads + h) * vd + d]);
            x.times_comm(w[s], value[d]);
        }
        x.gathered_times(seen, value[d], |s: int| w[s], part);
    }
    assert(out =~= Seq::new(vd, |d: int| x.times(value[d], x.floored_share(sum))));
}

/// Over a history of one token, every head gives its own value block of that
/// token, up to the floor of the softmax: head `h` the `v_head_dim` elements that
/// lie behind its keys in its block of the projected row.
pub proof fn law_mla_gives_the_only_value<
    T: Copy,
    F: Fn(ScalarOp, T, T) -> T,
    C: Fn(Number) -> T,
    Z: Fn(Relation, T, T) -> bool,
    G: Fn(MlaPart, Vec<T>) -> Vec<T>,
    R: Fn(Vec<T>, Vec<u32>) -> Vec<T>,
    H,
>(
    x: &Scalars<T, F, C, Z>,
    outside: &Surroundings<G, R, H>,
    mla: &KimiK3Mla,
    position: u32,
    after: MlaCache<T>,
    input: Seq<T>,
    rows: MlaRows<T>,
    out: Seq<T>,
    h: nat,
)
    requires
        x.exact(),
        h < mla.num_heads,
        x.mla_ran(outside, mla, seq![position], None, after, input, rows, out),
        x.unit(
            x.plus(
                x.mla_weight(
                    mla,
                    mla.plain_queries(rows.q_full, 1),
                    rows.q_rope,
                    after.k@,
                    after.rope@,
                    0,
                    h,
                    0,
                ),
                x.tiny(),
            ),
        ),
    ensures
        forall|d: int|
            0 <= d < mla.v_head_dim ==> #[trigger] rows.attended[h * mla.v_head_dim + d]
                == x.times(
                row(
                    rows.kv_b,
                    h as int,
                    (mla.qk_nope_head_dim + mla.v_head_dim) as nat,
                )[mla.qk_nope_head_dim + d],
                x.floored_share(
                    x.mla_weight(
                        mla,
                        mla.plain_queries(rows.q_full, 1),
                        rows.q_rope,
                        after.k@,
                        after.rope@,
                        0,
                        h,
                        0,
                    ),
                ),
            ),
{
    let heads = mla.num_heads as nat;
    let (nope, vd) = (mla.qk_nope_head_dim as nat, mla.v_head_dim as nat);
    let width = nope + vd;
    let value = row(rows.kv_b, h as int, width).subrange(nope as int, width as int);
    assert(1 * heads == heads);
    assert(1 * (heads * vd) == heads * vd);
    lemma_row_bounds(h as int, heads as int, width as int);
    lemma_row_bounds(h as int, heads as int, vd as int);
    assert(after.v@ =~= columns(rows.kv_b, heads, width, nope, vd));
    assert(heads * vd <= after.v@.len());
    assert forall|s: nat| s < 1 implies row(after.v@, #[trigger] (s * heads + h) as int, vd)
        == value by {
        assert(s * heads + h == h) by (nonlinear_arith)
            requires
                s == 0,
        ;
        let own = row(after.v@, h as int, vd);
        assert forall|d: int| 0 <= d < vd implies own[d] == value[d] by {
            law_columns_cell(rows.kv_b, heads, width, nope, vd, h as int, d);
        }
        assert(own =~= value);
    }
    let r = h as int;
    assert(0 * heads + h == h);
    let sum = x.mla_weight(
        mla,
        mla.plain_queries(rows.q_full, 1),
        rows.q_rope,
        after.k@,
        after.rope@,
        0,
        h,
        0,
    );
    law_mla_head_keeps_a_common_row(
        x,
        mla,
        mla.plain_queries(rows.q_full, 1),
        rows.q_rope,
        after.k@,
        after.rope@,
        after.v@,
        value,
        0,
        h,
        0,
    );
    assert(mla.cached::<T>(None) == 0);
    assert(row(rows.attended, r, vd) == x.mla_row(
        mla,
        mla.plain_queries(rows.q_full, 1),
        rows.q_rope,
        after.k@,
        after.rope@,
        after.v@,
        0,
        r,
    ));
    assert forall|d: int| 0 <= d < vd implies #[trigger] rows.attended[h * vd + d] == x.times(
        row(rows.kv_b, h as int, width)[nope + d],
        x.floored_share(sum),
    ) by {
        assert(row(rows.attended, r, vd)[d] == rows.attended[h * vd + d]);
        assert(value[d] == row(rows.kv_b, h as int, width)[nope + d]);
    }
    assert(h * mla.v_head_dim == h * vd);
}

/// The parts that projected rows are split into lie behind one another: of every
/// head's query first the part without rotation and then the rotated part, and
/// of every latent row first what keys and values are made from and then the
/// rotated key part.
pub proof fn law_mla_parts_cover_the_rows<T>(
    mla: &KimiK3Mla,
    q_full: Seq<T>,
    latent: Seq<T>,
    tokens: nat,
    r: nat,
    t: nat,
)
    requires
        r < tokens * mla.num_heads,
        t < tokens,
        q_full.len() == (tokens * mla.num_heads) * (mla.qk_nope_head_dim + mla.qk_rope_head_dim),
        latent.len() == tokens * (mla.kv_lora_rank + mla.qk_rope_head_dim),
    ensures
        row(
            q_full,
            r as int,
            (mla.qk_nope_head_dim + mla.qk_rope_head_dim) as nat,
        ) == row(mla.plain_queries(q_full, tokens), r as int, mla.qk_nope_head_dim as nat) + row(
            mla.turned_queries(q_full, tokens),
            r as int,
            mla.qk_rope_head_dim as nat,
        ),
        row(latent, t as int, (mla.kv_lora_rank + mla.qk_rope_head_dim) as nat) == row(
            mla.kv_source(latent, tokens),
            t as int,
            mla.kv_lora_rank as nat,
        ) + row(mla.turned_keys(latent, tokens), t as int, mla.qk_rope_head_dim as nat),
{
    lemma_two_parts(
        q_full,
        tokens * mla.num_heads as nat,
        mla.qk_nope_head_dim as nat,
        mla.qk_rope_head_dim as nat,
        r,
    );
    lemma_two_parts(
        latent,
        tokens,
        mla.kv_lora_rank as nat,
        mla.qk_rope_head_dim as nat,
        t,
    );
}

proof fn lemma_two_parts<T>(data: Seq<T>, n: nat, a: nat, b: nat, r: nat)
    requires
        r < n,
        data.len() == n * (a + b),
    ensures
        row(data, r as int, a + b) == row(columns(data, n, a + b, 0, a), r as int, a) + row(
            columns(data, n, a + b, a, b),
            r as int,
            b,
        ),
{
    let whole = row(data, r as int, a + b);
    let first = columns(data, n, a + b, 0, a);
    let second = columns(data, n, a + b, a, b);
    lemma_row_bounds(r as int, n as int, (a + b) as int);
    lemma_row_bounds(r as int, n as int, a as int);
    lemma_row_bounds(r as int, n as int, b as int);
    let both = row(first, r as int, a) + row(second, r as int, b);
    assert forall|i: int| 0 <= i < a + b implies whole[i] == both[i] by {
        if i < a {
            law_columns_cell(data, n, a + b, 0, a, r as int, i);
        } else {
            law_columns_cell(data, n, a + b, a, b, r as int, i - a);
        }
    }
    assert(whole =~= both);
}

/// Projected keys and values lie head by head: every head's block of a row is its
/// keys, which join the history of keys, and then its values, which join that of
/// values.
pub proof fn law_mla_keys_lie_before_values<
    T: Copy,
    F: Fn(ScalarOp, T, T) -> T,
    C: Fn(Number) -> T,
    Z: Fn(Relation, T, T) -> bool,
    G: Fn(MlaPart, Vec<T>) -> Vec<T>,
    R: Fn(Vec<T>, Vec<u32>) -> Vec<T>,
    H,
>(
    x: &Scalars<T, F, C, Z>,
    outside: &Surroundings<G, R, H>,
    mla: &KimiK3Mla,
    positions: Seq<u32>,
    after: MlaCache<T>,
    input: Seq<T>,
    rows: MlaRows<T>,
    out: Seq<T>,
    r: nat,
)
    requires
        r < positions.len() * mla.num_heads,
        x.mla_ran(outside, mla, positions, None, after, input, rows, out),
    ensures
        row(rows.kv_b, r as int, (mla.qk_nope_head_dim + mla.v_head_dim) as nat) == row(
            after.k@,
            r as int,
            mla.qk_nope_head_dim as nat,
        ) + row(after.v@, r as int, mla.v_head_dim as nat),
{
    let n = positions.len() * mla.num_heads as nat;
    let (nope, vd) = (mla.qk_nope_head_dim as nat, mla.v_head_dim as nat);
    assert(after.k@ =~= columns(rows.kv_b, n, nope + vd, 0, nope));
    assert(after.v@ =~= columns(rows.kv_b, n, nope + vd, nope, vd));
    lemma_two_parts(rows.kv_b, n, nope, vd, r);
}

/// Rows of `a` and rows of `b` channels lie side by side in rows of both.
pub open spec fn joined_rows<T>(
    first: Seq<T>,
    a: nat,
    second: Seq<T>,
    b: nat,
    both: Seq<T>,
    n: nat,
) -> bool {
    &&& forall|t: int, i: int|
        0 <= t < n && 0 <= i < a ==> #[trigger] first[t * a + i] == both[t * (a + b) + i]
    &&& forall|t: int, i: int|
        0 <= t < n && 0 <= i < b ==> #[trigger] second[t * b + i] == both[t * (a + b) + (a + i)]
}

impl<T: Copy, F: Fn(ScalarOp, T, T) -> T, C: Fn(Number) -> T, Z: Fn(Relation, T, T) -> bool> Scalars<T, F, C, Z> {
    proof fn lemma_sum_goes_on(
        &self,
        n: nat,
        m: nat,
        all: spec_fn(int) -> T,
        first: spec_fn(int) -> T,
        second: spec_fn(int) -> T,
    )
        requires
            self.ring(),
            forall|i: int| 0 <= i < n ==> #[trigger] first(i) == all(i),
            forall|i: int| 0 <= i < m ==> #[trigger] second(i) == all(n + i),
        ensures
            self.gathered(self.zero(), n + m, all) == self.plus(
                self.gathered(self.zero(), n, first),
                self.gathered(self.zero(), m, second),
            ),
        decreases m,
    {
        if m == 0 {
            self.lemma_gathered_same(self.zero(), n, first, all);
            self.plus_zero(self.gathered(self.zero(), n, first));
        } else {
            let less = (m - 1) as nat;
            self.lemma_sum_goes_on(n, less, all, first, second);
            assert(second(m - 1) == all(n + (m - 1)));
            let (p, q) = (
                self.gathered(self.zero(), n, first),
                self.gathered(self.zero(), less, second),
            );
            self.plus_assoc(p, q, second(m - 1));
        }
    }
}

/// Scores of queries and keys in two parts are the scores of whole rows, in which
/// both parts lie side by side: both parts count, and the width of a row is that of
/// both.
pub proof fn law_scores_in_parts_are_scores_of_whole_rows<
    T: Copy,
    F: Fn(ScalarOp, T, T) -> T,
    C: Fn(Number) -> T,
    Z: Fn(Relation, T, T) -> bool,
>(
    x: &Scalars<T, F, C, Z>,
    q_nope: Seq<T>,
    q_rope: Seq<T>,
    k_nope: Seq<T>,
    k_rope: Seq<T>,
    keys: Seq<T>,
    n: nat,
)
    requires
        x.ring(),
        joined_rows(k_nope, q_nope.len(), k_rope, q_rope.len(), keys, n),
    ensures
        x.part_scores(q_nope, q_rope, k_nope, k_rope, n) == x.head_scores(
            None,
            q_nope + q_rope,
            keys,
            n,
        ),
{
    let (a, b) = (q_nope.len(), q_rope.len());
    let q = q_nope + q_rope;
    let parts = x.part_scores(q_nope, q_rope, k_nope, k_rope, n);
    let whole = x.head_scores(None, q, keys, n);
    assert forall|t: int| 0 <= t < n implies parts[t] == whole[t] by {
        let all = |d: int| x.times(q[d], keys[t * q.len() + d]);
        let first = |d: int| x.times(q_nope[d], k_nope[t * a + d]);
        let second = |d: int| x.times(q_rope[d], k_rope[t * b + d]);
        assert forall|i: int| 0 <= i < a implies #[trigger] first(i) == all(i) by {
            assert(k_nope[t * a + i] == keys[t * (a + b) + i]);
        }
        assert forall|i: int| 0 <= i < b implies #[trigger] second(i) == all(a + i) by {
            assert(k_rope[t * b + i] == keys[t * (a + b) + (a + i)]);
            assert(q[a + i] == q_rope[i]);
        }
        x.lemma_sum_goes_on(a, b, all, first, second);
    }
    assert(parts =~= whole);
}

} // verus!
