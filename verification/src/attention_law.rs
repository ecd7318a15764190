//! The heads of causal attention: each attends by itself, over the keys and
//! values of its own group.

use crate::block_program::AttentionDesign;
use crate::falcon_h1::expanded;
use crate::head_map::{grouped_heads, law_head_tables_agree, spread_heads};
use crate::kv_attention::{head_block, last_visible, visible_rows};
use crate::lfm2_run::head_positions;
use crate::minicpm::part;
use crate::numeric::Real;
use crate::rows::{law_columns_cell, lemma_cell_coordinates, lemma_flat_index, lemma_row_bounds};
use crate::scalar::{Number, Relation, ScalarOp, Scalars};
use crate::softmax_law::law_attention_keeps_a_common_row;
use vstd::prelude::*;

verus! {

/// The key-value head of head `r` of run `j`.
proof fn lemma_spread_run(j: nat, r: nat, g: nat, kv_heads: nat)
    requires
        r < g,
        j < kv_heads,
        g * kv_heads <= usize::MAX,
    ensures
        j * g + r < g * kv_heads,
        spread_heads(g * kv_heads, kv_heads)[(j * g + r) as int] == j,
{
    let (heads, h) = (g * kv_heads, j * g + r);
    assert(h < heads) by (nonlinear_arith)
        requires
            h == j * g + r,
            heads == g * kv_heads,
            r < g,
            j < kv_heads,
    ;
    vstd::arithmetic::mul::lemma_mul_is_commutative(g as int, kv_heads as int);
    vstd::arithmetic::div_mod::lemma_mod_multiples_basic(g as int, kv_heads as int);
    vstd::arithmetic::div_mod::lemma_div_multiples_vanish(g as int, kv_heads as int);
    law_head_tables_agree(heads, kv_heads);
    lemma_cell_coordinates(j as int, r as int, g as int);
    assert(kv_heads <= heads) by (nonlinear_arith)
        requires
            heads == g * kv_heads,
            g > 0,
    ;
    assert(grouped_heads(heads, kv_heads)[h as int] == j);
}

/// Columns `from ..` of the rows of one buffer are columns `at ..` of the rows of
/// another.
pub open spec fn same_columns<T>(
    data: Seq<T>,
    width: nat,
    from: nat,
    other: Seq<T>,
    other_width: nat,
    at: nat,
    rows: nat,
    len: nat,
) -> bool {
    forall|s: int, d: int|
        0 <= s < rows && 0 <= d < len ==> #[trigger] data[s * width + from + d] == other[s
            * other_width + at + d]
}

proof fn lemma_same_visible<T>(
    k: Seq<T>,
    kv_row: nat,
    head: nat,
    other: Seq<T>,
    other_row: nat,
    other_head: nat,
    last: int,
    rows: nat,
    dim: nat,
)
    requires
        0 <= last < rows,
        same_columns(k, kv_row, head * dim, other, other_row, other_head * dim, rows, dim),
    ensures
        visible_rows(k, last, kv_row, head, dim) == visible_rows(
            other,
            last,
            other_row,
            other_head,
            dim,
        ),
{
    let a = visible_rows(k, last, kv_row, head, dim);
    let b = visible_rows(other, last, other_row, other_head, dim);
    assert forall|i: int| 0 <= i < a.len() implies a[i] == b[i] by {
        lemma_flat_index(i, last + 1, dim as int);
        let (s, d) = (i / dim as int, i % dim as int);
        assert(k[s * kv_row + head * dim + d] == other[s * other_row + other_head * dim + d]);
    }
    assert(a =~= b);
}

/// Heads attend by themselves: in a design whose heads share key-value heads in
/// runs of `g`, head `r` of run `j` gives what the only head of a design gives
/// whose queries are that head's, and whose keys and values are those of
/// key-value head `j`.
pub proof fn law_heads_attend_alone<
    T: Copy,
    F: Fn(ScalarOp, T, T) -> T,
    C: Fn(Number) -> T,
    Z: Fn(Relation, T, T) -> bool,
>(
    x: &Scalars<T, F, C, Z>,
    design: AttentionDesign,
    alone: AttentionDesign,
    g: nat,
    j: nat,
    r: nat,
    tokens: nat,
    past: nat,
    q: Seq<T>,
    k: Seq<T>,
    v: Seq<T>,
    out: Seq<T>,
    own_q: Seq<T>,
    own_k: Seq<T>,
    own_v: Seq<T>,
    own: Seq<T>,
    t: int,
    d: int,
)
    requires
        design.heads == g * design.kv_heads,
        alone == (AttentionDesign { heads: 1, kv_heads: 1, ..design }),
        j < design.kv_heads,
        r < g,
        0 <= t < tokens,
        0 <= d < design.head_dim,
        ({
            let dim = design.head_dim as nat;
            let (row, kv_row) = (design.heads as nat * dim, design.kv_heads as nat * dim);
            let all = past + tokens;
            &&& q.len() == tokens * row
            &&& own_q.len() == tokens * dim
            &&& same_columns(q, row, (j * g + r) * dim, own_q, dim, 0, tokens, dim)
            &&& same_columns(k, kv_row, j * dim, own_k, dim, 0, all, dim)
            &&& same_columns(v, kv_row, j * dim, own_v, dim, 0, all, dim)
        }),
        x.causally_attended(tokens, past, design, q, k, v, out),
        x.causally_attended(tokens, past, alone, own_q, own_k, own_v, own),
    ensures
        out[t * (design.heads * design.head_dim) + (j * g + r) * design.head_dim + d] == own[t
            * design.head_dim + d],
{
    let dim = design.head_dim as nat;
    let heads = design.heads as nat;
    let kv_heads = design.kv_heads as nat;
    let (row, kv_row) = (heads * dim, kv_heads * dim);
    let h = (j * g + r) as int;
    let all = past + tokens;
    lemma_spread_run(j, r, g, kv_heads);
    lemma_spread_run(0, 0, 1, 1);
    lemma_row_bounds(h, heads as int, dim as int);
    lemma_row_bounds(t, tokens as int, row as int);
    lemma_row_bounds(t, tokens as int, dim as int);
    assert(1 * dim == dim && 0 * dim == 0);
    let last = last_visible(past, t as nat, all);
    let qa = head_block(q, t, h, row, dim);
    let qb = head_block(own_q, t, 0, dim, dim);
    assert forall|c: int| 0 <= c < dim implies qa[c] == qb[c] by {
        assert(q[t * row + (j * g + r) * dim + c] == own_q[t * dim + 0 + c]);
    }
    assert(qa =~= qb);
    lemma_same_visible(k, kv_row, j, own_k, dim, 0, last, all, dim);
    lemma_same_visible(v, kv_row, j, own_v, dim, 0, last, all, dim);
    let a = head_block(out, t, h, row, dim);
    let b = head_block(own, t, 0, dim, dim);
    assert(a == b);
    assert(a[d] == out[t * row + h * dim + d]);
    assert(b[d] == own[t * dim + d]);
}

/// A token sees itself: over no history but its own, every head gives the value
/// of its key-value head.
pub proof fn law_first_token_gives_its_value<
    T: Copy,
    F: Fn(ScalarOp, T, T) -> T,
    C: Fn(Number) -> T,
    Z: Fn(Relation, T, T) -> bool,
>(
    x: &Scalars<T, F, C, Z>,
    design: AttentionDesign,
    g: nat,
    j: nat,
    r: nat,
    q: Seq<T>,
    k: Seq<T>,
    v: Seq<T>,
    out: Seq<T>,
    d: int,
)
    requires
        x.exact(),
        design.heads == g * design.kv_heads,
        j < design.kv_heads,
        r < g,
        0 <= d < design.head_dim,
        q.len() == design.heads * design.head_dim,
        k.len() == design.kv_heads * design.head_dim,
        v.len() == design.kv_heads * design.head_dim,
        x.unit(
            x.row_sum(
                x.exponentials_of(
                    x.head_scores(
                        x.cap_of(design),
                        part(q, (j * g + r) as int, design.head_dim as nat),
                        part(k, j as int, design.head_dim as nat),
                        1,
                    ),
                ),
            ),
        ),
        x.causally_attended(1, 0, design, q, k, v, out),
    ensures
        out[(j * g + r) * design.head_dim + d] == v[j * design.head_dim + d],
{
    let dim = design.head_dim as nat;
    let heads = design.heads as nat;
    let kv_heads = design.kv_heads as nat;
    let (row, kv_row) = (heads * dim, kv_heads * dim);
    let h = (j * g + r) as int;
    lemma_spread_run(j, r, g, kv_heads);
    lemma_row_bounds(h, heads as int, dim as int);
    lemma_row_bounds(j as int, kv_heads as int, dim as int);
    let qa = head_block(q, 0, h, row, dim);
    assert(0 * row == 0 && 1 * dim == dim);
    assert(qa =~= part(q, h, dim));
    let keys = visible_rows(k, 0, kv_row, j, dim);
    let values = visible_rows(v, 0, kv_row, j, dim);
    let own_k = part(k, j as int, dim);
    let own_v = part(v, j as int, dim);
    assert forall|i: int| 0 <= i < dim implies keys[i] == own_k[i] && values[i] == own_v[i] by {
        law_columns_cell(k, 1, kv_row, j * dim, dim, 0, i);
        law_columns_cell(v, 1, kv_row, j * dim, dim, 0, i);
    }
    assert(keys =~= own_k);
    assert forall|t: int, c: int| 0 <= t < 1 && 0 <= c < qa.len() implies #[trigger] values[t
        * qa.len() + c] == own_v[c] by {
        assert(t * qa.len() == 0) by (nonlinear_arith)
            requires
                t == 0,
        ;
    }
    law_attention_keeps_a_common_row(x, x.cap_of(design), qa, keys, values, own_v, 1);
    let block = head_block(out, 0, h, row, dim);
    assert(block == own_v);
    assert(block[d] == out[h * dim + d]);
}

/// The sequences of a batch are attended by themselves: a sequence with the
/// queries of a sequence of another batch gives what the other gives, wherever
/// they stand.
pub proof fn law_sequences_attend_alone<
    T: Copy,
    F: Fn(ScalarOp, T, T) -> T,
    C: Fn(Number) -> T,
    Z: Fn(Relation, T, T) -> bool,
>(
    x: &Scalars<T, F, C, Z>,
    q: Seq<T>,
    other_q: Seq<T>,
    k: Seq<T>,
    v: Seq<T>,
    tokens: nat,
    total: nat,
    past: nat,
    heads: nat,
    head_dim: nat,
    kv_row: nat,
    table: Seq<usize>,
    out: Seq<T>,
    other: Seq<T>,
    b: nat,
    c: nat,
    i: int,
)
    requires
        0 <= i < tokens * (heads * head_dim),
        (b + 1) * (tokens * (heads * head_dim)) <= q.len(),
        (c + 1) * (tokens * (heads * head_dim)) <= other_q.len(),
        q.len() == out.len(),
        other_q.len() == other.len(),
        forall|p: int|
            0 <= p < tokens * (heads * head_dim) ==> #[trigger] q[b * (tokens * (heads * head_dim))
                + p] == other_q[c * (tokens * (heads * head_dim)) + p],
        x.sequence_done(
            q,
            k,
            v,
            tokens,
            total,
            past,
            heads,
            head_dim,
            kv_row,
            table,
            out,
            b as int,
        ),
        x.sequence_done(
            other_q,
            k,
            v,
            tokens,
            total,
            past,
            heads,
            head_dim,
            kv_row,
            table,
            other,
            c as int,
        ),
    ensures
        out[b * (tokens * (heads * head_dim)) + i] == other[c * (tokens * (heads * head_dim)) + i],
{
    let row = heads * head_dim;
    let len = tokens * row;
    lemma_row_bounds(b as int, (b + 1) as int, len as int);
    lemma_row_bounds(c as int, (c + 1) as int, len as int);
    let (qa, qb) = (part(q, b as int, len), part(other_q, c as int, len));
    assert forall|p: int| 0 <= p < len implies qa[p] == qb[p] by {
        assert(q[b * len + p] == other_q[c * len + p]);
    }
    assert(qa =~= qb);
    lemma_flat_index(i, tokens as int, row as int);
    let (t, e) = (i / row as int, i % row as int);
    lemma_flat_index(e, heads as int, head_dim as int);
    let (h, d) = (e / head_dim as int, e % head_dim as int);
    let (oa, ob) = (part(out, b as int, len), part(other, c as int, len));
    lemma_row_bounds(t, tokens as int, row as int);
    lemma_row_bounds(h, heads as int, head_dim as int);
    let (ba, bb) = (head_block(oa, t, h, row, head_dim), head_block(ob, t, h, row, head_dim));
    assert(ba == bb);
    assert(ba[d] == oa[i] && bb[d] == ob[i]);
    assert(oa[i] == out[b * len + i] && ob[i] == other[c * len + i]);
}

/// The positions that the heads of a step turn by are the positions of its
/// tokens, each once for every head.
pub proof fn law_head_positions_follow_the_history(past: nat, steps: nat, heads: nat)
    requires
        past + steps <= u32::MAX,
    ensures
        head_positions(past as int, steps, heads) == expanded(
            Seq::new(steps, |t: int| (past + t) as u32),
            heads,
        ),
{
    let a = head_positions(past as int, steps, heads);
    let b = expanded(Seq::new(steps, |t: int| (past + t) as u32), heads);
    assert forall|i: int| 0 <= i < a.len() implies a[i] == b[i] by {
        lemma_flat_index(i, steps as int, heads as int);
    }
    assert(a =~= b);
}

/// A design with a cap bends the scores of the same design without one, each by
/// that cap.
pub proof fn law_capped_design_bends_the_scores<
    T: Copy,
    F: Fn(ScalarOp, T, T) -> T,
    C: Fn(Number) -> T,
    Z: Fn(Relation, T, T) -> bool,
>(
    x: &Scalars<T, F, C, Z>,
    design: AttentionDesign,
    cap: Real,
    q: Seq<T>,
    keys: Seq<T>,
    n: nat,
    t: int,
)
    requires
        0 <= t < n,
    ensures
        ({
            let capped = x.cap_of(AttentionDesign { softcap: Some(cap), ..design });
            let free = x.cap_of(AttentionDesign { softcap: None, ..design });
            x.head_scores(capped, q, keys, n)[t] == x.capped(
                x.constant(cap.bits),
                x.head_scores(free, q, keys, n)[t],
            )
        }),
{
}

} // verus!
