//! A block that keeps its own history gives the rows of one call also in two.

use crate::block_program::{
    at_hand, law_block_is_well_shaped, law_block_reads_what_was_written, reads, writes,
    AttentionDesign, BlockDesign, BlockOp, Reg,
};
use crate::block_run::{
    applied, input_only, is_applied, lemma_fed_at, lemma_sizes_stay, lemma_where_history_is, sized,
    source_of, target_of, Attends, BlockValues,
};
use crate::head_map::{lemma_spread_below, spread_heads};
use crate::kv_attention::{head_block, kv_head_of};
use crate::rows::{
    columns, law_columns_of_prefix, law_columns_of_stack, lemma_flat_index, lemma_row_bounds,
};
use crate::scalar::{Number, Relation, ScalarOp, Scalars};
use vstd::prelude::*;

verus! {

/// Causal attention in two calls gives the rows of one: earlier tokens do not
/// see later ones, and later ones see all that came before.
pub proof fn law_causal_attention_in_two_calls<
    T: Copy,
    F: Fn(ScalarOp, T, T) -> T,
    C: Fn(Number) -> T,
    Z: Fn(Relation, T, T) -> bool,
>(
    x: &Scalars<T, F, C, Z>,
    a: AttentionDesign,
    tokens: nat,
    more: nat,
    past: nat,
    q: Seq<T>,
    q2: Seq<T>,
    k: Seq<T>,
    v: Seq<T>,
    k2: Seq<T>,
    v2: Seq<T>,
    out: Seq<T>,
    out2: Seq<T>,
)
    requires
        a.kv_heads > 0,
        q.len() == tokens * (a.heads * a.head_dim),
        q2.len() == more * (a.heads * a.head_dim),
        k.len() == (past + tokens) * (a.kv_heads * a.head_dim),
        v.len() == (past + tokens) * (a.kv_heads * a.head_dim),
        x.causally_attended(tokens, past, a, q, k, v, out),
        x.causally_attended(more, past + tokens, a, q2, k + k2, v + v2, out2),
    ensures
        x.causally_attended(tokens + more, past, a, q + q2, k + k2, v + v2, out + out2),
{
    let row = (a.heads * a.head_dim) as nat;
    let kv_row = (a.kv_heads * a.head_dim) as nat;
    let head_dim = a.head_dim as nat;
    let table = spread_heads(a.heads as nat, a.kv_heads as nat);
    let n = tokens + more;
    assert(0 <= a.heads * a.head_dim && 0 <= a.kv_heads * a.head_dim) by (nonlinear_arith);
    assert(n * row == tokens * row + more * row) by (nonlinear_arith)
        requires
            n == tokens + more,
    ;
    assert forall|t: int, h: int| 0 <= t < n && 0 <= h < a.heads implies #[trigger] head_block(
        out + out2,
        t,
        h,
        row,
        head_dim,
    ) == x.head_attended(
        x.cap_of(a),
        q + q2,
        k + k2,
        v + v2,
        past + n,
        past,
        head_dim,
        row,
        kv_row,
        table,
        t,
        h,
    ) by {
        assert(0 <= h * head_dim && h * head_dim + head_dim <= row) by (nonlinear_arith)
            requires
                0 <= h < a.heads,
                row == a.heads * a.head_dim,
                head_dim == a.head_dim,
        ;
        if t < tokens {
            lemma_row_bounds(t, tokens as int, row as int);
            assert(head_block(out + out2, t, h, row, head_dim) =~= head_block(
                out,
                t,
                h,
                row,
                head_dim,
            ));
            assert(head_block(q + q2, t, h, row, head_dim) =~= head_block(q, t, h, row, head_dim));
            let head = kv_head_of(table, h);
            lemma_spread_below(h, a.heads as int, a.kv_heads as int);
            assert(head * head_dim + head_dim <= kv_row) by (nonlinear_arith)
                requires
                    head + 1 <= a.kv_heads,
                    kv_row == a.kv_heads * a.head_dim,
                    head_dim == a.head_dim,
            ;
            let seen = (past + t + 1) as nat;
            lemma_row_bounds(past + t, (past + tokens) as int, kv_row as int);
            assert((k + k2).take((seen * kv_row) as int) =~= k.take((seen * kv_row) as int));
            assert((v + v2).take((seen * kv_row) as int) =~= v.take((seen * kv_row) as int));
            law_columns_of_prefix(k + k2, k, seen, kv_row, head * head_dim, head_dim);
            law_columns_of_prefix(v + v2, v, seen, kv_row, head * head_dim, head_dim);
        } else {
            let s = t - tokens;
            lemma_row_bounds(s, more as int, row as int);
            assert(t * row == tokens * row + s * row) by (nonlinear_arith)
                requires
                    t == tokens + s,
            ;
            assert(head_block(out + out2, t, h, row, head_dim) =~= head_block(
                out2,
                s,
                h,
                row,
                head_dim,
            ));
            assert(head_block(q + q2, t, h, row, head_dim) =~= head_block(
                q2,
                s,
                h,
                row,
                head_dim,
            ));
        }
    }
}

/// Every part treats every row for itself: for `tokens` rows of one call and the
/// `more` rows of the next, `both` gives what `some` gives for the ones and
/// `other` for the others.
pub open spec fn stacks<T, G1, G2, G>(
    some: G1,
    other: G2,
    both: G,
    design: &BlockDesign,
    tokens: nat,
    more: nat,
) -> bool where
    G1: Fn(BlockOp, Vec<T>) -> Vec<T>,
    G2: Fn(BlockOp, Vec<T>) -> Vec<T>,
    G: Fn(BlockOp, Vec<T>) -> Vec<T>,
 {
    forall|op: BlockOp, a: Seq<T>, ra: Seq<T>, b: Seq<T>, rb: Seq<T>, r: Seq<T>|
        #![trigger applied(some, op, a, ra), applied(other, op, b, rb), applied(both, op, a + b, r)]
        is_applied(op) && design.well_shaped(op) && applied(some, op, a, ra) && applied(
            other,
            op,
            b,
            rb,
        ) && applied(both, op, a + b, r) && a.len() == tokens * design.width(source_of(op))
            && b.len() == more * design.width(source_of(op)) ==> r == ra + rb
}

/// `apply` gives rows of the width that is asked for.
pub open spec fn gives_rows<T, G: Fn(BlockOp, Vec<T>) -> Vec<T>>(
    apply: G,
    design: &BlockDesign,
    tokens: nat,
) -> bool {
    forall|op: BlockOp, a: Vec<T>, r: Vec<T>|
        is_applied(op) && design.well_shaped(op) && #[trigger] call_ensures(apply, (op, a), r)
            && a@.len() == tokens * design.width(source_of(op)) ==> r@.len() == tokens
            * design.width(target_of(op))
}

impl BlockDesign {
    /// Operations in front of attention.
    pub open spec fn front(&self) -> int {
        (self.project_ops().len() + self.shape_ops().len()) as int
    }
}

/// Before attention, the history is as it was; behind it, it is as it stays,
/// and the keys and values are those of the history.
spec fn history_at<T>(design: &BlockDesign, trace: Seq<BlockValues<T>>, i: int) -> bool {
    if i < design.front() {
        trace[i].k == trace[0].k && trace[i].v == trace[0].v
    } else {
        let held = trace[design.front()];
        &&& trace[i].k == held.k
        &&& trace[i].v == held.v
        &&& trace[i].regs[Reg::Key] == held.k
        &&& trace[i].regs[Reg::Value] == held.v
        &&& held.k == trace[0].k + trace[design.front() - 1].regs[Reg::Key]
        &&& held.v == trace[0].v + trace[design.front() - 1].regs[Reg::Value]
    }
}

pub(crate) proof fn lemma_step_of<
    T: Copy,
    F: Fn(ScalarOp, T, T) -> T,
    C: Fn(Number) -> T,
    Z: Fn(Relation, T, T) -> bool,
    G: Fn(BlockOp, Vec<T>) -> Vec<T>,
>(
    x: &Scalars<T, F, C, Z>,
    apply: G,
    attends: Attends<T>,
    design: &BlockDesign,
    tokens: nat,
    trace: Seq<BlockValues<T>>,
    i: int,
)
    requires
        x.block_ran(apply, attends, design, tokens, trace),
        0 <= i < design.ops().len(),
    ensures
        x.stepped(apply, attends, design.ops()[i], tokens, trace[i], trace[i + 1]),
        forall|r: Reg| !writes(design.ops()[i]).contains(r) ==> #[trigger] trace[i + 1].regs[r]
            == trace[i].regs[r],
        design.ops()[i] !is AppendHistory ==> trace[i + 1].k == trace[i].k && trace[i + 1].v
            == trace[i].v,
{
    let op = design.ops()[i];
    assert(x.stepped(apply, attends, op, tokens, trace[i], trace[i + 1]));
}

proof fn lemma_history_at<
    T: Copy,
    F: Fn(ScalarOp, T, T) -> T,
    C: Fn(Number) -> T,
    Z: Fn(Relation, T, T) -> bool,
    G: Fn(BlockOp, Vec<T>) -> Vec<T>,
>(
    x: &Scalars<T, F, C, Z>,
    apply: G,
    attends: Attends<T>,
    design: &BlockDesign,
    tokens: nat,
    trace: Seq<BlockValues<T>>,
    i: int,
)
    requires
        x.block_ran(apply, attends, design, tokens, trace),
        design.attention.cached,
        0 <= i <= design.ops().len(),
    ensures
        history_at(design, trace, i),
    decreases i,
{
    if i > 0 {
        lemma_history_at(x, apply, attends, design, tokens, trace, i - 1);
        lemma_where_history_is(design, i - 1);
        lemma_step_of(x, apply, attends, design, tokens, trace, i - 1);
    } else {
        assert(design.front() >= 1);
    }
}

proof fn lemma_sized_at<
    T: Copy,
    F: Fn(ScalarOp, T, T) -> T,
    C: Fn(Number) -> T,
    Z: Fn(Relation, T, T) -> bool,
    G: Fn(BlockOp, Vec<T>) -> Vec<T>,
>(
    x: &Scalars<T, F, C, Z>,
    apply: G,
    design: &BlockDesign,
    tokens: nat,
    past: nat,
    trace: Seq<BlockValues<T>>,
    i: int,
)
    requires
        x.block_ran(apply, x.attends_causally(tokens, past), design, tokens, trace),
        gives_rows(apply, design, tokens),
        design.fits(),
        design.attention.cached,
        trace[0].regs[Reg::Input].len() == tokens * design.hidden,
        trace[0].k.len() == past * design.kv_dim(),
        trace[0].v.len() == past * design.kv_dim(),
        0 <= i <= design.ops().len(),
    ensures
        sized(design, tokens, past + tokens, trace[i].regs, i),
    decreases i,
{
    let attends = x.attends_causally(tokens, past);
    law_block_reads_what_was_written(design);
    if i == 0 {
        assert(design.ops().take(0) =~= Seq::empty());
        assert(design.front() >= 1);
    } else {
        let op = design.ops()[i - 1];
        let before = trace[i - 1];
        let after = trace[i];
        lemma_sized_at(x, apply, design, tokens, past, trace, i - 1);
        lemma_history_at(x, apply, attends, design, tokens, trace, i - 1);
        lemma_where_history_is(design, i - 1);
        lemma_fed_at(design.ops(), set![Reg::Input], i - 1);
        lemma_step_of(x, apply, attends, design, tokens, trace, i - 1);
        law_block_is_well_shaped(design, i - 1);
        let hand = at_hand(design.ops().take(i - 1), set![Reg::Input]);
        assert forall|r: Reg| reads(op).contains(r) && (i - 1 < design.front() || (r != Reg::Key
            && r != Reg::Value)) implies (#[trigger] before.regs[r]).len() == tokens
            * design.width(r) by {
            assert(hand.contains(r));
        }
        if op is AppendHistory {
            let kv = design.kv_dim();
            assert((past + tokens) * kv == past * kv + tokens * kv) by (nonlinear_arith);
            assert(before.regs[Reg::Key].len() == tokens * design.width(Reg::Key));
            assert(before.regs[Reg::Value].len() == tokens * design.width(Reg::Value));
        } else {
            assert forall|r: Reg| #[trigger]
                writes(op).contains(r) implies after.regs[r].len() == tokens * design.width(r) by {
                match op {
                    BlockOp::SplitQkv { q_dim, kv_dim } => {},
                    BlockOp::Attend { attention } => {
                        assert(x.causally_attended(
                            tokens,
                            past,
                            attention,
                            before.regs[Reg::Query],
                            before.regs[Reg::Key],
                            before.regs[Reg::Value],
                            after.regs[Reg::Attended],
                        ));
                    },
                    BlockOp::Activate { .. } => {
                        assert(before.regs[Reg::Gate].len() == tokens * design.width(Reg::Gate));
                    },
                    BlockOp::Add { a, b, .. } => {
                        assert(before.regs[a].len() == tokens * design.width(a));
                    },
                    _ => {
                        let dst = target_of(op);
                        let src = source_of(op);
                        assert(reads(op).contains(src));
                        assert(before.regs[src].len() == tokens * design.width(src));
                        assert(applied(apply, op, before.regs[src], after.regs[dst]));
                    },
                }
            }
        }
        lemma_sizes_stay(
            design,
            op,
            tokens,
            past + tokens,
            before.regs,
            after.regs,
            i - 1,
        );
    }
}

/// Rows are what their heads hold.
pub(crate) proof fn lemma_heads_decide<T>(
    out: Seq<T>,
    out2: Seq<T>,
    tokens: nat,
    heads: nat,
    dim: nat,
)
    requires
        out.len() == tokens * (heads * dim),
        out2.len() == out.len(),
        forall|t: int, h: int|
            0 <= t < tokens && 0 <= h < heads ==> #[trigger] head_block(
                out,
                t,
                h,
                heads * dim,
                dim,
            ) == head_block(out2, t, h, heads * dim, dim),
    ensures
        out == out2,
{
    let row = heads * dim;
    assert forall|i: int| 0 <= i < out.len() implies out[i] == out2[i] by {
        lemma_flat_index(i, tokens as int, row as int);
        let (t, c) = (i / row as int, i % row as int);
        lemma_flat_index(c, heads as int, dim as int);
        let (h, d) = (c / dim as int, c % dim as int);
        lemma_row_bounds(t, tokens as int, row as int);
        assert(head_block(out, t, h, row, dim) == head_block(out2, t, h, row, dim));
        lemma_row_bounds(h, heads as int, dim as int);
        assert(head_block(out, t, h, row, dim)[d] == out[i]);
        assert(head_block(out2, t, h, row, dim)[d] == out2[i]);
    }
    assert(out =~= out2);
}

/// Causal attention gives one result.
pub(crate) proof fn lemma_attended_once<
    T: Copy,
    F: Fn(ScalarOp, T, T) -> T,
    C: Fn(Number) -> T,
    Z: Fn(Relation, T, T) -> bool,
>(
    x: &Scalars<T, F, C, Z>,
    a: AttentionDesign,
    tokens: nat,
    past: nat,
    q: Seq<T>,
    k: Seq<T>,
    v: Seq<T>,
    out: Seq<T>,
    out2: Seq<T>,
)
    requires
        x.causally_attended(tokens, past, a, q, k, v, out),
        x.causally_attended(tokens, past, a, q, k, v, out2),
    ensures
        out == out2,
{
    assert(0 <= a.heads * a.head_dim) by (nonlinear_arith);
    assert forall|t: int, h: int| 0 <= t < tokens && 0 <= h < a.heads implies #[trigger] head_block(
        out,
        t,
        h,
        a.heads as nat * a.head_dim as nat,
        a.head_dim as nat,
    ) == head_block(out2, t, h, a.heads as nat * a.head_dim as nat, a.head_dim as nat) by {
        let row = (a.heads * a.head_dim) as nat;
        assert(head_block(out, t, h, row, a.head_dim as nat) == head_block(
            out2,
            t,
            h,
            row,
            a.head_dim as nat,
        ));
    }
    lemma_heads_decide(out, out2, tokens, a.heads as nat, a.head_dim as nat);
}

/// The values of two calls side by side before operation `i`, as one call has
/// them: rows of the second behind those of the first, and the history of the
/// second once it is there.
spec fn joined<T>(
    design: &BlockDesign,
    a: BlockValues<T>,
    b: BlockValues<T>,
    i: int,
) -> BlockValues<T> {
    let behind = i >= design.front();
    BlockValues {
        regs: Map::new(
            |r: Reg| true,
            |r: Reg|
                if behind && (r == Reg::Key || r == Reg::Value) {
                    b.regs[r]
                } else {
                    a.regs[r] + b.regs[r]
                },
        ),
        k: if behind {
            b.k
        } else {
            a.k
        },
        v: if behind {
            b.v
        } else {
            a.v
        },
    }
}

#[verifier::spinoff_prover]
#[verifier::rlimit(60)]
proof fn lemma_joined_step<
    T: Copy,
    F: Fn(ScalarOp, T, T) -> T,
    C: Fn(Number) -> T,
    Z: Fn(Relation, T, T) -> bool,
    G1: Fn(BlockOp, Vec<T>) -> Vec<T>,
    G2: Fn(BlockOp, Vec<T>) -> Vec<T>,
    G: Fn(BlockOp, Vec<T>) -> Vec<T>,
>(
    x: &Scalars<T, F, C, Z>,
    some: G1,
    other: G2,
    both: G,
    design: &BlockDesign,
    tokens: nat,
    more: nat,
    past: nat,
    trace: Seq<BlockValues<T>>,
    trace2: Seq<BlockValues<T>>,
    next: BlockValues<T>,
    i: int,
)
    requires
        design.fits(),
        design.attention.cached,
        design.attention.kv_heads > 0,
        stacks::<T, G1, G2, G>(some, other, both, design, tokens, more),
        gives_rows(some, design, tokens),
        gives_rows(other, design, more),
        x.block_ran(some, x.attends_causally(tokens, past), design, tokens, trace),
        x.block_ran(other, x.attends_causally(more, past + tokens), design, more, trace2),
        trace[0].regs[Reg::Input].len() == tokens * design.hidden,
        trace2[0].regs[Reg::Input].len() == more * design.hidden,
        trace[0].k.len() == past * design.kv_dim(),
        trace[0].v.len() == past * design.kv_dim(),
        trace2[0].k == trace.last().k,
        trace2[0].v == trace.last().v,
        0 <= i < design.ops().len(),
        x.stepped(
            both,
            x.attends_causally(tokens + more, past),
            design.ops()[i],
            tokens + more,
            joined(design, trace[i], trace2[i], i),
            next,
        ),
    ensures
        next == joined(design, trace[i + 1], trace2[i + 1], i + 1),
{
    let op = design.ops()[i];
    let n = tokens + more;
    let last = design.ops().len() as int;
    let attends = x.attends_causally(tokens, past);
    let attends2 = x.attends_causally(more, past + tokens);
    let (a, a2) = (trace[i], trace[i + 1]);
    let (b, b2) = (trace2[i], trace2[i + 1]);
    let (c, c2) = (joined(design, a, b, i), joined(design, a2, b2, i + 1));
    let kv = design.kv_dim();
    lemma_history_at(x, some, attends, design, tokens, trace, i);
    lemma_history_at(x, some, attends, design, tokens, trace, last);
    lemma_history_at(x, some, attends, design, tokens, trace, i + 1);
    lemma_history_at(x, other, attends2, design, more, trace2, i);
    lemma_history_at(x, other, attends2, design, more, trace2, i + 1);
    lemma_where_history_is(design, i);
    lemma_where_history_is(design, last - 1);
    lemma_step_of(x, some, attends, design, tokens, trace, i);
    lemma_step_of(x, other, attends2, design, more, trace2, i);
    law_block_is_well_shaped(design, i);
    law_block_reads_what_was_written(design);
    lemma_fed_at(design.ops(), set![Reg::Input], i);
    lemma_sized_at(x, some, design, tokens, past, trace, i);
    lemma_sized_at(x, some, design, tokens, past, trace, i + 1);
    assert(design.front() - 1 < last);
    lemma_where_history_is(design, design.front() - 1);
    lemma_sized_at(x, some, design, tokens, past, trace, design.front() - 1);
    lemma_fed_at(design.ops(), set![Reg::Input], design.front() - 1);
    assert((past + tokens) * kv == past * kv + tokens * kv) by (nonlinear_arith);
    assert(reads(design.ops()[design.front() - 1]).contains(Reg::Key));
    assert(reads(design.ops()[design.front() - 1]).contains(Reg::Value));
    assert(trace[design.front() - 1].regs[Reg::Key].len() == tokens * design.width(Reg::Key));
    assert(trace[design.front() - 1].regs[Reg::Value].len() == tokens * design.width(Reg::Value));
    assert(trace2[0].k.len() == (past + tokens) * kv);
    assert(trace2[0].v.len() == (past + tokens) * kv);
    lemma_sized_at(x, other, design, more, past + tokens, trace2, i);
    lemma_sized_at(x, other, design, more, past + tokens, trace2, i + 1);
    let hand = at_hand(design.ops().take(i), set![Reg::Input]);
    assert forall|r: Reg| reads(op).contains(r) && (i < design.front() || (r != Reg::Key && r
        != Reg::Value)) implies (#[trigger] a.regs[r]).len() == tokens * design.width(r)
        && b.regs[r].len() == more * design.width(r) && c.regs[r] == a.regs[r] + b.regs[r] by {
        assert(hand.contains(r));
    }
    match op {
        BlockOp::SplitQkv { q_dim, kv_dim } => {
            let width = (q_dim + 2 * kv_dim) as nat;
            let (f, g) = (a.regs[Reg::Fused], b.regs[Reg::Fused]);
            assert(reads(op).contains(Reg::Fused));
            law_columns_of_stack(f, g, tokens, more, width, 0, q_dim as nat);
            law_columns_of_stack(f, g, tokens, more, width, q_dim as nat, kv_dim as nat);
            law_columns_of_stack(
                f,
                g,
                tokens,
                more,
                width,
                (q_dim + kv_dim) as nat,
                kv_dim as nat,
            );
            assert(c2.regs =~= c.regs.insert(
                Reg::Query,
                columns(f + g, n, width, 0, q_dim as nat),
            ).insert(
                Reg::Key,
                columns(f + g, n, width, q_dim as nat, kv_dim as nat),
            ).insert(
                Reg::Value,
                columns(f + g, n, width, (q_dim + kv_dim) as nat, kv_dim as nat),
            ));
        },
        BlockOp::AppendHistory { .. } => {
            assert(b.k == a2.k && b.v == a2.v);
            assert(c.k + c.regs[Reg::Key] =~= b2.k);
            assert(c.v + c.regs[Reg::Value] =~= b2.v);
            assert(c2.regs =~= c.regs.insert(Reg::Key, b2.k).insert(Reg::Value, b2.v));
        },
        BlockOp::Attend { attention } => {
            assert(reads(op).contains(Reg::Query));
            let (k2, v2) = (
                trace2[design.front() - 1].regs[Reg::Key],
                trace2[design.front() - 1].regs[Reg::Value],
            );
            assert(b.k == a.k + k2 && b.v == a.v + v2);
            law_causal_attention_in_two_calls(
                x,
                attention,
                tokens,
                more,
                past,
                a.regs[Reg::Query],
                b.regs[Reg::Query],
                a.k,
                a.v,
                k2,
                v2,
                a2.regs[Reg::Attended],
                b2.regs[Reg::Attended],
            );
            lemma_attended_once(
                x,
                attention,
                n,
                past,
                c.regs[Reg::Query],
                b.k,
                b.v,
                c2.regs[Reg::Attended],
                next.regs[Reg::Attended],
            );
            assert(c2.regs =~= c.regs.insert(Reg::Attended, c2.regs[Reg::Attended]));
        },
        BlockOp::Activate { kind, gated, .. } => {
            assert(reads(op).contains(Reg::Gate));
            let gate = c.regs[Reg::Gate];
            let up = c.regs[Reg::Up];
            let out = if gated {
                assert(reads(op).contains(Reg::Up));
                Seq::new(gate.len(), |i: int| x.times(x.activated(kind, gate[i]), up[i]))
            } else {
                Seq::new(gate.len(), |i: int| x.activated(kind, gate[i]))
            };
            assert(c2.regs[Reg::Activated] =~= out);
            assert(c2.regs =~= c.regs.insert(Reg::Activated, out));
        },
        BlockOp::Add { a: left, b: right, dst, scale, .. } => {
            assert(reads(op).contains(left) && reads(op).contains(right));
            assert(writes(op).contains(dst));
            let sum = x.residual(c.regs[left], c.regs[right], scale);
            assert(c2.regs[dst] =~= sum);
            assert(c2.regs =~= c.regs.insert(dst, sum));
        },
        _ => {
            let src = source_of(op);
            let dst = target_of(op);
            assert(reads(op).contains(src) && writes(op).contains(dst));
            assert(applied(some, op, a.regs[src], a2.regs[dst]));
            assert(applied(other, op, b.regs[src], b2.regs[dst]));
            assert(c2.regs[dst] == a2.regs[dst] + b2.regs[dst]);
            assert(applied(both, op, a.regs[src] + b.regs[src], next.regs[dst]));
            assert(c2.regs =~= c.regs.insert(dst, c2.regs[dst]));
        },
    }
}

proof fn lemma_joined_at<
    T: Copy,
    F: Fn(ScalarOp, T, T) -> T,
    C: Fn(Number) -> T,
    Z: Fn(Relation, T, T) -> bool,
    G1: Fn(BlockOp, Vec<T>) -> Vec<T>,
    G2: Fn(BlockOp, Vec<T>) -> Vec<T>,
    G: Fn(BlockOp, Vec<T>) -> Vec<T>,
>(
    x: &Scalars<T, F, C, Z>,
    some: G1,
    other: G2,
    both: G,
    design: &BlockDesign,
    tokens: nat,
    more: nat,
    past: nat,
    trace: Seq<BlockValues<T>>,
    trace2: Seq<BlockValues<T>>,
    all: Seq<BlockValues<T>>,
    i: int,
)
    requires
        design.fits(),
        design.attention.cached,
        design.attention.kv_heads > 0,
        stacks::<T, G1, G2, G>(some, other, both, design, tokens, more),
        gives_rows(some, design, tokens),
        gives_rows(other, design, more),
        x.block_ran(some, x.attends_causally(tokens, past), design, tokens, trace),
        x.block_ran(other, x.attends_causally(more, past + tokens), design, more, trace2),
        x.block_ran(
            both,
            x.attends_causally(tokens + more, past),
            design,
            tokens + more,
            all,
        ),
        trace[0].regs[Reg::Input].len() == tokens * design.hidden,
        trace2[0].regs[Reg::Input].len() == more * design.hidden,
        trace[0].k.len() == past * design.kv_dim(),
        trace[0].v.len() == past * design.kv_dim(),
        trace2[0].k == trace.last().k,
        trace2[0].v == trace.last().v,
        all[0] == joined(design, trace[0], trace2[0], 0),
        0 <= i <= design.ops().len(),
    ensures
        all[i] == joined(design, trace[i], trace2[i], i),
    decreases i,
{
    if i > 0 {
        lemma_joined_at(
            x,
            some,
            other,
            both,
            design,
            tokens,
            more,
            past,
            trace,
            trace2,
            all,
            i - 1,
        );
        lemma_step_of(
            x,
            both,
            x.attends_causally(tokens + more, past),
            design,
            tokens + more,
            all,
            i - 1,
        );
        lemma_joined_step(
            x,
            some,
            other,
            both,
            design,
            tokens,
            more,
            past,
            trace,
            trace2,
            all[i],
            i - 1,
        );
    }
}

/// Decoding matches prefill: running a block with a causal history on a stretch
/// of tokens in one call gives the rows of two calls, and leaves the history
/// that they leave.
///
/// `some` and `other` run the parts of the two calls, `both` those of the one.
pub proof fn law_block_in_two_calls<
    T: Copy,
    F: Fn(ScalarOp, T, T) -> T,
    C: Fn(Number) -> T,
    Z: Fn(Relation, T, T) -> bool,
    G1: Fn(BlockOp, Vec<T>) -> Vec<T>,
    G2: Fn(BlockOp, Vec<T>) -> Vec<T>,
    G: Fn(BlockOp, Vec<T>) -> Vec<T>,
>(
    x: &Scalars<T, F, C, Z>,
    some: G1,
    other: G2,
    both: G,
    design: &BlockDesign,
    tokens: nat,
    more: nat,
    past: nat,
    input: Seq<T>,
    input2: Seq<T>,
    k: Seq<T>,
    v: Seq<T>,
    out: Seq<T>,
    k_between: Seq<T>,
    v_between: Seq<T>,
    out2: Seq<T>,
    k_after: Seq<T>,
    v_after: Seq<T>,
    out_all: Seq<T>,
    k_all: Seq<T>,
    v_all: Seq<T>,
)
    requires
        design.fits(),
        design.attention.cached,
        design.attention.kv_heads > 0,
        stacks::<T, G1, G2, G>(some, other, both, design, tokens, more),
        gives_rows(some, design, tokens),
        gives_rows(other, design, more),
        input.len() == tokens * design.hidden,
        input2.len() == more * design.hidden,
        k.len() == past * design.kv_dim(),
        v.len() == past * design.kv_dim(),
        x.block_done(
            some,
            x.attends_causally(tokens, past),
            design,
            tokens,
            input,
            k,
            v,
            out,
            k_between,
            v_between,
        ),
        x.block_done(
            other,
            x.attends_causally(more, past + tokens),
            design,
            more,
            input2,
            k_between,
            v_between,
            out2,
            k_after,
            v_after,
        ),
        x.block_done(
            both,
            x.attends_causally(tokens + more, past),
            design,
            tokens + more,
            input + input2,
            k,
            v,
            out_all,
            k_all,
            v_all,
        ),
    ensures
        out_all == out + out2,
        k_all == k_after,
        v_all == v_after,
{
    let attends = x.attends_causally(tokens, past);
    let attends2 = x.attends_causally(more, past + tokens);
    let start = BlockValues { regs: input_only(input), k, v };
    let start2 = BlockValues { regs: input_only(input2), k: k_between, v: v_between };
    let trace = choose|trace: Seq<BlockValues<T>>| #[trigger]
        x.block_ran(some, attends, design, tokens, trace) && trace[0] == start
            && trace.last().regs[Reg::Output] == out && trace.last().k == k_between
            && trace.last().v == v_between;
    let trace2 = choose|trace: Seq<BlockValues<T>>| #[trigger]
        x.block_ran(other, attends2, design, more, trace) && trace[0] == start2
            && trace.last().regs[Reg::Output] == out2 && trace.last().k == k_after
            && trace.last().v == v_after;
    let whole = x.attends_causally(tokens + more, past);
    let start_all = BlockValues { regs: input_only(input + input2), k, v };
    let all = choose|trace: Seq<BlockValues<T>>| #[trigger]
        x.block_ran(both, whole, design, tokens + more, trace) && trace[0] == start_all
            && trace.last().regs[Reg::Output] == out_all && trace.last().k == k_all
            && trace.last().v == v_all;
    let n = design.ops().len() as int;
    assert(design.front() >= 1 && design.front() <= n);
    let first = joined(design, trace[0], trace2[0], 0);
    assert(first.regs =~= input_only(input + input2));
    assert(first =~= start_all);
    lemma_joined_at(
        x,
        some,
        other,
        both,
        design,
        tokens,
        more,
        past,
        trace,
        trace2,
        all,
        n,
    );
    assert(all.last() == joined(design, trace.last(), trace2.last(), n));
}

impl BlockDesign {
    /// The same block without a history of its own.
    pub open spec fn cacheless(&self) -> BlockDesign {
        BlockDesign {
            attention: AttentionDesign { cached: false, ..self.attention },
            ..*self
        }
    }
}

proof fn lemma_all_values_there<
    T: Copy,
    F: Fn(ScalarOp, T, T) -> T,
    C: Fn(Number) -> T,
    Z: Fn(Relation, T, T) -> bool,
    G: Fn(BlockOp, Vec<T>) -> Vec<T>,
>(
    x: &Scalars<T, F, C, Z>,
    apply: G,
    attends: Attends<T>,
    design: &BlockDesign,
    tokens: nat,
    trace: Seq<BlockValues<T>>,
    i: int,
)
    requires
        x.block_ran(apply, attends, design, tokens, trace),
        forall|r: Reg| #[trigger] trace[0].regs.contains_key(r),
        0 <= i <= design.ops().len(),
    ensures
        forall|r: Reg| #[trigger] trace[i].regs.contains_key(r),
    decreases i,
{
    if i > 0 {
        lemma_all_values_there(x, apply, attends, design, tokens, trace, i - 1);
        lemma_step_of(x, apply, attends, design, tokens, trace, i - 1);
    }
}

/// Where operation `i` of the cacheless block stands in the block with a
/// history.
proof fn lemma_cacheless_op(design: &BlockDesign, i: int)
    requires
        design.attention.cached,
        0 <= i < design.cacheless().ops().len(),
    ensures
        design.ops().len() == design.cacheless().ops().len() + 1,
        design.cacheless().front() == design.front() - 1,
        ({
            let op = design.cacheless().ops()[i];
            let same = design.ops()[if i < design.front() - 1 {
                i
            } else {
                i + 1
            }];
            &&& op is Attend <==> same is Attend
            &&& op !is Attend ==> op == same
            &&& op is Attend ==> op->attention == design.cacheless().attention && same->attention
                == design.attention
            &&& same !is AppendHistory
        }),
{
    let bare = design.cacheless();
    let (a, b, c, d) = (
        design.project_ops(),
        design.shape_ops(),
        design.attend_ops(),
        design.tail_ops(),
    );
    assert(bare.project_ops() =~= a);
    assert(bare.shape_ops() =~= b.drop_last());
    assert(bare.tail_ops() =~= d);
    let at = if i < design.front() - 1 {
        i
    } else {
        i + 1
    };
    lemma_where_history_is(design, at);
    lemma_where_history_is(&bare, i);
    if i < a.len() {
        assert(bare.ops()[i] == a[i] && design.ops()[at] == a[i]);
    } else if i < a.len() + b.len() - 1 {
        assert(bare.ops()[i] == b[i - a.len()] && design.ops()[at] == b[i - a.len()]);
    } else if i < a.len() + b.len() - 1 + c.len() {
        let j = i - a.len() - b.len() + 1;
        assert(bare.ops()[i] == bare.attend_ops()[j] && design.ops()[at] == c[j]);
    } else {
        let j = i - a.len() - b.len() + 1 - c.len();
        assert(bare.ops()[i] == d[j] && design.ops()[at] == d[j]);
        lemma_where_history_is(&bare, i);
    }
}

/// Prefill matches the cacheless run: on an empty history, a block gives the
/// rows that it gives without one.
pub proof fn law_prefill_matches_cacheless<
    T: Copy,
    F: Fn(ScalarOp, T, T) -> T,
    C: Fn(Number) -> T,
    Z: Fn(Relation, T, T) -> bool,
    G: Fn(BlockOp, Vec<T>) -> Vec<T>,
>(
    x: &Scalars<T, F, C, Z>,
    apply: G,
    design: &BlockDesign,
    tokens: nat,
    input: Seq<T>,
    out: Seq<T>,
    k_after: Seq<T>,
    v_after: Seq<T>,
    k: Seq<T>,
    v: Seq<T>,
)
    requires
        design.attention.cached,
        x.block_done(
            apply,
            x.attends_causally(tokens, 0),
            design,
            tokens,
            input,
            Seq::empty(),
            Seq::empty(),
            out,
            k_after,
            v_after,
        ),
    ensures
        x.block_done(
            apply,
            x.attends_causally(tokens, 0),
            &design.cacheless(),
            tokens,
            input,
            k,
            v,
            out,
            k,
            v,
        ),
{
    let attends = x.attends_causally(tokens, 0);
    let bare = design.cacheless();
    let front = design.front();
    let trace = choose|trace: Seq<BlockValues<T>>| #[trigger]
        x.block_ran(apply, attends, design, tokens, trace) && trace[0] == (BlockValues {
            regs: input_only(input),
            k: Seq::<T>::empty(),
            v: Seq::<T>::empty(),
        }) && trace.last().regs[Reg::Output] == out && trace.last().k == k_after
            && trace.last().v == v_after;
    let n = bare.ops().len();
    law_block_reads_what_was_written(&bare);
    assert(n > 0) by {
        crate::block_program::law_block_writes_its_output_last(&bare);
    }
    lemma_cacheless_op(design, 0);
    lemma_where_history_is(design, front - 1);
    lemma_step_of(x, apply, attends, design, tokens, trace, front - 1);
    lemma_history_at(x, apply, attends, design, tokens, trace, front - 1);
    lemma_all_values_there(x, apply, attends, design, tokens, trace, front - 1);
    let (before, after) = (trace[front - 1], trace[front]);
    assert(before.k + before.regs[Reg::Key] =~= before.regs[Reg::Key]);
    assert(before.v + before.regs[Reg::Value] =~= before.regs[Reg::Value]);
    assert(after.regs =~= before.regs);
    let all = Seq::new(
        n + 1,
        |i: int|
            BlockValues {
                regs: trace[if i < front {
                    i
                } else {
                    i + 1
                }].regs,
                k,
                v,
            },
    );
    assert forall|i: int| 0 <= i < n implies x.stepped(
        apply,
        attends,
        #[trigger] bare.ops()[i],
        tokens,
        all[i],
        all[i + 1],
    ) by {
        lemma_cacheless_op(design, i);
        let at = if i < front - 1 {
            i
        } else {
            i + 1
        };
        lemma_step_of(x, apply, attends, design, tokens, trace, at);
        assert(all[i].regs == trace[at].regs);
        assert(all[i + 1].regs == trace[at + 1].regs);
        match bare.ops()[i] {
            BlockOp::Attend { attention } => {
                let regs = trace[at].regs;
                assert(attends(
                    design.attention,
                    regs[Reg::Query],
                    regs[Reg::Key],
                    regs[Reg::Value],
                    trace[at + 1].regs[Reg::Attended],
                ));
                assert(attends(
                    attention,
                    regs[Reg::Query],
                    regs[Reg::Key],
                    regs[Reg::Value],
                    trace[at + 1].regs[Reg::Attended],
                ));
            },
            _ => {},
        }
    }
    assert(x.block_ran(apply, attends, &bare, tokens, all));
    assert(all[0] == (BlockValues { regs: input_only(input), k, v }));
    assert(all.last().regs == trace.last().regs);
}

} // verus!
