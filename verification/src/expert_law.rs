//! Experts: each runs by itself on its own weights, and tokens are routed by
//! their own scores.

use crate::lfm2_moe::{expert_block, ExpertStacks};
use crate::rows::{lemma_flat_index, lemma_row_bounds};
use crate::scalar::{Number, Relation, ScalarOp, Scalars};
use vstd::prelude::*;

verus! {

/// The block of expert `e` in one stack is the block of expert `f` in another.
pub open spec fn same_expert<T>(
    stack: Seq<T>,
    e: nat,
    other: Seq<T>,
    f: nat,
    len: nat,
) -> bool {
    &&& e * len + len <= stack.len()
    &&& f * len + len <= other.len()
    &&& forall|i: int| 0 <= i < len ==> #[trigger] stack[e * len + i] == other[f * len + i]
}

proof fn lemma_same_expert<T>(stack: Seq<T>, e: nat, other: Seq<T>, f: nat, len: nat)
    requires
        same_expert(stack, e, other, f, len),
    ensures
        expert_block(stack, e as int, len as int) == expert_block(other, f as int, len as int),
{
    let (a, b) = (
        expert_block(stack, e as int, len as int),
        expert_block(other, f as int, len as int),
    );
    lemma_row_bounds(e as int, (e + 1) as int, len as int);
    lemma_row_bounds(f as int, (f + 1) as int, len as int);
    assert forall|i: int| 0 <= i < len implies a[i] == b[i] by {
        assert(stack[e * len + i] == other[f * len + i]);
    }
    assert(a =~= b);
}

/// Experts run alike wherever they stand, and only the chosen one matters: two
/// tokens with the same row, whose chosen experts hold the same weights and have
/// the same probability, get the same row, whatever the other experts hold.
pub proof fn law_experts_run_alike<
    T: Copy,
    F: Fn(ScalarOp, T, T) -> T,
    C: Fn(Number) -> T,
    Z: Fn(Relation, T, T) -> bool,
>(
    x: &Scalars<T, F, C, Z>,
    rows: Seq<T>,
    scores: Seq<T>,
    stacks: ExpertStacks<Seq<T>>,
    experts: nat,
    s: nat,
    other_rows: Seq<T>,
    other_scores: Seq<T>,
    other: ExpertStacks<Seq<T>>,
    other_experts: nat,
    t: nat,
    hidden: nat,
    n_ff: nat,
)
    requires
        s * hidden + hidden <= rows.len(),
        t * hidden + hidden <= other_rows.len(),
        forall|i: int|
            0 <= i < hidden ==> #[trigger] rows[s * hidden + i] == other_rows[t * hidden + i],
        ({
            let e = x.expert_of(scores, experts, s as int);
            let f = x.expert_of(other_scores, other_experts, t as int);
            &&& x.expert_probabilities(scores, experts, s as int)[e as int]
                == x.expert_probabilities(other_scores, other_experts, t as int)[f as int]
            &&& same_expert(stacks.gate, e, other.gate, f, n_ff * hidden)
            &&& same_expert(stacks.up, e, other.up, f, n_ff * hidden)
            &&& same_expert(stacks.down, e, other.down, f, n_ff * hidden)
        }),
    ensures
        x.routed_row(rows, scores, stacks, experts, hidden, n_ff, s as int) == x.routed_row(
            other_rows,
            other_scores,
            other,
            other_experts,
            hidden,
            n_ff,
            t as int,
        ),
{
    let e = x.expert_of(scores, experts, s as int);
    let f = x.expert_of(other_scores, other_experts, t as int);
    lemma_same_expert(stacks.gate, e, other.gate, f, n_ff * hidden);
    lemma_same_expert(stacks.up, e, other.up, f, n_ff * hidden);
    lemma_same_expert(stacks.down, e, other.down, f, n_ff * hidden);
    lemma_row_bounds(s as int, (s + 1) as int, hidden as int);
    lemma_row_bounds(t as int, (t + 1) as int, hidden as int);
    let a = rows.subrange((s * hidden) as int, (s * hidden + hidden) as int);
    let b = other_rows.subrange((t * hidden) as int, (t * hidden + hidden) as int);
    assert forall|i: int| 0 <= i < hidden implies a[i] == b[i] by {
        assert(rows[s * hidden + i] == other_rows[t * hidden + i]);
    }
    assert(a =~= b);
}

/// A token is routed by its own scores: tokens with the same scores have the same
/// expert, with the same probability.
pub proof fn law_tokens_are_routed_alike<
    T: Copy,
    F: Fn(ScalarOp, T, T) -> T,
    C: Fn(Number) -> T,
    Z: Fn(Relation, T, T) -> bool,
>(
    x: &Scalars<T, F, C, Z>,
    scores: Seq<T>,
    other: Seq<T>,
    experts: nat,
    s: nat,
    t: nat,
)
    requires
        s * experts + experts <= scores.len(),
        t * experts + experts <= other.len(),
        forall|i: int|
            0 <= i < experts ==> #[trigger] scores[s * experts + i] == other[t * experts + i],
    ensures
        x.expert_of(scores, experts, s as int) == x.expert_of(other, experts, t as int),
        x.expert_probabilities(scores, experts, s as int) == x.expert_probabilities(
            other,
            experts,
            t as int,
        ),
{
    lemma_row_bounds(s as int, (s + 1) as int, experts as int);
    lemma_row_bounds(t as int, (t + 1) as int, experts as int);
    let a = scores.subrange((s * experts) as int, (s * experts + experts) as int);
    let b = other.subrange((t * experts) as int, (t * experts + experts) as int);
    assert forall|i: int| 0 <= i < experts implies a[i] == b[i] by {
        assert(scores[s * experts + i] == other[t * experts + i]);
    }
    assert(a =~= b);
}

/// A bias is added to every score of its own expert: scores and biases that are
/// the same at an expert give the same, whatever the others are.
pub proof fn law_bias_belongs_to_its_expert<
    T: Copy,
    F: Fn(ScalarOp, T, T) -> T,
    C: Fn(Number) -> T,
    Z: Fn(Relation, T, T) -> bool,
>(
    x: &Scalars<T, F, C, Z>,
    scores: Seq<T>,
    bias: Seq<T>,
    other: Seq<T>,
    other_bias: Seq<T>,
    s: nat,
    e: nat,
)
    requires
        0 < bias.len(),
        other_bias.len() == bias.len(),
        e < bias.len(),
        s * bias.len() + bias.len() <= scores.len(),
        other.len() == bias.len(),
        scores[(s * bias.len() + e) as int] == other[e as int],
        bias[e as int] == other_bias[e as int],
    ensures
        x.biased(scores, Some(bias))[(s * bias.len() + e) as int] == x.biased(
            other,
            Some(other_bias),
        )[e as int],
{
    let n = bias.len();
    lemma_row_bounds(s as int, (s + 1) as int, n as int);
    crate::rows::lemma_cell_coordinates(s as int, e as int, n as int);
    crate::rows::lemma_cell_coordinates(0, e as int, n as int);
}

/// Unit `f` of an expert's feed-forward part, as a part of one unit.
pub open spec fn unit_of<T>(weights: Seq<T>, f: int, hidden: nat) -> Seq<T> {
    weights.subrange(f * hidden, f * hidden + hidden)
}

/// An expert adds up over its units: it gives the sum of what its units give,
/// each taken as an expert of one unit.
pub proof fn law_expert_is_the_sum_of_its_units<
    T: Copy,
    F: Fn(ScalarOp, T, T) -> T,
    C: Fn(Number) -> T,
    Z: Fn(Relation, T, T) -> bool,
>(
    x: &Scalars<T, F, C, Z>,
    row: Seq<T>,
    gate: Seq<T>,
    up: Seq<T>,
    down: Seq<T>,
    n_ff: nat,
    p: T,
    d: int,
)
    requires
        x.ring(),
        0 <= d < row.len(),
        n_ff * row.len() <= gate.len(),
        n_ff * row.len() <= up.len(),
        n_ff * row.len() <= down.len(),
    ensures
        x.expert_row(row, gate, up, down, n_ff, p)[d] == x.gathered(
            x.zero(),
            n_ff,
            |f: int|
                x.expert_row(
                    row,
                    unit_of(gate, f, row.len()),
                    unit_of(up, f, row.len()),
                    unit_of(down, f, row.len()),
                    1,
                    p,
                )[d],
        ),
{
    let n = row.len();
    let act = |f: int|
        x.times(x.silu_of(x.dot_at(row, gate, f * n)), x.dot_at(row, up, f * n));
    let term = |f: int| x.times(act(f), down[f * n + d]);
    let whole = |f: int|
        x.expert_row(
            row,
            unit_of(gate, f, n),
            unit_of(up, f, n),
            unit_of(down, f, n),
            1,
            p,
        )[d];
    assert forall|f: int| 0 <= f < n_ff implies #[trigger] whole(f) == x.times(p, term(f)) by {
        lemma_row_bounds(f, n_ff as int, n as int);
        let (g1, u1, d1) = (unit_of(gate, f, n), unit_of(up, f, n), unit_of(down, f, n));
        assert(0 * n == 0);
        x.lemma_gathered_same(
            x.zero(),
            n,
            |i: int| x.times(row[i], g1[0 + i]),
            |i: int| x.times(row[i], gate[f * n + i]),
        );
        x.lemma_gathered_same(
            x.zero(),
            n,
            |i: int| x.times(row[i], u1[0 + i]),
            |i: int| x.times(row[i], up[f * n + i]),
        );
        assert(x.dot_at(row, g1, 0) == x.dot_at(row, gate, f * n));
        assert(x.dot_at(row, u1, 0) == x.dot_at(row, up, f * n));
        let act1 = Seq::new(
            1,
            |f: int|
                x.times(x.silu_of(x.dot_at(row, g1, f * n)), x.dot_at(row, u1, f * n)),
        );
        assert(act1[0] == act(f));
        let inner = |f: int| x.times(act1[f], d1[f * n + d]);
        assert(inner(0) == term(f));
        assert(x.gathered(x.zero(), 1, inner) == x.plus(x.gathered(x.zero(), 0, inner), inner(0)));
        x.plus_zero(inner(0));
        x.times_comm(term(f), p);
    }
    x.gathered_times(n_ff, p, term, whole);
    let acts = Seq::new(
        n_ff,
        |f: int| x.times(x.silu_of(x.dot_at(row, gate, f * n)), x.dot_at(row, up, f * n)),
    );
    x.lemma_gathered_same(
        x.zero(),
        n_ff,
        term,
        |f: int| x.times(acts[f], down[f * n + d]),
    );
    x.times_comm(x.gathered(x.zero(), n_ff, term), p);
}

/// Chosen experts are weighed by their own scores: two choices whose experts have
/// the same scores, in the same order, have the same weights, whatever the scores
/// of the experts that were not chosen.
pub proof fn law_weights_follow_the_chosen_scores<
    T: Copy,
    F: Fn(ScalarOp, T, T) -> T,
    C: Fn(Number) -> T,
    Z: Fn(Relation, T, T) -> bool,
>(
    x: &Scalars<T, F, C, Z>,
    scores: Seq<T>,
    chosen: Seq<usize>,
    other: Seq<T>,
    other_chosen: Seq<usize>,
    factor: Option<T>,
)
    requires
        chosen.len() == other_chosen.len(),
        forall|i: int|
            0 <= i < chosen.len() ==> scores[#[trigger] chosen[i] as int]
                == other[other_chosen[i] as int],
    ensures
        x.expert_weights(scores, chosen, factor) == x.expert_weights(other, other_chosen, factor),
{
    let a = Seq::new(chosen.len(), |i: int| scores[chosen[i] as int]);
    let b = Seq::new(other_chosen.len(), |i: int| other[other_chosen[i] as int]);
    assert forall|i: int| 0 <= i < a.len() implies a[i] == b[i] by {
        assert(scores[chosen[i] as int] == other[other_chosen[i] as int]);
    }
    assert(a =~= b);
}

/// Mixing gives every expert its own weight: with a weight of one for expert `i`
/// and of zero for the others, the mix is what that expert gave.
pub proof fn law_mix_of_one_expert_is_its_output<
    T: Copy,
    F: Fn(ScalarOp, T, T) -> T,
    C: Fn(Number) -> T,
    Z: Fn(Relation, T, T) -> bool,
>(x: &Scalars<T, F, C, Z>, weights: Seq<T>, outs: Seq<Vec<T>>, dim: nat, i: int)
    requires
        x.ring(),
        0 <= i < outs.len(),
        outs[i]@.len() == dim,
        forall|e: int|
            0 <= e < outs.len() ==> #[trigger] weights[e] == if e == i {
                x.one()
            } else {
                x.zero()
            },
    ensures
        x.mixed_outputs(weights, outs, dim) == outs[i]@,
{
    let mix = x.mixed_outputs(weights, outs, dim);
    assert forall|d: int| 0 <= d < dim implies mix[d] == outs[i]@[d] by {
        let column = Seq::new(outs.len(), |e: int| outs[e]@[d]);
        x.lemma_only_term(
            outs.len(),
            i,
            outs[i]@[d],
            |e: int| x.times(weights[e], outs[e]@[d]),
            column,
            weights,
        );
    }
    assert(mix =~= outs[i]@);
}

/// A token is routed by its own row and its own scores: where two tokens have the
/// same row, the same scores and the same result, the one is routed where the
/// other is, wherever they stand.
pub proof fn law_tokens_are_mixed_alike<
    T: Copy,
    F: Fn(ScalarOp, T, T) -> T,
    C: Fn(Number) -> T,
    Z: Fn(Relation, T, T) -> bool,
    R: Fn(usize, Vec<T>) -> Vec<T>,
>(
    x: &Scalars<T, F, C, Z>,
    run: R,
    rows: Seq<T>,
    scores: Seq<T>,
    out: Seq<T>,
    s: nat,
    other_rows: Seq<T>,
    other_scores: Seq<T>,
    other_out: Seq<T>,
    t: nat,
    hidden: nat,
    experts: nat,
    k: nat,
    factor: Option<T>,
)
    requires
        s * hidden + hidden <= rows.len(),
        s * hidden + hidden <= out.len(),
        s * experts + experts <= scores.len(),
        t * hidden + hidden <= other_rows.len(),
        t * hidden + hidden <= other_out.len(),
        t * experts + experts <= other_scores.len(),
        same_expert(rows, s, other_rows, t, hidden),
        same_expert(scores, s, other_scores, t, experts),
        same_expert(out, s, other_out, t, hidden),
        x.token_routed(run, rows, scores, hidden, experts, k, factor, out, s as int),
    ensures
        x.token_routed(
            run,
            other_rows,
            other_scores,
            hidden,
            experts,
            k,
            factor,
            other_out,
            t as int,
        ),
{
    lemma_same_expert(rows, s, other_rows, t, hidden);
    lemma_same_expert(scores, s, other_scores, t, experts);
    lemma_same_expert(out, s, other_out, t, hidden);
}

/// An expert is linear in its up projection and in its weight: the activation
/// bends its opening projection and nothing beside it.
pub proof fn law_expert_is_linear_beside_its_gate<
    T: Copy,
    F: Fn(ScalarOp, T, T) -> T,
    C: Fn(Number) -> T,
    Z: Fn(Relation, T, T) -> bool,
>(
    x: &Scalars<T, F, C, Z>,
    row: Seq<T>,
    gate: Seq<T>,
    up: Seq<T>,
    more: Seq<T>,
    both: Seq<T>,
    down: Seq<T>,
    n_ff: nat,
    p: T,
    d: int,
)
    requires
        x.ring(),
        0 <= d < row.len(),
        forall|i: int|
            0 <= i < n_ff * row.len() ==> #[trigger] both[i] == x.plus(up[i], more[i]),
    ensures
        x.expert_row(row, gate, both, down, n_ff, p)[d] == x.plus(
            x.expert_row(row, gate, up, down, n_ff, p)[d],
            x.expert_row(row, gate, more, down, n_ff, p)[d],
        ),
{
    let n = row.len();
    let act = |w: Seq<T>, f: int|
        x.times(x.silu_of(x.dot_at(row, gate, f * n)), x.dot_at(row, w, f * n));
    let term = |w: Seq<T>, f: int| x.times(act(w, f), down[f * n + d]);
    let (ta, tb, tc) = (|f: int| term(up, f), |f: int| term(more, f), |f: int| term(both, f));
    assert forall|f: int| 0 <= f < n_ff implies #[trigger] tc(f) == x.plus(ta(f), tb(f)) by {
        lemma_row_bounds(f, n_ff as int, n as int);
        let (ua, ub, uc) = (
            |i: int| x.times(row[i], up[f * n + i]),
            |i: int| x.times(row[i], more[f * n + i]),
            |i: int| x.times(row[i], both[f * n + i]),
        );
        assert forall|i: int| 0 <= i < n implies #[trigger] uc(i) == x.plus(ua(i), ub(i)) by {
            assert(both[f * n + i] == x.plus(up[f * n + i], more[f * n + i]));
            x.times_plus(row[i], up[f * n + i], more[f * n + i]);
        }
        x.gathered_plus(n, ua, ub, uc);
        let g = x.silu_of(x.dot_at(row, gate, f * n));
        x.times_plus(g, x.dot_at(row, up, f * n), x.dot_at(row, more, f * n));
        x.times_plus(down[f * n + d], act(up, f), act(more, f));
    }
    x.gathered_plus(n_ff, ta, tb, tc);
    let sum = |w: Seq<T>| x.gathered(x.zero(), n_ff, |f: int| term(w, f));
    assert forall|w: Seq<T>| #[trigger] x.expert_row(row, gate, w, down, n_ff, p)[d] == x.times(
        sum(w),
        p,
    ) by {
        let acts = Seq::new(
            n_ff,
            |f: int| x.times(x.silu_of(x.dot_at(row, gate, f * n)), x.dot_at(row, w, f * n)),
        );
        x.lemma_gathered_same(
            x.zero(),
            n_ff,
            |f: int| term(w, f),
            |f: int| x.times(acts[f], down[f * n + d]),
        );
    }
    assert(sum(up) == x.gathered(x.zero(), n_ff, ta)) by {
        x.lemma_gathered_same(x.zero(), n_ff, |f: int| term(up, f), ta);
    }
    assert(sum(more) == x.gathered(x.zero(), n_ff, tb)) by {
        x.lemma_gathered_same(x.zero(), n_ff, |f: int| term(more, f), tb);
    }
    assert(sum(both) == x.gathered(x.zero(), n_ff, tc)) by {
        x.lemma_gathered_same(x.zero(), n_ff, |f: int| term(both, f), tc);
    }
    x.times_plus(p, sum(up), sum(more));
}

/// Without a shared expert, every token gets what its own experts make of it and
/// nothing beside.
pub proof fn law_without_a_shared_expert_the_routed_ones_answer<
    T: Copy,
    F: Fn(ScalarOp, T, T) -> T,
    C: Fn(Number) -> T,
    Z: Fn(Relation, T, T) -> bool,
    R: Fn(usize, Vec<T>) -> Vec<T>,
>(
    x: &Scalars<T, F, C, Z>,
    run: R,
    rows: Seq<T>,
    scores: Seq<T>,
    tokens: nat,
    hidden: nat,
    experts: nat,
    k: nat,
    out: Seq<T>,
)
    requires
        x.ring(),
        x.routed_beside(
            run,
            rows,
            scores,
            tokens,
            hidden,
            experts,
            k,
            x.shared_or_zeros(None, tokens * hidden),
            out,
        ),
    ensures
        forall|s: int|
            0 <= s < tokens ==> #[trigger] x.token_routed(
                run,
                rows,
                scores,
                hidden,
                experts,
                k,
                None,
                out,
                s,
            ),
{
    let beside = x.shared_or_zeros(None, tokens * hidden);
    let routed = choose|routed: Seq<T>|
        {
            &&& routed.len() == tokens * hidden
            &&& forall|s: int|
                0 <= s < tokens ==> #[trigger] x.token_routed(
                    run,
                    rows,
                    scores,
                    hidden,
                    experts,
                    k,
                    None,
                    routed,
                    s,
                )
            &&& out == #[trigger] x.residual(beside, routed, None)
        };
    assert forall|i: int| 0 <= i < out.len() implies out[i] == routed[i] by {
        x.plus_zero(routed[i]);
    }
    assert(out =~= routed);
}

/// Where no expert is chosen, every token gets what the shared expert gave for it.
pub proof fn law_without_chosen_experts_the_shared_one_answers<
    T: Copy,
    F: Fn(ScalarOp, T, T) -> T,
    C: Fn(Number) -> T,
    Z: Fn(Relation, T, T) -> bool,
    R: Fn(usize, Vec<T>) -> Vec<T>,
>(
    x: &Scalars<T, F, C, Z>,
    run: R,
    rows: Seq<T>,
    scores: Seq<T>,
    tokens: nat,
    hidden: nat,
    experts: nat,
    shared: Vec<T>,
    out: Seq<T>,
)
    requires
        x.ring(),
        shared@.len() == tokens * hidden,
        rows.len() == tokens * hidden,
        x.routed_beside(
            run,
            rows,
            scores,
            tokens,
            hidden,
            experts,
            0,
            x.shared_or_zeros(Some(shared), tokens * hidden),
            out,
        ),
    ensures
        out == shared@,
{
    let beside = x.shared_or_zeros(Some(shared), tokens * hidden);
    let routed = choose|routed: Seq<T>|
        {
            &&& routed.len() == tokens * hidden
            &&& forall|s: int|
                0 <= s < tokens ==> #[trigger] x.token_routed(
                    run,
                    rows,
                    scores,
                    hidden,
                    experts,
                    0,
                    None,
                    routed,
                    s,
                )
            &&& out == #[trigger] x.residual(beside, routed, None)
        };
    assert forall|i: int| 0 <= i < out.len() implies out[i] == shared@[i] by {
        lemma_flat_index(i, tokens as int, hidden as int);
        let (s, d) = (i / hidden as int, i % hidden as int);
        lemma_row_bounds(s, tokens as int, hidden as int);
        assert(x.token_routed(run, rows, scores, hidden, experts, 0, None, routed, s));
        let row = rows.subrange(s * hidden, s * hidden + hidden);
        let own = scores.subrange(s * experts, s * experts + experts);
        let given = routed.subrange(s * hidden, s * hidden + hidden);
        let (chosen, outs) = choose|chosen: Seq<usize>, outs: Seq<Vec<T>>|
            x.is_top_k(own, 0, chosen) && #[trigger] x.chosen_mixed(
                run,
                row,
                own,
                None,
                chosen,
                outs,
                given,
            );
        assert(outs.len() == 0);
        assert(given[d] == x.zero());
        assert(given[d] == routed[i]);
        x.plus_zero(shared@[i]);
    }
    assert(out =~= shared@);
}

/// The weights of experts grow with the factor, each by itself; and where every
/// expert is chosen in turn, the weights without one are the softmax of the scores.
pub proof fn law_weights_grow_with_the_factor<
    T: Copy,
    F: Fn(ScalarOp, T, T) -> T,
    C: Fn(Number) -> T,
    Z: Fn(Relation, T, T) -> bool,
>(
    x: &Scalars<T, F, C, Z>,
    scores: Seq<T>,
    chosen: Seq<usize>,
    factor: T,
    i: int,
)
    requires
        0 <= i < chosen.len(),
    ensures
        x.expert_weights(scores, chosen, Some(factor))[i] == x.times(
            x.expert_weights(scores, chosen, None)[i],
            factor,
        ),
        chosen.len() == scores.len() && (forall|e: int|
            0 <= e < chosen.len() ==> #[trigger] chosen[e] == e) ==> x.expert_weights(
            scores,
            chosen,
            None,
        ) == x.softmax_of(scores, Some(x.tiny())),
{
    if chosen.len() == scores.len() && (forall|e: int|
        0 <= e < chosen.len() ==> #[trigger] chosen[e] == e) {
        let picked = Seq::new(chosen.len(), |e: int| scores[chosen[e] as int]);
        assert forall|e: int| 0 <= e < picked.len() implies picked[e] == scores[e] by {
            assert(chosen[e] == e);
        }
        assert(picked =~= scores);
    }
}

/// Of two experts with scores of which neither is greater, the earlier comes first;
/// and of any two experts exactly one does.
pub proof fn law_earlier_of_equals_comes_first<
    T: Copy,
    F: Fn(ScalarOp, T, T) -> T,
    C: Fn(Number) -> T,
    Z: Fn(Relation, T, T) -> bool,
>(x: &Scalars<T, F, C, Z>, scores: Seq<T>, a: int, b: int)
    requires
        x.orders(scores),
        0 <= a < b < scores.len(),
    ensures
        !x.above(scores[a], scores[b]) && !x.above(scores[b], scores[a]) ==> x.ranks_before(
            scores,
            a,
            b,
        ),
        x.above(scores[b], scores[a]) ==> x.ranks_before(scores, b, a),
        x.ranks_before(scores, a, b) != x.ranks_before(scores, b, a),
{
}

} // verus!
