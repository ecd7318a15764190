//! Expert selection: tokens go to the experts that their router scores highest.

use crate::kernels::{mix_outputs, weigh_experts};
use crate::block_run::add_rows;
use crate::rows::{append_all, columns, copy_range, filled, lemma_row_bounds, take_columns};
use crate::scalar::{Number, Relation, ScalarOp, Scalars};
use vstd::prelude::*;

verus! {

impl<T: Copy, F: Fn(ScalarOp, T, T) -> T, C: Fn(Number) -> T, Z: Fn(Relation, T, T) -> bool> Scalars<T, F, C, Z> {
    /// Scores compare as numbers do: of two scores at most one is greater, and
    /// a score between two others tells them apart. Rows that hold something
    /// that is not a number have no order.
    pub open spec fn orders(&self, scores: Seq<T>) -> bool {
        &&& forall|a: int, b: int|
            0 <= a < scores.len() && 0 <= b < scores.len() && #[trigger] self.above(
                scores[a],
                scores[b],
            ) ==> !self.above(scores[b], scores[a])
        &&& forall|a: int, b: int, c: int|
            0 <= a < scores.len() && 0 <= b < scores.len() && 0 <= c < scores.len()
                && #[trigger] self.above(scores[a], scores[c]) ==> #[trigger] self.above(
                scores[a],
                scores[b],
            ) || self.above(scores[b], scores[c])
    }

    /// Expert `a` ranks before expert `b`: the greater score first, and of
    /// equal scores the one with the smaller index.
    pub open spec fn ranks_before(&self, scores: Seq<T>, a: int, b: int) -> bool {
        self.above(scores[a], scores[b]) || (!self.above(scores[b], scores[a]) && a < b)
    }

    /// `chosen` lists distinct experts in rank order.
    pub open spec fn in_rank_order(&self, scores: Seq<T>, chosen: Seq<usize>) -> bool {
        &&& forall|i: int| 0 <= i < chosen.len() ==> 0 <= #[trigger] chosen[i] < scores.len()
        &&& forall|i: int, j: int|
            0 <= i < j < chosen.len() ==> self.ranks_before(
                scores,
                #[trigger] chosen[i] as int,
                #[trigger] chosen[j] as int,
            )
    }

    /// `chosen` are the `k` experts that rank first, in rank order; all of them
    /// where there are no more than `k`.
    pub open spec fn is_top_k(&self, scores: Seq<T>, k: nat, chosen: Seq<usize>) -> bool {
        &&& chosen.len() == (if k <= scores.len() {
            k
        } else {
            scores.len()
        })
        &&& self.in_rank_order(scores, chosen)
        &&& forall|m: usize, i: int|
            m < scores.len() && !chosen.contains(m) && 0 <= i < chosen.len()
                ==> #[trigger] self.ranks_before(scores, chosen[i] as int, m as int)
    }

    /// Expert `e` gave `out` for a row.
    pub open spec fn expert_ran<R: Fn(usize, Vec<T>) -> Vec<T>>(
        &self,
        run: R,
        e: usize,
        row: Seq<T>,
        out: Vec<T>,
    ) -> bool {
        exists|a: Vec<T>| a@ == row && #[trigger] call_ensures(run, (e, a), out)
    }

    /// `out` is what the experts in `chosen` give for a row, weighed by the
    /// softmax over their scores, times a factor where there is one.
    pub open spec fn chosen_mixed<R: Fn(usize, Vec<T>) -> Vec<T>>(
        &self,
        run: R,
        row: Seq<T>,
        scores: Seq<T>,
        factor: Option<T>,
        chosen: Seq<usize>,
        outs: Seq<Vec<T>>,
        out: Seq<T>,
    ) -> bool {
        &&& outs.len() == chosen.len()
        &&& forall|i: int|
            0 <= i < chosen.len() ==> self.expert_ran(run, chosen[i], row, #[trigger] outs[i])
        &&& out == self.mixed_outputs(
            self.expert_weights(scores, chosen, factor),
            outs,
            row.len(),
        )
    }

    /// `out` is what the `k` best experts of a row make of it.
    pub open spec fn row_routed<R: Fn(usize, Vec<T>) -> Vec<T>>(
        &self,
        run: R,
        row: Seq<T>,
        scores: Seq<T>,
        k: nat,
        factor: Option<T>,
        out: Seq<T>,
    ) -> bool {
        exists|chosen: Seq<usize>, outs: Seq<Vec<T>>|
            self.is_top_k(scores, k, chosen) && #[trigger] self.chosen_mixed(
                run,
                row,
                scores,
                factor,
                chosen,
                outs,
                out,
            )
    }

    /// Row `s` of `out` is what the best experts of token `s` make of its row.
    pub open spec fn token_routed<R: Fn(usize, Vec<T>) -> Vec<T>>(
        &self,
        run: R,
        rows: Seq<T>,
        scores: Seq<T>,
        hidden: nat,
        experts: nat,
        k: nat,
        factor: Option<T>,
        out: Seq<T>,
        s: int,
    ) -> bool {
        self.row_routed(
            run,
            rows.subrange(s * hidden, s * hidden + hidden),
            scores.subrange(s * experts, s * experts + experts),
            k,
            factor,
            out.subrange(s * hidden, s * hidden + hidden),
        )
    }
}

impl<T: Copy, F: Fn(ScalarOp, T, T) -> T, C: Fn(Number) -> T, Z: Fn(Relation, T, T) -> bool> Scalars<T, F, C, Z> {
    /// Every row of `out` is the row of `beside` with what the best experts of
    /// its token make of it added, weighed by the softmax over their scores.
    pub open spec fn routed_beside<R: Fn(usize, Vec<T>) -> Vec<T>>(
        &self,
        run: R,
        rows: Seq<T>,
        scores: Seq<T>,
        tokens: nat,
        hidden: nat,
        experts: nat,
        k: nat,
        beside: Seq<T>,
        out: Seq<T>,
    ) -> bool {
        exists|routed: Seq<T>|
            {
                &&& routed.len() == tokens * hidden
                &&& forall|s: int|
                    0 <= s < tokens ==> #[trigger] self.token_routed(
                        run,
                        rows,
                        scores,
                        hidden,
                        experts,
                        k,
                        None,
                        routed,
                        s,
                    )
                &&& out == #[trigger] self.residual(beside, routed, None)
            }
    }

    /// What a shared expert gave, or zeros where there is none.
    pub open spec fn shared_or_zeros(&self, shared: Option<Vec<T>>, len: nat) -> Seq<T> {
        match shared {
            Some(s) => s@,
            None => Seq::new(len, |i: int| self.zero()),
        }
    }
}

/// Every expert, in rank order.
pub fn rank_experts<
    T: Copy,
    F: Fn(ScalarOp, T, T) -> T,
    C: Fn(Number) -> T,
    Z: Fn(Relation, T, T) -> bool,
>(x: &Scalars<T, F, C, Z>, scores: &[T]) -> (order: Vec<usize>)
    requires
        x.wf(),
        x.orders(scores@),
    ensures
        order@.len() == scores@.len(),
        x.in_rank_order(scores@, order@),
        forall|m: usize| m < scores@.len() ==> order@.contains(m),
{
    let n: usize = scores.len();
    let mut order: Vec<usize> = Vec::new();
    for i in 0..n
        invariant
            x.wf(),
            x.orders(scores@),
            n == scores@.len(),
            order@.len() == i,
            x.in_rank_order(scores@, order@),
            forall|p: int| 0 <= p < order@.len() ==> #[trigger] order@[p] < i,
            forall|m: usize| m < i ==> order@.contains(m),
    {
        let mut p: usize = 0;
        while p < order.len() && !x.above(scores[i], scores[order[p]])
            invariant
                x.wf(),
                i < n,
                n == scores@.len(),
                p <= order@.len(),
                order@.len() == i,
                forall|q: int| 0 <= q < order@.len() ==> #[trigger] order@[q] < i,
                forall|q: int|
                    0 <= q < p ==> !x.above(scores@[i as int], scores@[#[trigger] order@[q] as int]),
            decreases order@.len() - p,
        {
            p = p + 1;
        }
        let ghost before = order@;
        proof {
            if p < before.len() {
                let at = before[p as int] as int;
                assert forall|q: int| p <= q < before.len() implies x.above(
                    scores@[i as int],
                    scores@[#[trigger] before[q] as int],
                ) by {
                    let other = before[q] as int;
                    if q > p {
                        assert(x.ranks_before(scores@, at, other));
                        assert(x.above(scores@[i as int], scores@[at]));
                        assert(x.above(scores@[i as int], scores@[other]) || x.above(
                            scores@[other],
                            scores@[at],
                        ));
                    }
                }
            }
        }
        order.insert(p, i);
        proof {
            assert forall|m: usize| m < i + 1 implies order@.contains(m) by {
                if m == i {
                    assert(order@[p as int] == i);
                } else {
                    assert(before.contains(m));
                    let q = choose|q: int| 0 <= q < before.len() && before[q] == m;
                    if q < p {
                        assert(order@[q] == m);
                    } else {
                        assert(order@[q + 1] == m);
                    }
                }
            }
            assert forall|a: int, b: int| 0 <= a < b < order@.len() implies x.ranks_before(
                scores@,
                #[trigger] order@[a] as int,
                #[trigger] order@[b] as int,
            ) by {
                let a0 = if a < p {
                    a
                } else {
                    a - 1
                };
                let b0 = if b < p {
                    b
                } else {
                    b - 1
                };
                if a != p && b != p {
                    assert(order@[a] == before[a0] && order@[b] == before[b0]);
                    assert(x.ranks_before(scores@, before[a0] as int, before[b0] as int));
                } else if b == p {
                    assert(order@[a] == before[a]);
                } else {
                    assert(order@[b] == before[b - 1]);
                }
            }
        }
    }
    order
}

/// The `k` experts that rank first.
pub fn top_k<
    T: Copy,
    F: Fn(ScalarOp, T, T) -> T,
    C: Fn(Number) -> T,
    Z: Fn(Relation, T, T) -> bool,
>(x: &Scalars<T, F, C, Z>, scores: &[T], k: usize) -> (chosen: Vec<usize>)
    requires
        x.wf(),
        x.orders(scores@),
    ensures
        x.is_top_k(scores@, k as nat, chosen@),
{
    let order = rank_experts(x, scores);
    let take: usize = if k <= order.len() {
        k
    } else {
        order.len()
    };
    let chosen = copy_range(order.as_slice(), 0, take);
    proof {
        assert forall|i: int| 0 <= i < chosen@.len() implies #[trigger] chosen@[i] == order@[i] by {}
        assert forall|m: usize, i: int|
            m < scores@.len() && !chosen@.contains(m) && 0 <= i < chosen@.len()
                implies #[trigger] x.ranks_before(scores@, chosen@[i] as int, m as int) by {
            assert(order@.contains(m));
            let q = choose|q: int| 0 <= q < order@.len() && order@[q] == m;
            if q < take {
                assert(chosen@[q] == m);
            }
            assert(x.ranks_before(scores@, order@[i] as int, order@[q] as int));
        }
    }
    chosen
}

/// Two lists of the first `k` experts are the same list.
pub proof fn law_top_k_unique<
    T: Copy,
    F: Fn(ScalarOp, T, T) -> T,
    C: Fn(Number) -> T,
    Z: Fn(Relation, T, T) -> bool,
>(x: &Scalars<T, F, C, Z>, scores: Seq<T>, k: nat, a: Seq<usize>, b: Seq<usize>)
    requires
        x.orders(scores),
        x.is_top_k(scores, k, a),
        x.is_top_k(scores, k, b),
    ensures
        a == b,
{
    assert forall|i: int| 0 <= i < a.len() implies a[i] == b[i] by {
        lemma_top_k_agree(x, scores, k, a, b, i);
    }
    assert(a =~= b);
}

proof fn lemma_top_k_agree<
    T: Copy,
    F: Fn(ScalarOp, T, T) -> T,
    C: Fn(Number) -> T,
    Z: Fn(Relation, T, T) -> bool,
>(x: &Scalars<T, F, C, Z>, scores: Seq<T>, k: nat, a: Seq<usize>, b: Seq<usize>, i: int)
    requires
        x.orders(scores),
        x.is_top_k(scores, k, a),
        x.is_top_k(scores, k, b),
        0 <= i < a.len(),
    ensures
        a[i] == b[i],
    decreases i,
{
    assert forall|j: int| 0 <= j < i implies a[j] == b[j] by {
        lemma_top_k_agree(x, scores, k, a, b, j);
    }
    if a[i] != b[i] {
        lemma_not_earlier(x, scores, k, a, b, i);
        lemma_not_earlier(x, scores, k, b, a, i);
    }
}

/// Where two lists agree before `i`, the second has at `i` an expert that
/// ranks no later than the first's.
proof fn lemma_not_earlier<
    T: Copy,
    F: Fn(ScalarOp, T, T) -> T,
    C: Fn(Number) -> T,
    Z: Fn(Relation, T, T) -> bool,
>(x: &Scalars<T, F, C, Z>, scores: Seq<T>, k: nat, a: Seq<usize>, b: Seq<usize>, i: int)
    requires
        x.orders(scores),
        x.is_top_k(scores, k, a),
        x.is_top_k(scores, k, b),
        0 <= i < a.len(),
        forall|j: int| 0 <= j < i ==> a[j] == b[j],
        a[i] != b[i],
    ensures
        x.ranks_before(scores, b[i] as int, a[i] as int),
{
    let e = a[i];
    if b.contains(e) {
        let q = choose|q: int| 0 <= q < b.len() && b[q] == e;
        if q < i {
            assert(a[q] == e);
            assert(x.ranks_before(scores, a[q] as int, a[i] as int));
        }
        assert(i < q);
        assert(x.ranks_before(scores, b[i] as int, b[q] as int));
    } else {
        assert(e < scores.len());
        assert(x.ranks_before(scores, b[i] as int, e as int));
    }
}

/// Runs the best experts of one row and weighs what they give.
fn route_row<
    T: Copy,
    F: Fn(ScalarOp, T, T) -> T,
    C: Fn(Number) -> T,
    Z: Fn(Relation, T, T) -> bool,
    R: Fn(usize, Vec<T>) -> Vec<T>,
>(
    x: &Scalars<T, F, C, Z>,
    row: &[T],
    scores: &[T],
    k: usize,
    factor: Option<T>,
    run: &R,
) -> (out: Vec<T>)
    requires
        x.wf(),
        x.orders(scores@),
        forall|e: usize, a: Vec<T>|
            e < scores@.len() && a@.len() == row@.len() ==> #[trigger] call_requires(*run, (e, a)),
        forall|e: usize, a: Vec<T>, r: Vec<T>| #[trigger]
            call_ensures(*run, (e, a), r) && a@.len() == row@.len() ==> r@.len() == row@.len(),
    ensures
        out@.len() == row@.len(),
        x.row_routed(*run, row@, scores@, k as nat, factor, out@),
{
    let chosen = top_k(x, scores, k);
    let n: usize = chosen.len();
    let mut outs: Vec<Vec<T>> = Vec::new();
    for i in 0..n
        invariant
            n == chosen@.len(),
            forall|i: int| 0 <= i < n ==> #[trigger] chosen@[i] < scores@.len(),
            forall|e: usize, a: Vec<T>|
                e < scores@.len() && a@.len() == row@.len() ==> #[trigger] call_requires(
                    *run,
                    (e, a),
                ),
            forall|e: usize, a: Vec<T>, r: Vec<T>| #[trigger]
                call_ensures(*run, (e, a), r) && a@.len() == row@.len() ==> r@.len() == row@.len(),
            outs@.len() == i,
            forall|j: int| 0 <= j < i ==> #[trigger] outs@[j]@.len() == row@.len(),
            forall|j: int|
                0 <= j < i ==> x.expert_ran(*run, chosen@[j], row@, #[trigger] outs@[j]),
    {
        let own = copy_range(row, 0, row.len());
        assert(own@ =~= row@);
        let ghost args = (chosen@[i as int], own);
        let r = run(chosen[i], own);
        assert(call_ensures(*run, args, r));
        outs.push(r);
    }
    let weights = weigh_experts(x, scores, chosen.as_slice(), factor);
    let out = mix_outputs(x, weights.as_slice(), outs.as_slice(), row.len());
    proof {
        assert(x.chosen_mixed(*run, row@, scores@, factor, chosen@, outs@, out@));
    }
    out
}

/// Routes every token to its `k` best experts and weighs what they give.
///
/// `scores` are the router's, one row of `experts` per token; `run` runs one
/// expert on one row.
pub fn route_tokens<
    T: Copy,
    F: Fn(ScalarOp, T, T) -> T,
    C: Fn(Number) -> T,
    Z: Fn(Relation, T, T) -> bool,
    R: Fn(usize, Vec<T>) -> Vec<T>,
>(
    x: &Scalars<T, F, C, Z>,
    rows: &[T],
    scores: &[T],
    tokens: usize,
    hidden: usize,
    experts: usize,
    k: usize,
    factor: Option<T>,
    run: R,
) -> (out: Vec<T>)
    requires
        x.wf(),
        rows@.len() == tokens * hidden,
        scores@.len() == tokens * experts,
        forall|s: int|
            0 <= s < tokens ==> x.orders(
                #[trigger] scores@.subrange(s * experts, s * experts + experts),
            ),
        forall|e: usize, a: Vec<T>|
            e < experts && a@.len() == hidden ==> #[trigger] call_requires(run, (e, a)),
        forall|e: usize, a: Vec<T>, r: Vec<T>| #[trigger]
            call_ensures(run, (e, a), r) && a@.len() == hidden ==> r@.len() == hidden,
    ensures
        out@.len() == tokens * hidden,
        forall|s: int|
            0 <= s < tokens ==> #[trigger] x.token_routed(
                run,
                rows@,
                scores@,
                hidden as nat,
                experts as nat,
                k as nat,
                factor,
                out@,
                s,
            ),
{
    let rows_len: usize = rows.len();
    let scores_len: usize = scores.len();
    let mut out: Vec<T> = Vec::new();
    assert(0 * hidden == 0);
    for s in 0..tokens
        invariant
            x.wf(),
            rows_len == rows@.len(),
            scores_len == scores@.len(),
            rows_len == tokens * hidden,
            scores_len == tokens * experts,
            forall|s: int|
                0 <= s < tokens ==> x.orders(
                    #[trigger] scores@.subrange(s * experts, s * experts + experts),
                ),
            forall|e: usize, a: Vec<T>|
                e < experts && a@.len() == hidden ==> #[trigger] call_requires(run, (e, a)),
            forall|e: usize, a: Vec<T>, r: Vec<T>| #[trigger]
                call_ensures(run, (e, a), r) && a@.len() == hidden ==> r@.len() == hidden,
            out@.len() == s * hidden,
            forall|t: int|
                0 <= t < s ==> #[trigger] x.token_routed(
                    run,
                    rows@,
                    scores@,
                    hidden as nat,
                    experts as nat,
                    k as nat,
                    factor,
                    out@,
                    t,
                ),
    {
        proof {
            lemma_row_bounds(s as int, tokens as int, hidden as int);
            lemma_row_bounds(s as int, tokens as int, experts as int);
            assert((s + 1) * hidden == s * hidden + hidden) by (nonlinear_arith);
        }
        let row = copy_range(rows, s * hidden, hidden);
        let own = copy_range(scores, s * experts, experts);
        assert(row@ =~= rows@.subrange(s * hidden, s * hidden + hidden));
        assert(own@ =~= scores@.subrange(s * experts, s * experts + experts));
        let ghost before = out@;
        let r = route_row(x, row.as_slice(), own.as_slice(), k, factor, &run);
        append_all(&mut out, r.as_slice());
        proof {
            assert(r@ =~= out@.subrange(s * hidden, s * hidden + hidden));
            assert forall|t: int| 0 <= t < s implies #[trigger] x.token_routed(
                run,
                rows@,
                scores@,
                hidden as nat,
                experts as nat,
                k as nat,
                factor,
                out@,
                t,
            ) by {
                assert(x.token_routed(
                    run,
                    rows@,
                    scores@,
                    hidden as nat,
                    experts as nat,
                    k as nat,
                    factor,
                    before,
                    t,
                ));
                lemma_row_bounds(t, s as int, hidden as int);
                assert(out@.subrange(t * hidden, t * hidden + hidden) =~= before.subrange(
                    t * hidden,
                    t * hidden + hidden,
                ));
            }
        }
    }
    out
}

/// Routes every token to its `k` best experts and adds what they give to what
/// a shared expert gave, or to zeros.
///
/// `scores` are the router's, one row of `gates` per token, of which the first
/// belong to the experts that there are.
pub fn route_beside_shared<
    T: Copy,
    F: Fn(ScalarOp, T, T) -> T,
    C: Fn(Number) -> T,
    Z: Fn(Relation, T, T) -> bool,
    R: Fn(usize, Vec<T>) -> Vec<T>,
>(
    x: &Scalars<T, F, C, Z>,
    rows: &[T],
    scores: &[T],
    tokens: usize,
    hidden: usize,
    gates: usize,
    experts: usize,
    k: usize,
    shared: Option<Vec<T>>,
    run: R,
) -> (out: Vec<T>)
    requires
        x.wf(),
        rows@.len() == tokens * hidden,
        scores@.len() == tokens * gates,
        experts <= gates,
        shared matches Some(s) ==> s@.len() == tokens * hidden,
        forall|s: int|
            0 <= s < tokens ==> x.orders(
                #[trigger] columns(
                    scores@,
                    tokens as nat,
                    gates as nat,
                    0,
                    experts as nat,
                ).subrange(s * experts, s * experts + experts),
            ),
        forall|e: usize, a: Vec<T>|
            e < experts && a@.len() == hidden ==> #[trigger] call_requires(run, (e, a)),
        forall|e: usize, a: Vec<T>, r: Vec<T>| #[trigger]
            call_ensures(run, (e, a), r) && a@.len() == hidden ==> r@.len() == hidden,
    ensures
        out@.len() == tokens * hidden,
        x.routed_beside(
            run,
            rows@,
            columns(scores@, tokens as nat, gates as nat, 0, experts as nat),
            tokens as nat,
            hidden as nat,
            experts as nat,
            k as nat,
            x.shared_or_zeros(shared, (tokens * hidden) as nat),
            out@,
        ),
{
    let own = take_columns(scores, tokens, gates, 0, experts);
    let ghost given = shared;
    let beside = match shared {
        Some(s) => s,
        None => filled(x.zero(), rows.len()),
    };
    assert(beside@ =~= x.shared_or_zeros(given, (tokens * hidden) as nat));
    let routed = route_tokens(x, rows, own.as_slice(), tokens, hidden, experts, k, None, run);
    add_rows(x, beside.as_slice(), routed.as_slice(), None)
}

} // verus!
