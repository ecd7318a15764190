//! What the parts of a row are for, told by what happens without them: a part that
//! reads, one that opens, one that decays.

use crate::activation_law::law_activation_reflects;
use crate::block_program::Activation;
use crate::falcon_h1::FalconH1Config;
use crate::gla_graph::gdl_ops;
use crate::history::{kernel_row, window};
use crate::lfm2::Lfm2Block;
use crate::lfm2_graph::{GraphEnv, GraphOp};
use crate::mamba::FalconH1Block;
use crate::rows::{
    columns, law_columns_cell, lemma_cell_coordinates, lemma_cell_in_rows, lemma_row_bounds,
};
use crate::scalar::{Number, Relation, ScalarOp, Scalars};
use crate::scan::ScanShape;
use vstd::prelude::*;

verus! {

impl<T: Copy, F: Fn(ScalarOp, T, T) -> T, C: Fn(Number) -> T, Z: Fn(Relation, T, T) -> bool> Scalars<T, F, C, Z> {
    /// Exponentials turn sums into products, and logarithms undo them.
    #[verifier::opaque]
    pub open spec fn raises(&self) -> bool {
        &&& forall|a: T, b: T|
            #[trigger] self.times(self.exp(a), self.exp(b)) == self.exp(self.plus(a, b))
        &&& forall|a: T| self.times(self.exp(a), self.exp(#[trigger] self.negated(a)))
            == self.one()
        &&& forall|a: T| #[trigger] self.exp(self.ln(a)) == a
    }

    proof fn lemma_raises(&self, a: T, b: T)
        requires
            self.raises(),
        ensures
            self.times(self.exp(a), self.exp(b)) == self.exp(self.plus(a, b)),
            self.times(self.exp(a), self.exp(self.negated(a))) == self.one(),
            self.exp(self.ln(a)) == a,
    {
        reveal(Scalars::raises);
    }

    proof fn lemma_nothing_added(&self, start: T, n: nat, term: spec_fn(int) -> T)
        requires
            self.ring(),
            forall|i: int| 0 <= i < n ==> #[trigger] term(i) == self.zero(),
        ensures
            self.gathered(start, n, term) == start,
        decreases n,
    {
        if n > 0 {
            self.lemma_nothing_added(start, (n - 1) as nat, term);
            assert(term(n - 1) == self.zero());
            self.plus_zero(start);
        }
    }
}

/// The step size bends at zero: its exponential is one more than that of rate and
/// bias together, and so it exceeds the step size of the negated rate and bias by
/// exactly their sum.
pub proof fn law_step_size_bends_at_zero<
    T: Copy,
    F: Fn(ScalarOp, T, T) -> T,
    C: Fn(Number) -> T,
    Z: Fn(Relation, T, T) -> bool,
>(x: &Scalars<T, F, C, Z>, rate: T, bias: T)
    requires
        x.ring(),
        x.raises(),
    ensures
        x.exp(x.step_size(rate, bias)) == x.plus(x.one(), x.exp(x.plus(rate, bias))),
        x.exp(x.step_size(rate, bias)) == x.times(
            x.exp(x.plus(rate, bias)),
            x.exp(x.step_size(x.negated(x.plus(rate, bias)), x.zero())),
        ),
{
    let z = x.plus(rate, bias);
    let n = x.negated(z);
    x.plus_zero(n);
    x.times_plus(x.exp(z), x.one(), x.exp(n));
    x.times_one(x.exp(z));
    x.lemma_raises(z, n);
    x.lemma_raises(x.plus(x.one(), x.exp(z)), z);
    x.lemma_raises(x.plus(x.one(), x.exp(n)), z);
    x.plus_comm(x.exp(z), x.one());
}

/// Cells that get no input decay by the time that passes: two steps one after the
/// other leave what one step of both sizes together leaves.
pub proof fn law_quiet_steps_add_up<
    T: Copy,
    F: Fn(ScalarOp, T, T) -> T,
    C: Fn(Number) -> T,
    Z: Fn(Relation, T, T) -> bool,
>(
    x: &Scalars<T, F, C, Z>,
    dt: T,
    more: T,
    a: T,
    cells: Seq<T>,
    b: Seq<T>,
    other: Seq<T>,
    any: Seq<T>,
)
    requires
        x.ring(),
        x.raises(),
    ensures
        x.scanned_cells(more, a, x.zero(), x.scanned_cells(dt, a, x.zero(), cells, b), other)
            == x.scanned_cells(x.plus(dt, more), a, x.zero(), cells, any),
{
    let first = x.scanned_cells(dt, a, x.zero(), cells, b);
    let twice = x.scanned_cells(more, a, x.zero(), first, other);
    let once = x.scanned_cells(x.plus(dt, more), a, x.zero(), cells, any);
    let (p, q) = (x.times(dt, a), x.times(more, a));
    x.times_plus(a, dt, more);
    assert(x.times(x.plus(dt, more), a) == x.plus(p, q));
    x.lemma_raises(p, q);
    x.times_zero(dt);
    x.times_zero(more);
    x.times_zero(x.plus(dt, more));
    assert forall|k: int| 0 <= k < cells.len() implies twice[k] == once[k] by {
        x.times_zero(b[k]);
        x.times_zero(other[k]);
        x.times_zero(any[k]);
        x.plus_zero(x.times(cells[k], x.exp(p)));
        x.plus_zero(x.times(x.times(cells[k], x.exp(p)), x.exp(q)));
        x.plus_zero(x.times(cells[k], x.exp(x.plus(p, q))));
        x.times_assoc(cells[k], x.exp(p), x.exp(q));
    }
    assert(twice =~= once);
}

/// The last of the state-wide parts of a row reads the cells: a token whose last
/// part is zero gives the same whatever the channel's cells hold.
pub proof fn law_unread_cells_do_not_show<
    T: Copy,
    F: Fn(ScalarOp, T, T) -> T,
    C: Fn(Number) -> T,
    Z: Fn(Relation, T, T) -> bool,
>(
    x: &Scalars<T, F, C, Z>,
    shape: &ScanShape,
    w: &FalconH1Block<T>,
    rows: Seq<T>,
    rates: Seq<T>,
    before: Seq<T>,
    other: Seq<T>,
    tokens: nat,
    i: int,
    t: int,
)
    requires
        x.ring(),
        shape.wf(),
        0 <= i < shape.used(),
        0 <= t < tokens,
        rows.len() == tokens * shape.width,
        before.len() == shape.inner * shape.state,
        other.len() == before.len(),
        forall|k: int|
            0 <= k < shape.state ==> #[trigger] rows[t * shape.width + shape.inner + shape.state
                + k] == x.zero(),
    ensures
        x.channel_output(shape, w, rows, rates, before, i, t) == x.channel_output(
            shape,
            w,
            rows,
            rates,
            other,
            i,
            t,
        ),
{
    lemma_row_bounds(t, tokens as int, shape.width as int);
    lemma_row_bounds(i, shape.inner as int, shape.state as int);
    let at = t * shape.width;
    let c = rows.subrange(at + shape.inner + shape.state, at + shape.inner + 2 * shape.state);
    let (p, q) = (
        x.channel_cells(shape, w, rows, rates, before, i, (t + 1) as nat),
        x.channel_cells(shape, w, rows, rates, other, i, (t + 1) as nat),
    );
    lemma_cells_len(x, shape, w, rows, rates, before, i, (t + 1) as nat);
    lemma_cells_len(x, shape, w, rows, rates, other, i, (t + 1) as nat);
    let (f, g) = (|k: int| x.times(p[k], c[k]), |k: int| x.times(q[k], c[k]));
    assert forall|k: int| 0 <= k < shape.state implies #[trigger] f(k) == x.zero() by {
        assert(c[k] == rows[t * shape.width + shape.inner + shape.state + k]);
        x.times_zero(p[k]);
    }
    assert forall|k: int| 0 <= k < shape.state implies #[trigger] g(k) == x.zero() by {
        assert(c[k] == rows[t * shape.width + shape.inner + shape.state + k]);
        x.times_zero(q[k]);
    }
    x.lemma_nothing_added(x.zero(), shape.state as nat, f);
    x.lemma_nothing_added(x.zero(), shape.state as nat, g);
}

proof fn lemma_cells_len<
    T: Copy,
    F: Fn(ScalarOp, T, T) -> T,
    C: Fn(Number) -> T,
    Z: Fn(Relation, T, T) -> bool,
>(
    x: &Scalars<T, F, C, Z>,
    shape: &ScanShape,
    w: &FalconH1Block<T>,
    rows: Seq<T>,
    rates: Seq<T>,
    before: Seq<T>,
    i: int,
    n: nat,
)
    requires
        0 <= i * shape.state,
        i * shape.state + shape.state <= before.len(),
    ensures
        x.channel_cells(shape, w, rows, rates, before, i, n).len() == shape.state,
    decreases n,
{
    if n > 0 {
        lemma_cells_len(x, shape, w, rows, rates, before, i, (n - 1) as nat);
    }
}

/// The first of the state-wide parts opens the cells: where it is zero in every
/// token, what the channel is fed does not show in its cells.
pub proof fn law_closed_cells_take_nothing<
    T: Copy,
    F: Fn(ScalarOp, T, T) -> T,
    C: Fn(Number) -> T,
    Z: Fn(Relation, T, T) -> bool,
>(
    x: &Scalars<T, F, C, Z>,
    shape: &ScanShape,
    w: &FalconH1Block<T>,
    rows: Seq<T>,
    other: Seq<T>,
    rates: Seq<T>,
    before: Seq<T>,
    tokens: nat,
    i: int,
    n: nat,
)
    requires
        x.ring(),
        shape.wf(),
        0 <= i < shape.used(),
        n <= tokens,
        rows.len() == tokens * shape.width,
        other.len() == rows.len(),
        before.len() == shape.inner * shape.state,
        forall|t: int, k: int|
            0 <= t < tokens && 0 <= k < shape.state ==> #[trigger] rows[t * shape.width
                + shape.inner + k] == x.zero(),
        forall|t: int, k: int|
            0 <= t < tokens && 0 <= k < shape.state ==> #[trigger] other[t * shape.width
                + shape.inner + k] == x.zero(),
    ensures
        x.channel_cells(shape, w, rows, rates, before, i, n) == x.channel_cells(
            shape,
            w,
            other,
            rates,
            before,
            i,
            n,
        ),
    decreases n,
{
    if n > 0 {
        law_closed_cells_take_nothing(
            x,
            shape,
            w,
            rows,
            other,
            rates,
            before,
            tokens,
            i,
            (n - 1) as nat,
        );
        let t = n - 1;
        let at = t * shape.width;
        lemma_row_bounds(t, tokens as int, shape.width as int);
        lemma_row_bounds(i, shape.inner as int, shape.state as int);
        lemma_cells_len(x, shape, w, rows, rates, before, i, t as nat);
        let dt = x.channel_step(shape, w, rates, i, t);
        let (p, q) = (x.times(rows[at + i], dt), x.times(other[at + i], dt));
        let (b, d) = (
            rows.subrange(at + shape.inner, at + shape.inner + shape.state),
            other.subrange(at + shape.inner, at + shape.inner + shape.state),
        );
        assert forall|k: int| 0 <= k < shape.state implies x.times(#[trigger] b[k], p) == x.zero()
            && x.times(d[k], q) == x.zero() by {
            assert(b[k] == rows[t * shape.width + shape.inner + k]);
            assert(d[k] == other[t * shape.width + shape.inner + k]);
            x.times_zero(p);
            x.times_zero(q);
        }
        assert(x.channel_cells(shape, w, rows, rates, before, i, n) =~= x.channel_cells(
            shape,
            w,
            other,
            rates,
            before,
            i,
            n,
        ));
    }
}

/// The first columns of a projected row open what the state-space part gives: an
/// entry whose opening column is zero gives zero.
pub proof fn law_closed_entries_give_nothing<
    T: Copy,
    F: Fn(ScalarOp, T, T) -> T,
    C: Fn(Number) -> T,
    Z: Fn(Relation, T, T) -> bool,
>(
    x: &Scalars<T, F, C, Z>,
    cfg: &FalconH1Config,
    w: &FalconH1Block<T>,
    kept: Seq<T>,
    state: Seq<T>,
    ssm: Seq<T>,
    tokens: nat,
    t: int,
    i: int,
)
    requires
        x.exact(),
        x.unit(x.plus(x.one(), x.exp(x.negated(x.zero())))),
        0 <= t < tokens,
        0 <= i < cfg.ssm_d_inner,
        cfg.scan_shape().inner == cfg.ssm_d_inner,
        ssm[t * cfg.in_dim() + i] == x.zero(),
    ensures
        x.layer_rows(cfg, w, kept, state, ssm, tokens)[t * cfg.ssm_d_inner + i] == x.zero(),
{
    let inner = cfg.ssm_d_inner as nat;
    let p = t * inner + i;
    law_columns_cell(ssm, tokens, cfg.in_dim() as nat, 0, inner, t, i);
    lemma_cell_in_rows(t, i, tokens as int, inner as int);
    let one_more = x.plus(x.one(), x.exp(x.negated(x.zero())));
    x.times_zero(one_more);
    x.unit_cancel(x.silu_of(x.zero()), x.zero(), one_more);
    x.times_zero(x.layer_scan(cfg, w, kept, state, ssm, tokens)[p]);
}

/// The middle part of a projected row opens what a short convolution gives: an
/// entry whose middle column is zero gives zero, whatever came before.
pub proof fn law_closed_convolution_gives_nothing<
    T: Copy,
    F: Fn(ScalarOp, T, T) -> T,
    C: Fn(Number) -> T,
    Z: Fn(Relation, T, T) -> bool,
>(
    x: &Scalars<T, F, C, Z>,
    proj: Seq<T>,
    kernel: Seq<T>,
    kept: Seq<T>,
    steps: nat,
    h_dim: nat,
    taps: nat,
    t: int,
    d: int,
)
    requires
        x.ring(),
        0 <= t < steps,
        0 <= d < h_dim,
        proj.len() == steps * (3 * h_dim),
        proj[t * (3 * h_dim) + h_dim + d] == x.zero(),
    ensures
        x.shortconv_rows(proj, kernel, kept, steps, h_dim, taps)[t * h_dim + d] == x.zero(),
{
    law_columns_cell(proj, steps, 3 * h_dim, h_dim, h_dim, t, d);
    lemma_cell_in_rows(t, d, steps as int, h_dim as int);
    lemma_cell_coordinates(t, d, h_dim as int);
    let own = kernel_row(kernel, taps, d);
    let seen = window(kept + x.gated_inputs(proj, steps, h_dim), h_dim, taps, t, d);
    let last = own.len() - 1;
    let sum = x.gathered(
        x.times(own[last], seen[last]),
        last as nat,
        |k: int| x.times(own[k], seen[k]),
    );
    x.times_zero(sum);
}

/// A block adds what each of its two mixers gives: without one of them it is the
/// residual sum of the other, and without both the row itself.
pub proof fn law_each_mixer_is_added<
    T: Copy,
    F: Fn(ScalarOp, T, T) -> T,
    C: Fn(Number) -> T,
    Z: Fn(Relation, T, T) -> bool,
>(
    x: &Scalars<T, F, C, Z>,
    h: Seq<T>,
    attended: Seq<T>,
    ssm: Seq<T>,
    nothing: Seq<T>,
)
    requires
        x.ring(),
        attended.len() == h.len(),
        ssm.len() == h.len(),
        nothing == Seq::new(h.len(), |i: int| x.zero()),
    ensures
        x.mixers_added(h, attended, nothing) == x.residual(h, attended, None),
        x.mixers_added(h, nothing, ssm) == x.residual(h, ssm, None),
        x.mixers_added(h, nothing, nothing) == h,
{
    assert(attended.take(h.len() as int) =~= attended);
    assert(nothing.take(h.len() as int) =~= nothing);
    assert forall|i: int| 0 <= i < h.len() implies x.plus(#[trigger] attended[i], x.zero())
        == attended[i] && x.plus(x.zero(), ssm[i]) == ssm[i] && x.plus(h[i], x.zero()) == h[i]
        && x.plus(x.zero(), x.zero()) == x.zero() by {
        x.plus_zero(attended[i]);
        x.plus_zero(ssm[i]);
        x.plus_zero(h[i]);
        x.plus_zero(x.zero());
    }
    assert forall|i: int| 0 <= i < h.len() implies x.mixers_added(h, nothing, nothing)[i] == h[i]
        && x.mixers_added(h, attended, nothing)[i] == x.residual(h, attended, None)[i]
        && x.mixers_added(h, nothing, ssm)[i] == x.residual(h, ssm, None)[i] by {
        let a = attended[i];
    }
    assert(x.mixers_added(h, attended, nothing) =~= x.residual(h, attended, None));
    assert(x.mixers_added(h, nothing, ssm) =~= x.residual(h, ssm, None));
    assert(x.mixers_added(h, nothing, nothing) =~= h);
}

/// Where the exponentials of scores add up to more than nothing, the probabilities
/// of experts are the softmax of their scores.
pub proof fn law_probabilities_are_the_softmax<
    T: Copy,
    F: Fn(ScalarOp, T, T) -> T,
    C: Fn(Number) -> T,
    Z: Fn(Relation, T, T) -> bool,
>(x: &Scalars<T, F, C, Z>, scores: Seq<T>)
    requires
        x.above(x.row_sum(x.exponentials_of(scores)), x.zero()),
    ensures
        x.probabilities_of(scores) == x.softmax_of(scores, None),
{
    assert(x.probabilities_of(scores) =~= x.softmax_of(scores, None));
}

/// No score is raised before it is taken down by the greatest: of several scores,
/// one is raised to the exponential of zero, where the larger of two numbers is one
/// of them and nothing lies below the least.
pub proof fn law_one_score_is_raised_to_zero<
    T: Copy,
    F: Fn(ScalarOp, T, T) -> T,
    C: Fn(Number) -> T,
    Z: Fn(Relation, T, T) -> bool,
>(x: &Scalars<T, F, C, Z>, scores: Seq<T>)
    requires
        x.ring(),
        scores.len() > 0,
        forall|a: T, b: T| #[trigger] x.larger(a, b) == a || x.larger(a, b) == b,
        forall|a: T| x.larger(x.bottom(), a) == a,
    ensures
        exists|i: int|
            0 <= i < scores.len() && #[trigger] x.exponentials_of(scores)[i] == x.exp(x.zero()),
{
    let i = lemma_highest_is_a_score(x, scores, scores.len());
    let top = scores[i];
    x.minus_is(top, top);
    x.plus_negated(top);
    assert(x.exponentials_of(scores)[i] == x.exp(x.zero()));
}

proof fn lemma_highest_is_a_score<
    T: Copy,
    F: Fn(ScalarOp, T, T) -> T,
    C: Fn(Number) -> T,
    Z: Fn(Relation, T, T) -> bool,
>(x: &Scalars<T, F, C, Z>, scores: Seq<T>, n: nat) -> (i: int)
    requires
        0 < n <= scores.len(),
        forall|a: T, b: T| #[trigger] x.larger(a, b) == a || x.larger(a, b) == b,
        forall|a: T| x.larger(x.bottom(), a) == a,
    ensures
        0 <= i < n,
        x.highest(scores, n) == scores[i],
    decreases n,
{
    if n == 1 {
        assert(x.highest(scores, 0) == x.bottom());
        0
    } else {
        let before = lemma_highest_is_a_score(x, scores, (n - 1) as nat);
        if x.highest(scores, n) == x.highest(scores, (n - 1) as nat) {
            before
        } else {
            n - 1
        }
    }
}

/// A score is the product of a query and a key over the root of their width:
/// multiplied with the root, it is the product again.
pub proof fn law_scores_are_taken_down_by_the_root<
    T: Copy,
    F: Fn(ScalarOp, T, T) -> T,
    C: Fn(Number) -> T,
    Z: Fn(Relation, T, T) -> bool,
>(
    x: &Scalars<T, F, C, Z>,
    q: Seq<T>,
    keys: Seq<T>,
    n: nat,
    t: int,
)
    requires
        x.exact(),
        0 <= t < n,
        q.len() <= usize::MAX,
        x.unit(x.root(x.number(q.len() as usize))),
    ensures
        x.times(x.head_scores(None, q, keys, n)[t], x.root(x.number(q.len() as usize)))
            == x.dot_at(q, keys, t * q.len()),
{
    let r = x.root(x.number(q.len() as usize));
    let dot = x.dot_at(q, keys, t * q.len());
    x.times_assoc(dot, x.score_scale(q.len() as usize), r);
    assert(x.times(x.over(x.one(), r), r) == x.one());
    x.times_one(dot);
}

/// Two tables are as far apart either way, a table lies at no distance from itself,
/// and the distance of tables is that of their first rows and that of their last.
pub proof fn law_distance_adds_up<
    T: Copy,
    F: Fn(ScalarOp, T, T) -> T,
    C: Fn(Number) -> T,
    Z: Fn(Relation, T, T) -> bool,
>(
    x: &Scalars<T, F, C, Z>,
    rows: nat,
    cols: nat,
    a: Seq<Seq<T>>,
    b: Seq<Seq<T>>,
)
    requires
        x.ring(),
        rows < a.len(),
        rows < b.len(),
    ensures
        x.squared_distance(rows, cols, a, a) == x.zero(),
        x.squared_distance(rows + 1, cols, a, b) == x.plus(
            x.squared_distance(rows, cols, a, b),
            x.squared_distance(1, cols, seq![a[rows as int]], seq![b[rows as int]]),
        ),
        cols == 1 ==> x.squared_distance(1, cols, a, b) == x.times(
            x.minus(a[0][0], b[0][0]),
            x.minus(a[0][0], b[0][0]),
        ),
{
    let square = |i: int, j: int|
        x.times(x.minus(a[i][j], b[i][j]), x.minus(a[i][j], b[i][j]));
    let own = |i: int, j: int|
        x.times(x.minus(a[i][j], a[i][j]), x.minus(a[i][j], a[i][j]));
    let over_rows = |i: int| x.total(cols, |j: int| own(i, j));
    assert forall|i: int| 0 <= i < rows implies #[trigger] over_rows(i) == x.zero() by {
        let term = |j: int| own(i, j);
        assert forall|j: int| 0 <= j < cols implies #[trigger] term(j) == x.zero() by {
            x.minus_is(a[i][j], a[i][j]);
            x.plus_negated(a[i][j]);
            x.times_zero(x.zero());
        }
        x.lemma_nothing_added(x.zero(), cols, term);
    }
    x.lemma_nothing_added(x.zero(), rows, over_rows);
    let (la, lb) = (seq![a[rows as int]], seq![b[rows as int]]);
    let last = |i: int, j: int|
        x.times(x.minus(la[i][j], lb[i][j]), x.minus(la[i][j], lb[i][j]));
    let (p, q) = (|j: int| square(rows as int, j), |j: int| last(0, j));
    x.lemma_gathered_same(x.zero(), cols, p, q);
    x.plus_zero(x.total(cols, q));
    let by_row = |i: int| x.total(cols, |j: int| last(i, j));
    assert(x.gathered(x.zero(), 1, by_row) == x.plus(x.gathered(x.zero(), 0, by_row), by_row(0)));
    if cols == 1 {
        let first = |j: int| square(0, j);
        let all = |i: int| x.total(cols, |j: int| square(i, j));
        assert(x.gathered(x.zero(), 1, all) == x.plus(x.gathered(x.zero(), 0, all), all(0)));
        assert(x.gathered(x.zero(), 1, first) == x.plus(
            x.gathered(x.zero(), 0, first),
            first(0),
        ));
        x.plus_zero(square(0, 0));
    }
}

/// Where heads share keys and values, the repeated ones are as many as the heads.
pub proof fn law_repeated_heads_are_all_heads(
    block: &Lfm2Block,
    env: &GraphEnv,
    i: usize,
    fuse_norm: bool,
    at: int,
)
    requires
        block.num_kv_heads > 0,
        block.num_heads % block.num_kv_heads == 0,
        0 <= at < gdl_ops(block, env, i, fuse_norm).len(),
    ensures
        gdl_ops(block, env, i, fuse_norm)[at] matches GraphOp::HeadRepeat {
            kv_heads,
            heads,
            times,
            ..
        } ==> kv_heads * times == heads && kv_heads == block.num_kv_heads && heads
            == block.num_heads,
{
    vstd::arithmetic::div_mod::lemma_fundamental_div_mod(
        block.num_heads as int,
        block.num_kv_heads as int,
    );
}

/// What opens a row counts by the activation: a row opened by some numbers, less the
/// same row opened by their negations, is the row weighed by the numbers. The rows of
/// the state-space part are opened like those of a feed-forward part.
pub proof fn law_opened_rows_reflect<
    T: Copy,
    F: Fn(ScalarOp, T, T) -> T,
    C: Fn(Number) -> T,
    Z: Fn(Relation, T, T) -> bool,
>(
    x: &Scalars<T, F, C, Z>,
    cfg: &FalconH1Config,
    ssm: Seq<T>,
    y: Seq<T>,
    tokens: nat,
    gate: Seq<T>,
    turned: Seq<T>,
    i: int,
)
    requires
        x.exact(),
        x.bends_evenly(),
        gate.len() == y.len(),
        turned == Seq::new(gate.len(), |j: int| x.negated(gate[j])),
        0 <= i < gate.len(),
        x.decays_at(gate[i]),
        x.decays_at(x.negated(gate[i])),
        y.len() == tokens * cfg.ssm_d_inner,
    ensures
        x.minus(x.gated(gate, y)[i], x.gated(turned, y)[i]) == x.times(gate[i], y[i]),
        x.gated_rows(cfg, ssm, y, tokens) == x.gated(
            columns(ssm, tokens, cfg.in_dim() as nat, 0, cfg.ssm_d_inner as nat),
            y,
        ),
{
    let (z, n, u) = (gate[i], x.negated(gate[i]), y[i]);
    law_activation_reflects(x, Activation::Silu, z);
    let (a, b) = (x.silu_of(z), x.silu_of(n));
    x.minus_is(a, b);
    x.minus_is(x.times(a, u), x.times(b, u));
    x.times_plus(u, a, x.negated(b));
    x.times_negated(u, b);
    x.times_comm(u, x.negated(b));
    x.times_comm(u, b);
    assert(x.gated_rows(cfg, ssm, y, tokens) =~= x.gated(
        columns(ssm, tokens, cfg.in_dim() as nat, 0, cfg.ssm_d_inner as nat),
        y,
    ));
}

} // verus!
