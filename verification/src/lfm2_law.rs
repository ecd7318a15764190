//! Decoding token by token and prefilling in one call give an LFM2 layer the
//! same rows.

use crate::lfm2::Lfm2Block;
use crate::lfm2_moe::row_of;
use crate::lfm2_run::{head_positions, HostState, Lfm2HostWeights, Lfm2Part, Lfm2Rows};
use crate::rows::{
    lemma_cell_coordinates, lemma_flat_index, lemma_row_bounds, lemma_widths_add, stacked,
};
use crate::scalar::{Number, Relation, ScalarOp, Scalars};
use crate::shortconv::law_shortconv_in_two_calls;
use crate::surroundings::{looks_causally, part_by_rows, turns_by_rows, HeadShape, Surroundings};
use vstd::prelude::*;

verus! {

impl Lfm2Block {
    /// The layer's parts and rotations treat every row for itself, and
    /// attention is causal: for `a` tokens after `held` and the `b` tokens that
    /// follow, `both` gives what `some` gives for the ones and `other` for the
    /// others.
    pub open spec fn by_rows<T, G1, R1, H1, G2, R2, H2, G, R, H>(
        &self,
        some: &Surroundings<G1, R1, H1>,
        other: &Surroundings<G2, R2, H2>,
        both: &Surroundings<G, R, H>,
        hidden: nat,
        held: nat,
        a: nat,
        b: nat,
    ) -> bool where
        G1: Fn(Lfm2Part, Vec<T>) -> Vec<T>,
        R1: Fn(Vec<T>, Vec<u32>) -> Vec<T>,
        H1: Fn(HeadShape, Vec<T>, Vec<T>, Vec<T>) -> Vec<T>,
        G2: Fn(Lfm2Part, Vec<T>) -> Vec<T>,
        R2: Fn(Vec<T>, Vec<u32>) -> Vec<T>,
        H2: Fn(HeadShape, Vec<T>, Vec<T>, Vec<T>) -> Vec<T>,
        G: Fn(Lfm2Part, Vec<T>) -> Vec<T>,
        R: Fn(Vec<T>, Vec<u32>) -> Vec<T>,
        H: Fn(HeadShape, Vec<T>, Vec<T>, Vec<T>) -> Vec<T>,
     {
        &&& forall|p: Lfm2Part| #[trigger]
            self.has_part(p) ==> part_by_rows::<Lfm2Part, T, G1, R1, H1, G2, R2, H2, G, R, H>(
                some,
                other,
                both,
                p,
                a,
                b,
                self.part_takes(hidden, p),
            )
        &&& self.attends() ==> turns_by_rows::<T, G1, R1, H1, G2, R2, H2, G, R, H>(
            some,
            other,
            both,
            self.head_dim as nat,
        )
        &&& self.attends() ==> looks_causally::<T, G1, R1, H1, G2, R2, H2, G, R, H>(
            some,
            other,
            both,
            self.head_shape(),
            held,
            a,
            b,
            self.q_width(),
            self.kv_width(),
        )
    }
}

proof fn lemma_residual_joined<
    T: Copy,
    F: Fn(ScalarOp, T, T) -> T,
    C: Fn(Number) -> T,
    Z: Fn(Relation, T, T) -> bool,
>(x: &Scalars<T, F, C, Z>, a: Seq<T>, b: Seq<T>, a2: Seq<T>, b2: Seq<T>)
    requires
        a.len() == b.len(),
        a2.len() == b2.len(),
    ensures
        x.residual(a + a2, b + b2, None) == x.residual(a, b, None) + x.residual(a2, b2, None),
{
    assert(x.residual(a + a2, b + b2, None) =~= x.residual(a, b, None) + x.residual(
        a2,
        b2,
        None,
    ));
}

proof fn lemma_positions_joined(past: int, steps: nat, more: nat, heads: nat)
    ensures
        head_positions(past, steps, heads) + head_positions(past + steps, more, heads)
            == head_positions(past, steps + more, heads),
{
    let n = heads as int;
    assert((steps + more) * heads == steps * heads + more * heads) by (nonlinear_arith);
    let all = head_positions(past, steps + more, heads);
    let parts = head_positions(past, steps, heads) + head_positions(past + steps, more, heads);
    assert forall|i: int| 0 <= i < all.len() implies all[i] == parts[i] by {
        if i >= steps * heads {
            let j = i - steps * heads;
            lemma_flat_index(j, more as int, n);
            assert(i == (steps + j / n) * n + j % n) by (nonlinear_arith)
                requires
                    i == steps * heads + j,
                    n == heads,
                    j == (j / n) * n + j % n,
            ;
            lemma_cell_coordinates(steps + j / n, j % n, n);
        }
    }
    assert(all =~= parts);
}

proof fn lemma_rows_counted(held: int, steps: int, width: int)
    requires
        0 <= held,
        0 <= steps,
        0 < width,
    ensures
        (held + steps * width) / width == held / width + steps,
{
    vstd::arithmetic::div_mod::lemma_fundamental_div_mod(held, width);
    vstd::arithmetic::div_mod::lemma_mod_bound(held, width);
    let q = held / width;
    let r = held % width;
    assert(held + steps * width == (q + steps) * width + r) by (nonlinear_arith)
        requires
            held == width * q + r,
    ;
    lemma_cell_coordinates(q + steps, r, width);
}

proof fn lemma_experts_joined<
    T: Copy,
    F: Fn(ScalarOp, T, T) -> T,
    C: Fn(Number) -> T,
    Z: Fn(Relation, T, T) -> bool,
>(
    x: &Scalars<T, F, C, Z>,
    block: &Lfm2Block,
    w: &Lfm2HostWeights<T>,
    hidden: nat,
    steps: nat,
    more: nat,
    rows: Seq<T>,
    rows2: Seq<T>,
    scores: Seq<T>,
    scores2: Seq<T>,
    out: Seq<T>,
    out2: Seq<T>,
    whole: Seq<T>,
)
    requires
        x.experts_gave(block, w, hidden, steps, rows, scores, out),
        x.experts_gave(block, w, hidden, more, rows2, scores2, out2),
        x.experts_gave(
            block,
            w,
            hidden,
            steps + more,
            rows + rows2,
            scores + scores2,
            whole,
        ),
        rows.len() == steps * hidden,
        rows2.len() == more * hidden,
        scores.len() == steps * block.n_expert,
        scores2.len() == more * block.n_expert,
        w.bias_held() matches Some(b) ==> b.len() == block.n_expert,
    ensures
        whole == out + out2,
{
    let experts = block.n_expert as int;
    let h = hidden as int;
    let bias = w.bias_held();
    let one = x.biased(scores, bias);
    let two = x.biased(scores2, bias);
    let both = x.biased(scores + scores2, bias);
    assert(both =~= one + two) by {
        assert forall|i: int| 0 <= i < both.len() implies both[i] == (one + two)[i] by {
            if i >= scores.len() && bias is Some {
                let j = i - scores.len();
                lemma_flat_index(j, more as int, experts);
                assert(i == (steps + j / experts) * experts + j % experts) by (nonlinear_arith)
                    requires
                        i == steps * experts + j,
                        j == (j / experts) * experts + j % experts,
                ;
                lemma_cell_coordinates(steps + j / experts, j % experts, experts);
            }
        }
    }
    assert((steps + more) * h == steps * h + more * h) by (nonlinear_arith);
    assert forall|s: int| 0 <= s < steps + more implies #[trigger] row_of(out + out2, h, s)
        == x.routed_row(
        rows + rows2,
        both,
        w.stacks.held(),
        block.n_expert as nat,
        hidden,
        block.ffn_gate.outputs as nat,
        s,
    ) by {
        if s < steps {
            lemma_row_bounds(s, steps as int, h);
            lemma_row_bounds(s, steps as int, experts);
            assert(row_of(out + out2, h, s) =~= row_of(out, h, s));
            assert((rows + rows2).subrange(s * h, s * h + h) =~= rows.subrange(s * h, s * h + h));
            assert(both.subrange(s * experts, s * experts + experts) =~= one.subrange(
                s * experts,
                s * experts + experts,
            ));
        } else {
            let t = s - steps;
            lemma_row_bounds(t, more as int, h);
            lemma_row_bounds(t, more as int, experts);
            assert(s * h == steps * h + t * h) by (nonlinear_arith)
                requires
                    s == steps + t,
            ;
            assert(s * experts == steps * experts + t * experts) by (nonlinear_arith)
                requires
                    s == steps + t,
            ;
            assert(row_of(out + out2, h, s) =~= row_of(out2, h, t));
            assert((rows + rows2).subrange(s * h, s * h + h) =~= rows2.subrange(
                t * h,
                t * h + h,
            ));
            assert(both.subrange(s * experts, s * experts + experts) =~= two.subrange(
                t * experts,
                t * experts + experts,
            ));
        }
    }
    lemma_experts_settled(
        x,
        block,
        w,
        hidden,
        steps + more,
        rows + rows2,
        scores + scores2,
        whole,
        out + out2,
    );
}

proof fn lemma_experts_settled<
    T: Copy,
    F: Fn(ScalarOp, T, T) -> T,
    C: Fn(Number) -> T,
    Z: Fn(Relation, T, T) -> bool,
>(
    x: &Scalars<T, F, C, Z>,
    block: &Lfm2Block,
    w: &Lfm2HostWeights<T>,
    hidden: nat,
    steps: nat,
    rows: Seq<T>,
    scores: Seq<T>,
    out: Seq<T>,
    out2: Seq<T>,
)
    requires
        x.experts_gave(block, w, hidden, steps, rows, scores, out),
        x.experts_gave(block, w, hidden, steps, rows, scores, out2),
    ensures
        out == out2,
{
    let h = hidden as int;
    assert forall|i: int| 0 <= i < out.len() implies out[i] == out2[i] by {
        lemma_flat_index(i, steps as int, h);
        let (s, c) = (i / h, i % h);
        lemma_row_bounds(s, steps as int, h);
        assert(row_of(out, h, s) == row_of(out2, h, s));
        assert(row_of(out, h, s)[c] == out[i]);
        assert(row_of(out2, h, s)[c] == out2[i]);
    }
    assert(out =~= out2);
}

impl Lfm2Block {
    /// What the layer looks back on is what it keeps: the rows of the
    /// convolution, or `held` rows of keys and of values.
    pub open spec fn starts<T>(&self, hidden: nat, held: nat, before: HostState<T>) -> bool {
        &&& self.convolves() ==> self.taps() >= 1 && before.kept.len() == (self.taps() - 1)
            * hidden
        &&& self.attends() ==> {
            &&& self.kv_width() > 0
            &&& before.k.len() == held * self.kv_width()
            &&& before.v.len() == before.k.len()
        }
    }
}

#[verifier::spinoff_prover]
#[verifier::rlimit(60)]
proof fn lemma_mixer_joined<
    T: Copy,
    F: Fn(ScalarOp, T, T) -> T,
    C: Fn(Number) -> T,
    Z: Fn(Relation, T, T) -> bool,
    G1: Fn(Lfm2Part, Vec<T>) -> Vec<T>,
    R1: Fn(Vec<T>, Vec<u32>) -> Vec<T>,
    H1: Fn(HeadShape, Vec<T>, Vec<T>, Vec<T>) -> Vec<T>,
    G2: Fn(Lfm2Part, Vec<T>) -> Vec<T>,
    R2: Fn(Vec<T>, Vec<u32>) -> Vec<T>,
    H2: Fn(HeadShape, Vec<T>, Vec<T>, Vec<T>) -> Vec<T>,
    G: Fn(Lfm2Part, Vec<T>) -> Vec<T>,
    R: Fn(Vec<T>, Vec<u32>) -> Vec<T>,
    H: Fn(HeadShape, Vec<T>, Vec<T>, Vec<T>) -> Vec<T>,
>(
    x: &Scalars<T, F, C, Z>,
    some: &Surroundings<G1, R1, H1>,
    other: &Surroundings<G2, R2, H2>,
    both: &Surroundings<G, R, H>,
    block: &Lfm2Block,
    w: &Lfm2HostWeights<T>,
    hidden: nat,
    held: nat,
    steps: nat,
    more: nat,
    before: HostState<T>,
    between: HostState<T>,
    after: HostState<T>,
    after_all: HostState<T>,
    rows: Lfm2Rows<T>,
    rows2: Lfm2Rows<T>,
    all: Lfm2Rows<T>,
)
    requires
        block.by_rows::<T, G1, R1, H1, G2, R2, H2, G, R, H>(
            some,
            other,
            both,
            hidden,
            held,
            steps,
            more,
        ),
        block.starts(hidden, held, before),
        w.bias_held() matches Some(b) ==> b.len() == block.n_expert,
        x.mixer_ran(some, block, w, hidden, steps, before, between, rows),
        x.mixer_ran(other, block, w, hidden, more, between, after, rows2),
        x.mixer_ran(both, block, w, hidden, steps + more, before, after_all, all),
        rows.mixer_sized(block, hidden, steps),
        rows2.mixer_sized(block, hidden, more),
        all.normed == rows.normed + rows2.normed,
    ensures
        all.mixed == rows.mixed + rows2.mixed,
        after_all == after,
{
    let n = steps + more;
    let (kv, qw) = (block.kv_width(), block.q_width());
    lemma_widths_add(steps, more, hidden);
    lemma_widths_add(steps, more, 3 * hidden);
    lemma_widths_add(steps, more, kv);
    lemma_widths_add(steps, more, qw);
    if block.convolves() {
        assert(block.has_part(Lfm2Part::ShortConvIn));
        assert(block.has_part(Lfm2Part::ShortConvOut));
        assert(all.proj == rows.proj + rows2.proj);
        let taps = block.taps() as nat;
        law_shortconv_in_two_calls(
            x,
            rows.proj,
            rows2.proj,
            w.conv@,
            before.kept,
            steps,
            more,
            hidden,
            taps,
        );
        let conv = x.shortconv_rows(rows.proj, w.conv@, before.kept, steps, hidden, taps);
        let conv2 = x.shortconv_rows(rows2.proj, w.conv@, between.kept, more, hidden, taps);
        assert(both.part_ran(Lfm2Part::ShortConvOut, conv + conv2, all.mixed));
        assert(after_all =~= after);
    } else {
        let (h, g, d) = (
            block.num_heads as nat,
            block.num_kv_heads as nat,
            block.head_dim as nat,
        );
        let past = before.k.len() as int / kv as int;
        lemma_rows_counted(before.k.len() as int, steps as int, kv as int);
        assert(between.k.len() as int / kv as int == past + steps);
        lemma_positions_joined(past, steps, more, h);
        lemma_positions_joined(past, steps, more, g);
        lemma_widths_add(held, steps, kv);
        assert((steps * h) * d == steps * (h * d) && (more * h) * d == more * (h * d) && (steps
            * g) * d == steps * (g * d) && (more * g) * d == more * (g * d)) by (nonlinear_arith);
        assert(block.has_part(Lfm2Part::Query));
        assert(block.has_part(Lfm2Part::Key));
        assert(block.has_part(Lfm2Part::Value));
        assert(block.has_part(Lfm2Part::QueryNorm));
        assert(block.has_part(Lfm2Part::KeyNorm));
        assert(block.has_part(Lfm2Part::AttnOut));
        assert(all.q == rows.q + rows2.q);
        assert(all.k == rows.k + rows2.k);
        assert(all.v == rows.v + rows2.v);
        assert(all.q_norm == rows.q_norm + rows2.q_norm);
        assert(all.k_norm == rows.k_norm + rows2.k_norm);
        assert(all.q_rot == rows.q_rot + rows2.q_rot);
        assert(all.k_rot == rows.k_rot + rows2.k_rot);
        assert(before.k + all.k_rot =~= between.k + rows2.k_rot);
        assert(before.v + all.v =~= between.v + rows2.v);
        assert(after_all =~= after);
        assert(all.attended == rows.attended + rows2.attended);
        assert(all.mixed == rows.mixed + rows2.mixed);
    }
}

/// Decoding matches prefill: running a layer on a stretch of tokens in one call
/// gives the rows of two calls, and leaves the same to look back on.
///
/// `some` and `other` run the parts of the two calls, `both` those of the one.
#[verifier::spinoff_prover]
pub proof fn law_step_in_two_calls<
    T: Copy,
    F: Fn(ScalarOp, T, T) -> T,
    C: Fn(Number) -> T,
    Z: Fn(Relation, T, T) -> bool,
    G1: Fn(Lfm2Part, Vec<T>) -> Vec<T>,
    R1: Fn(Vec<T>, Vec<u32>) -> Vec<T>,
    H1: Fn(HeadShape, Vec<T>, Vec<T>, Vec<T>) -> Vec<T>,
    G2: Fn(Lfm2Part, Vec<T>) -> Vec<T>,
    R2: Fn(Vec<T>, Vec<u32>) -> Vec<T>,
    H2: Fn(HeadShape, Vec<T>, Vec<T>, Vec<T>) -> Vec<T>,
    G: Fn(Lfm2Part, Vec<T>) -> Vec<T>,
    R: Fn(Vec<T>, Vec<u32>) -> Vec<T>,
    H: Fn(HeadShape, Vec<T>, Vec<T>, Vec<T>) -> Vec<T>,
>(
    x: &Scalars<T, F, C, Z>,
    some: &Surroundings<G1, R1, H1>,
    other: &Surroundings<G2, R2, H2>,
    both: &Surroundings<G, R, H>,
    block: &Lfm2Block,
    w: &Lfm2HostWeights<T>,
    hidden: nat,
    held: nat,
    steps: nat,
    more: nat,
    before: HostState<T>,
    between: HostState<T>,
    after: HostState<T>,
    after_all: HostState<T>,
    input: Seq<T>,
    input2: Seq<T>,
    rows: Lfm2Rows<T>,
    rows2: Lfm2Rows<T>,
    all: Lfm2Rows<T>,
    out: Seq<T>,
    out2: Seq<T>,
    out_all: Seq<T>,
)
    requires
        block.by_rows::<T, G1, R1, H1, G2, R2, H2, G, R, H>(
            some,
            other,
            both,
            hidden,
            held,
            steps,
            more,
        ),
        block.starts(hidden, held, before),
        w.bias_held() matches Some(b) ==> b.len() == block.n_expert,
        input.len() == steps * hidden,
        input2.len() == more * hidden,
        x.step_ran(some, block, w, hidden, steps, before, between, input, rows, out),
        x.step_ran(other, block, w, hidden, more, between, after, input2, rows2, out2),
        x.step_ran(
            both,
            block,
            w,
            hidden,
            steps + more,
            before,
            after_all,
            input + input2,
            all,
            out_all,
        ),
    ensures
        out_all == out + out2,
        after_all == after,
{
    assert(block.has_part(Lfm2Part::AttnNorm));
    assert(block.has_part(Lfm2Part::FfnNorm));
    assert(all.normed == rows.normed + rows2.normed);
    lemma_mixer_joined(
        x,
        some,
        other,
        both,
        block,
        w,
        hidden,
        held,
        steps,
        more,
        before,
        between,
        after,
        after_all,
        rows,
        rows2,
        all,
    );
    let inter = block.ffn_gate.outputs as nat;
    lemma_widths_add(steps, more, hidden);
    lemma_widths_add(steps, more, inter);
    lemma_widths_add(steps, more, block.n_expert as nat);
    let sum = x.residual(input, rows.mixed, None);
    let sum2 = x.residual(input2, rows2.mixed, None);
    lemma_residual_joined(x, input, rows.mixed, input2, rows2.mixed);
    assert(all.ffn_normed == rows.ffn_normed + rows2.ffn_normed);
    if block.is_moe {
        assert(block.has_part(Lfm2Part::Router));
        assert(all.ffn_scores == rows.ffn_scores + rows2.ffn_scores);
        lemma_experts_joined(
            x,
            block,
            w,
            hidden,
            steps,
            more,
            rows.ffn_normed,
            rows2.ffn_normed,
            rows.ffn_scores,
            rows2.ffn_scores,
            rows.down,
            rows2.down,
            all.down,
        );
    } else {
        assert(block.has_part(Lfm2Part::Gate));
        assert(block.has_part(Lfm2Part::Up));
        assert(block.has_part(Lfm2Part::Down));
        assert(all.gate == rows.gate + rows2.gate);
        assert(all.up == rows.up + rows2.up);
        assert(x.gated(all.gate, all.up) =~= x.gated(rows.gate, rows.up) + x.gated(
            rows2.gate,
            rows2.up,
        ));
        assert(all.down == rows.down + rows2.down);
    }
    lemma_residual_joined(x, sum, rows.down, sum2, rows2.down);
}

/// One call on a stretch of tokens.
pub struct Lfm2Call<T> {
    pub input: Seq<T>,
    pub rows: Lfm2Rows<T>,
    pub out: Seq<T>,
    pub after: HostState<T>,
}

impl<T: Copy, F: Fn(ScalarOp, T, T) -> T, C: Fn(Number) -> T, Z: Fn(Relation, T, T) -> bool> Scalars<T, F, C, Z> {
    /// A call ran on `steps` tokens.
    pub open spec fn call_ran<G, R, H>(
        &self,
        outside: &Surroundings<G, R, H>,
        block: &Lfm2Block,
        w: &Lfm2HostWeights<T>,
        hidden: nat,
        steps: nat,
        before: HostState<T>,
        call: Lfm2Call<T>,
    ) -> bool where
        G: Fn(Lfm2Part, Vec<T>) -> Vec<T>,
        R: Fn(Vec<T>, Vec<u32>) -> Vec<T>,
        H: Fn(HeadShape, Vec<T>, Vec<T>, Vec<T>) -> Vec<T>,
     {
        &&& call.input.len() == steps * hidden
        &&& self.step_ran(
            outside,
            block,
            w,
            hidden,
            steps,
            before,
            call.after,
            call.input,
            call.rows,
            call.out,
        )
    }

    /// One call for every token: each takes one row, and starts from what the
    /// one before it left.
    pub open spec fn decoded<G, R, H>(
        &self,
        outside: &Surroundings<G, R, H>,
        block: &Lfm2Block,
        w: &Lfm2HostWeights<T>,
        hidden: nat,
        before: HostState<T>,
        calls: Seq<Lfm2Call<T>>,
    ) -> bool where
        G: Fn(Lfm2Part, Vec<T>) -> Vec<T>,
        R: Fn(Vec<T>, Vec<u32>) -> Vec<T>,
        H: Fn(HeadShape, Vec<T>, Vec<T>, Vec<T>) -> Vec<T>,
     {
        forall|k: int|
            0 <= k < calls.len() ==> self.call_ran(
                outside,
                block,
                w,
                hidden,
                1,
                if k == 0 {
                    before
                } else {
                    calls[k - 1].after
                },
                #[trigger] calls[k],
            )
    }
}

/// The inputs of calls, one after the other.
pub open spec fn inputs_of<T>(calls: Seq<Lfm2Call<T>>) -> Seq<T> {
    stacked(Seq::new(calls.len(), |k: int| calls[k].input))
}

/// What calls give, one after the other.
pub open spec fn outs_of<T>(calls: Seq<Lfm2Call<T>>) -> Seq<T> {
    stacked(Seq::new(calls.len(), |k: int| calls[k].out))
}

proof fn lemma_calls_unfold<T>(calls: Seq<Lfm2Call<T>>)
    requires
        calls.len() > 0,
    ensures
        inputs_of(calls) == inputs_of(calls.drop_last()) + calls.last().input,
        outs_of(calls) == outs_of(calls.drop_last()) + calls.last().out,
{
    let n = calls.len();
    let inputs = Seq::new(n, |k: int| calls[k].input);
    let outs = Seq::new(n, |k: int| calls[k].out);
    let fewer = calls.drop_last();
    assert(inputs.drop_last() =~= Seq::new(fewer.len(), |k: int| fewer[k].input));
    assert(outs.drop_last() =~= Seq::new(fewer.len(), |k: int| fewer[k].out));
}

/// Decoding token by token is prefilling: calls of one row each, sharing a
/// cache, give the rows that one call on all of them gives, and leave the same
/// to look back on. `prefills` are the calls on the first token, on the first
/// two, and so on.
pub proof fn law_decode_matches_prefill<
    T: Copy,
    F: Fn(ScalarOp, T, T) -> T,
    C: Fn(Number) -> T,
    Z: Fn(Relation, T, T) -> bool,
    G: Fn(Lfm2Part, Vec<T>) -> Vec<T>,
    R: Fn(Vec<T>, Vec<u32>) -> Vec<T>,
    H: Fn(HeadShape, Vec<T>, Vec<T>, Vec<T>) -> Vec<T>,
>(
    x: &Scalars<T, F, C, Z>,
    outside: &Surroundings<G, R, H>,
    block: &Lfm2Block,
    w: &Lfm2HostWeights<T>,
    hidden: nat,
    held: nat,
    before: HostState<T>,
    calls: Seq<Lfm2Call<T>>,
    prefills: Seq<Lfm2Call<T>>,
)
    requires
        calls.len() >= 1,
        prefills.len() == calls.len(),
        forall|k: nat| 1 <= k < calls.len() ==> #[trigger] block.by_rows::<T, G, R, H, G, R, H, G, R, H>(
            outside,
            outside,
            outside,
            hidden,
            held,
            k,
            1,
        ),
        block.starts(hidden, held, before),
        w.bias_held() matches Some(b) ==> b.len() == block.n_expert,
        x.decoded(outside, block, w, hidden, before, calls),
        forall|k: int|
            0 <= k < calls.len() ==> x.call_ran(
                outside,
                block,
                w,
                hidden,
                (k + 1) as nat,
                before,
                #[trigger] prefills[k],
            ) && prefills[k].input == inputs_of(calls.take(k + 1)),
        prefills[0] == calls[0],
    ensures
        prefills.last().out == outs_of(calls),
        prefills.last().after == calls.last().after,
    decreases calls.len(),
{
    let n = calls.len();
    let last = n - 1;
    assert(calls.take(n as int) =~= calls);
    lemma_calls_unfold(calls);
    if n == 1 {
        assert(calls.drop_last().len() == 0);
        assert(outs_of(calls) =~= calls[0].out);
    } else {
        let fewer = calls.drop_last();
        let shorter = prefills.drop_last();
        assert forall|k: int| 0 <= k < fewer.len() implies x.call_ran(
            outside,
            block,
            w,
            hidden,
            1,
            if k == 0 {
                before
            } else {
                fewer[k - 1].after
            },
            #[trigger] fewer[k],
        ) by {
            assert(fewer[k] == calls[k]);
        }
        assert forall|k: int| 0 <= k < fewer.len() implies x.call_ran(
            outside,
            block,
            w,
            hidden,
            (k + 1) as nat,
            before,
            #[trigger] shorter[k],
        ) && shorter[k].input == inputs_of(fewer.take(k + 1)) by {
            assert(shorter[k] == prefills[k]);
            assert(fewer.take(k + 1) =~= calls.take(k + 1));
        }
        law_decode_matches_prefill(x, outside, block, w, hidden, held, before, fewer, shorter);
        assert(shorter.last() == prefills[last - 1]);
        assert(fewer.last() == calls[last - 1]);
        assert(calls.take(last) =~= fewer);
        assert(calls[last] == calls.last());
        assert(prefills[last] == prefills.last());
        law_step_in_two_calls(
            x,
            outside,
            outside,
            outside,
            block,
            w,
            hidden,
            held,
            last as nat,
            1,
            before,
            calls[last - 1].after,
            calls[last].after,
            prefills[last].after,
            prefills[last - 1].input,
            calls[last].input,
            prefills[last - 1].rows,
            calls[last].rows,
            prefills[last].rows,
            prefills[last - 1].out,
            calls[last].out,
            prefills[last].out,
        );
    }
}

} // verus!
