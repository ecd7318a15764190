//! The expert feed-forward part of an LFM2 layer: each token runs through the
//! one expert that its router scores highest.

use crate::device::Device;
use crate::kernels::{probabilities, run_expert};
use crate::lfm2::Lfm2Block;
use crate::rows::{append_all, copy_range, lemma_row_bounds};
use crate::scalar::{fill_row, Number, Relation, ScalarOp, Scalars};
use vstd::prelude::*;

verus! {

impl<T: Copy, F: Fn(ScalarOp, T, T) -> T, C: Fn(Number) -> T, Z: Fn(Relation, T, T) -> bool> Scalars<T, F, C, Z> {
    /// Router scores with a bias; a shorter bias is used over and over.
    pub open spec fn biased(&self, scores: Seq<T>, bias: Option<Seq<T>>) -> Seq<T> {
        match bias {
            Some(b) => Seq::new(
                scores.len(),
                |i: int| self.plus(scores[i], b[i % b.len() as int]),
            ),
            None => scores,
        }
    }

    /// Where a left-to-right scan of `n` scores for the greatest ends: a later
    /// score replaces an earlier one only where it is greater.
    pub open spec fn best_of(&self, scores: Seq<T>, n: nat) -> nat
        decreases n,
    {
        if n <= 1 {
            0
        } else {
            let before = self.best_of(scores, (n - 1) as nat);
            if self.above(scores[n - 1], scores[before as int]) {
                (n - 1) as nat
            } else {
                before
            }
        }
    }

    /// The probabilities of the experts of token `s`.
    pub open spec fn expert_probabilities(&self, scores: Seq<T>, experts: nat, s: int) -> Seq<T> {
        self.probabilities_of(scores.subrange(s * experts, s * experts + experts))
    }

    /// The expert of token `s`.
    pub open spec fn expert_of(&self, scores: Seq<T>, experts: nat, s: int) -> nat {
        self.best_of(self.expert_probabilities(scores, experts, s), experts)
    }

    /// What the expert of token `s` makes of its row, weighed by its
    /// probability.
    pub open spec fn routed_row(
        &self,
        rows: Seq<T>,
        scores: Seq<T>,
        stacks: ExpertStacks<Seq<T>>,
        experts: nat,
        hidden: nat,
        n_ff: nat,
        s: int,
    ) -> Seq<T> {
        let e = self.expert_of(scores, experts, s) as int;
        let len = n_ff * hidden;
        self.expert_row(
            rows.subrange(s * hidden, s * hidden + hidden),
            expert_block(stacks.gate, e, len as int),
            expert_block(stacks.up, e, len as int),
            expert_block(stacks.down, e, len as int),
            n_ff,
            self.expert_probabilities(scores, experts, s)[e],
        )
    }
}

/// The three stacks of expert weights: gating, up and down, one block per
/// expert.
#[derive(Debug)]
pub struct ExpertStacks<S> {
    pub gate: S,
    pub up: S,
    pub down: S,
}

impl<T> ExpertStacks<Vec<T>> {
    /// What the stacks hold.
    pub open spec fn held(&self) -> ExpertStacks<Seq<T>> {
        ExpertStacks { gate: self.gate@, up: self.up@, down: self.down@ }
    }

    /// Expert `e` has its block in every stack.
    pub open spec fn reaches(&self, e: int, len: int) -> bool {
        let end = (e + 1) * len;
        end <= self.gate@.len() && end <= self.up@.len() && end <= self.down@.len()
    }
}

/// Adds a bias to router scores.
pub fn add_bias<
    T: Copy,
    F: Fn(ScalarOp, T, T) -> T,
    C: Fn(Number) -> T,
    Z: Fn(Relation, T, T) -> bool,
>(x: &Scalars<T, F, C, Z>, scores: &[T], bias: &[T]) -> (out: Vec<T>)
    requires
        x.wf(),
        scores@.len() > 0 ==> bias@.len() > 0,
    ensures
        out@ == x.biased(scores@, Some(bias@)),
{
    let n: usize = scores.len();
    let m: usize = bias.len();
    let ghost cell = |i: int| x.plus(scores@[i], bias@[i % bias@.len() as int]);
    let out = fill_row(
        n,
        |i: usize| -> (o: T)
            requires
                i < n,
            ensures
                o == cell(i as int)
            { x.plus(scores[i], bias[i % m]) },
        Ghost(cell),
    );
    assert(out@ =~= x.biased(scores@, Some(bias@)));
    out
}

/// The expert with the greatest probability; the first of equals.
pub fn best_expert<
    T: Copy,
    F: Fn(ScalarOp, T, T) -> T,
    C: Fn(Number) -> T,
    Z: Fn(Relation, T, T) -> bool,
>(x: &Scalars<T, F, C, Z>, scores: &[T]) -> (best: usize)
    requires
        x.wf(),
        scores@.len() > 0,
    ensures
        best == x.best_of(scores@, scores@.len()),
        best < scores@.len(),
{
    let n: usize = scores.len();
    let mut best: usize = 0;
    for e in 1..n
        invariant
            x.wf(),
            n == scores@.len(),
            n > 0,
            best < n,
            best == x.best_of(scores@, e as nat),
    {
        if x.above(scores[e], scores[best]) {
            best = e;
        }
    }
    best
}

/// Where scores compare as numbers do, no score is greater than the chosen
/// one, and every score before it is smaller.
pub proof fn law_best_is_first_greatest<
    T: Copy,
    F: Fn(ScalarOp, T, T) -> T,
    C: Fn(Number) -> T,
    Z: Fn(Relation, T, T) -> bool,
>(x: &Scalars<T, F, C, Z>, scores: Seq<T>, n: nat, j: int)
    requires
        0 <= j < n <= scores.len(),
        x.orders(scores),
    ensures
        x.best_of(scores, n) < n,
        !x.above(scores[j], scores[x.best_of(scores, n) as int]),
        j < x.best_of(scores, n) ==> x.above(scores[x.best_of(scores, n) as int], scores[j]),
    decreases n,
{
    if n > 1 {
        let before = x.best_of(scores, (n - 1) as nat) as int;
        let last = scores[n - 1];
        if j < n - 1 {
            law_best_is_first_greatest(x, scores, (n - 1) as nat, j);
            if x.above(last, scores[before]) {
                assert(x.above(last, scores[j]) || x.above(scores[j], scores[before]));
                if x.above(scores[j], last) {
                    assert(x.above(last, last));
                }
            }
        } else {
            law_best_is_first_greatest(x, scores, (n - 1) as nat, 0);
        }
    }
}

/// Where one token reads and writes on the device.
#[derive(Debug, Clone, Copy, PartialEq, Eq, Structural)]
pub struct TokenSlices {
    /// First element of the token's row.
    pub row: usize,
    /// First element of its expert in each stack.
    pub expert: usize,
    /// Elements of one expert in a stack.
    pub expert_len: usize,
}

/// The expert's block ends inside a stack of `experts` blocks.
pub open spec fn expert_in_stack(expert: int, experts: int, n_ff: int, hidden: int) -> bool {
    0 <= expert < experts && experts * (n_ff * hidden) <= usize::MAX
}

/// The slices of token `s` with expert `best`.
pub fn token_slices(
    s: usize,
    steps: usize,
    best: usize,
    experts: usize,
    n_ff: usize,
    hidden: usize,
) -> (slices: TokenSlices)
    requires
        s < steps,
        steps * hidden <= usize::MAX,
        n_ff * hidden <= usize::MAX,
        expert_in_stack(best as int, experts as int, n_ff as int, hidden as int),
    ensures
        slices.row == s * hidden,
        slices.row + hidden <= steps * hidden,
        slices.expert == best * (n_ff * hidden),
        slices.expert_len == n_ff * hidden,
        slices.expert + slices.expert_len <= experts * (n_ff * hidden),
{
    let len: usize = n_ff * hidden;
    proof {
        lemma_row_bounds(s as int, steps as int, hidden as int);
        lemma_row_bounds(best as int, experts as int, len as int);
    }
    TokenSlices { row: s * hidden, expert: best * len, expert_len: len }
}

/// The block of one expert in a stack.
pub open spec fn expert_block<T>(stack: Seq<T>, expert: int, len: int) -> Seq<T> {
    stack.subrange(expert * len, expert * len + len)
}

/// Runs every token through the expert that its router scores highest.
///
/// `scores` are the router's, one row of `experts` per token.
pub fn forward_moe_ffn<
    T: Copy,
    F: Fn(ScalarOp, T, T) -> T,
    C: Fn(Number) -> T,
    Z: Fn(Relation, T, T) -> bool,
>(
    x: &Scalars<T, F, C, Z>,
    rows: &[T],
    scores: &[T],
    bias: Option<&[T]>,
    stacks: &ExpertStacks<Vec<T>>,
    steps: usize,
    experts: usize,
    hidden: usize,
    n_ff: usize,
) -> (out: Vec<T>)
    requires
        x.wf(),
        steps > 0 ==> experts > 0,
        steps * hidden <= rows@.len(),
        steps * experts <= scores@.len(),
        bias matches Some(b) ==> (scores@.len() > 0 ==> b@.len() > 0),
        n_ff * hidden <= usize::MAX,
        forall|s: int|
            0 <= s < steps ==> stacks.reaches(
                #[trigger] x.expert_of(
                    x.biased(scores@, bias_of(bias)),
                    experts as nat,
                    s,
                ) as int,
                n_ff * hidden,
            ),
    ensures
        out@.len() == steps * hidden,
        forall|s: int|
            0 <= s < steps ==> #[trigger] row_of(out@, hidden as int, s) == x.routed_row(
                rows@,
                x.biased(scores@, bias_of(bias)),
                stacks.held(),
                experts as nat,
                hidden as nat,
                n_ff as nat,
                s,
            ),
{
    let ghost wanted = x.biased(scores@, bias_of(bias));
    let scores: Vec<T> = match bias {
        Some(b) => add_bias(x, scores, b),
        None => copy_range(scores, 0, scores.len()),
    };
    assert(scores@ =~= wanted);
    let len: usize = n_ff * hidden;
    let rows_len: usize = rows.len();
    let scores_len: usize = scores.len();
    let mut out: Vec<T> = Vec::new();
    assert(0 * hidden == 0);
    for s in 0..steps
        invariant
            x.wf(),
            steps > 0 ==> experts > 0,
            rows_len == rows@.len(),
            scores_len == scores@.len(),
            scores@ == wanted,
            steps * hidden <= rows_len,
            steps * experts <= scores_len,
            len == n_ff * hidden,
            forall|s: int|
                0 <= s < steps ==> stacks.reaches(
                    #[trigger] x.expert_of(wanted, experts as nat, s) as int,
                    len as int,
                ),
            out@.len() == s * hidden,
            forall|t: int|
                0 <= t < s ==> #[trigger] row_of(out@, hidden as int, t) == x.routed_row(
                    rows@,
                    wanted,
                    stacks.held(),
                    experts as nat,
                    hidden as nat,
                    n_ff as nat,
                    t,
                ),
    {
        proof {
            lemma_row_bounds(s as int, steps as int, hidden as int);
            lemma_row_bounds(s as int, steps as int, experts as int);
            assert((s + 1) * hidden == s * hidden + hidden) by (nonlinear_arith);
        }
        let own = copy_range(scores.as_slice(), s * experts, experts);
        assert(own@ =~= wanted.subrange(s * experts, s * experts + experts));
        let probs = probabilities(x, own.as_slice());
        let e: usize = best_expert(x, probs.as_slice());
        assert(e == x.expert_of(wanted, experts as nat, s as int));
        proof {
            lemma_row_bounds(e as int, e + 1, len as int);
        }
        let row = copy_range(rows, s * hidden, hidden);
        let stack_len: usize = stacks.gate.len();
        assert(e * len + len <= stack_len);
        let g = copy_range(stacks.gate.as_slice(), e * len, len);
        let u = copy_range(stacks.up.as_slice(), e * len, len);
        let d = copy_range(stacks.down.as_slice(), e * len, len);
        assert(row@ =~= rows@.subrange(s * hidden, s * hidden + hidden));
        assert(g@ =~= expert_block(stacks.gate@, e as int, len as int));
        assert(u@ =~= expert_block(stacks.up@, e as int, len as int));
        assert(d@ =~= expert_block(stacks.down@, e as int, len as int));
        let ghost before = out@;
        let r = run_expert(x, row.as_slice(), g.as_slice(), u.as_slice(), d.as_slice(), n_ff, probs[e]);
        append_all(&mut out, r.as_slice());
        proof {
            assert forall|t: int| 0 <= t < s + 1 implies #[trigger] row_of(out@, hidden as int, t)
                == x.routed_row(
                rows@,
                wanted,
                stacks.held(),
                experts as nat,
                hidden as nat,
                n_ff as nat,
                t,
            ) by {
                if t < s {
                    lemma_row_bounds(t, s as int, hidden as int);
                    assert(row_of(out@, hidden as int, t) =~= row_of(before, hidden as int, t));
                } else {
                    assert(row_of(out@, hidden as int, t) =~= r@);
                }
            }
        }
    }
    out
}

/// What a bias holds.
pub open spec fn bias_of<T>(bias: Option<&[T]>) -> Option<Seq<T>> {
    match bias {
        Some(b) => Some(b@),
        None => None,
    }
}

/// Row `s` of rows of `width`.
pub open spec fn row_of<T>(data: Seq<T>, width: int, s: int) -> Seq<T> {
    data.subrange(s * width, s * width + width)
}

/// A step of one token's expert on the device.
#[derive(Debug, Clone, Copy, PartialEq, Eq, Structural)]
pub enum ExpertOp {
    /// Copy the token's row out of the input.
    CopyRow { from: usize, len: usize },
    /// Copy the expert's gating block out of its stack.
    CopyGate { from: usize, len: usize },
    /// Copy the expert's up block out of its stack.
    CopyUp { from: usize, len: usize },
    /// Copy the expert's down block out of its stack.
    CopyDown { from: usize, len: usize },
    /// Turn the gating block around.
    TransposeGate { rows: usize, cols: usize },
    /// Turn the up block around.
    TransposeUp { rows: usize, cols: usize },
    /// Multiply the row by the gating block.
    MatmulGate { cols: usize },
    /// Multiply the row by the up block.
    MatmulUp { cols: usize },
    /// Activate the gating row and multiply by the up row.
    SiluMul { cols: usize },
    /// Multiply by the down block.
    MatmulDown { cols: usize },
    /// Scale by the expert's probability; a device that cannot leaves the row
    /// as it is.
    Scale,
    /// Copy the row to its place in the output.
    StoreRow { at: usize, len: usize },
}

/// The steps of token `s` on the device with expert `best`.
pub open spec fn expert_ops(s: int, best: int, n_ff: usize, hidden: usize) -> Seq<ExpertOp> {
    let len = (n_ff * hidden) as usize;
    let row = (s * hidden) as usize;
    let block = (best * (n_ff * hidden)) as usize;
    seq![
        ExpertOp::CopyRow { from: row, len: hidden },
        ExpertOp::CopyGate { from: block, len },
        ExpertOp::CopyUp { from: block, len },
        ExpertOp::CopyDown { from: block, len },
        ExpertOp::TransposeGate { rows: n_ff, cols: hidden },
        ExpertOp::TransposeUp { rows: n_ff, cols: hidden },
        ExpertOp::MatmulGate { cols: n_ff },
        ExpertOp::MatmulUp { cols: n_ff },
        ExpertOp::SiluMul { cols: n_ff },
        ExpertOp::MatmulDown { cols: hidden },
        ExpertOp::Scale,
        ExpertOp::StoreRow { at: row, len: hidden },
    ]
}

/// Plans one token's expert on the device.
pub fn forward_moe_ffn_device(
    s: usize,
    steps: usize,
    best: usize,
    experts: usize,
    n_ff: usize,
    hidden: usize,
) -> (ops: Vec<ExpertOp>)
    requires
        s < steps,
        steps * hidden <= usize::MAX,
        n_ff * hidden <= usize::MAX,
        expert_in_stack(best as int, experts as int, n_ff as int, hidden as int),
    ensures
        ops@ == expert_ops(s as int, best as int, n_ff, hidden),
{
    let at = token_slices(s, steps, best, experts, n_ff, hidden);
    vec![
        ExpertOp::CopyRow { from: at.row, len: hidden },
        ExpertOp::CopyGate { from: at.expert, len: at.expert_len },
        ExpertOp::CopyUp { from: at.expert, len: at.expert_len },
        ExpertOp::CopyDown { from: at.expert, len: at.expert_len },
        ExpertOp::TransposeGate { rows: n_ff, cols: hidden },
        ExpertOp::TransposeUp { rows: n_ff, cols: hidden },
        ExpertOp::MatmulGate { cols: n_ff },
        ExpertOp::MatmulUp { cols: n_ff },
        ExpertOp::SiluMul { cols: n_ff },
        ExpertOp::MatmulDown { cols: hidden },
        ExpertOp::Scale,
        ExpertOp::StoreRow { at: at.row, len: hidden },
    ]
}

impl Lfm2Block {
    /// Experts are tried on the device first wherever the input is not on the
    /// host; the host runs them where the device fails.
    pub fn tries_experts_on_device(device: Device) -> (r: bool)
        ensures
            r == (device != Device::Cpu),
    {
        match device {
            Device::Cpu => false,
            _ => true,
        }
    }

    /// The hidden width of an expert as the host path reads it: the rows of the
    /// dense gate projection.
    pub fn host_expert_width(&self) -> (n_ff: usize)
        ensures
            n_ff == self.ffn_gate.outputs,
    {
        self.ffn_gate.outputs
    }
}

} // verus!
