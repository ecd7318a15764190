//! One step of an LFM2 layer on rows held by the host: its mixer and its
//! feed-forward part, each behind a norm and added back.

use crate::block_program::Activation;
use crate::block_run::add_rows;
use crate::error::Error;
use crate::kernels::activate_gated;
use crate::lfm2::Lfm2Block;
use crate::lfm2_cache::{
    append_history, cache_offset, cached_rows, ensure_shortconv, Lfm2LayerCache,
};
use crate::lfm2_moe::{bias_of, forward_moe_ffn, row_of, ExpertStacks};
use crate::lfm2_step::rope_positions;
use crate::rows::suffix;
use crate::scalar::{Number, Relation, ScalarOp, Scalars};
use crate::shortconv::shortconv_host;
use crate::surroundings::{HeadShape, Surroundings};
use vstd::prelude::*;

verus! {

/// A part of a layer that its surroundings run, each row for itself.
#[derive(Debug, Clone, Copy, PartialEq, Eq, Structural)]
pub enum Lfm2Part {
    AttnNorm,
    ShortConvIn,
    ShortConvOut,
    Query,
    Key,
    Value,
    /// The norm of every head of the queries.
    QueryNorm,
    /// The norm of every head of the keys.
    KeyNorm,
    AttnOut,
    FfnNorm,
    Router,
    Gate,
    Up,
    Down,
}

/// Weights that the host reads itself.
#[derive(Debug)]
pub struct Lfm2HostWeights<T> {
    /// The taps of the short convolution, channel by channel.
    pub conv: Vec<T>,
    /// The experts.
    pub stacks: ExpertStacks<Vec<T>>,
    /// What is added to the scores of the router.
    pub bias: Option<Vec<T>>,
}

/// What a layer looks back on.
#[verifier::ext_equal]
pub struct HostState<T> {
    /// Inputs kept for the convolution.
    pub kept: Seq<T>,
    /// The keys so far.
    pub k: Seq<T>,
    /// The values so far.
    pub v: Seq<T>,
}

/// What the parts of a layer give in one step.
pub struct Lfm2Rows<T> {
    pub normed: Seq<T>,
    pub proj: Seq<T>,
    pub q: Seq<T>,
    pub k: Seq<T>,
    pub v: Seq<T>,
    pub q_norm: Seq<T>,
    pub k_norm: Seq<T>,
    pub q_rot: Seq<T>,
    pub k_rot: Seq<T>,
    pub attended: Seq<T>,
    pub mixed: Seq<T>,
    pub ffn_normed: Seq<T>,
    pub ffn_scores: Seq<T>,
    pub gate: Seq<T>,
    pub up: Seq<T>,
    pub down: Seq<T>,
}

/// The position of every head of every token of a step that follows `past`
/// others.
pub open spec fn head_positions(past: int, steps: nat, heads: nat) -> Seq<u32> {
    Seq::new(steps * heads, |i: int| (past + i / heads as int) as u32)
}

impl Lfm2Block {
    /// Elements of one token's queries.
    pub open spec fn q_width(&self) -> nat {
        (self.num_heads * self.head_dim) as nat
    }

    /// Elements of one token's keys.
    pub open spec fn kv_width(&self) -> nat {
        (self.num_kv_heads * self.head_dim) as nat
    }

    /// The layer mixes tokens by a short convolution.
    pub open spec fn convolves(&self) -> bool {
        self.shortconv_in_proj is Some
    }

    /// The layer mixes tokens by attention.
    pub open spec fn attends(&self) -> bool {
        !self.convolves()
    }

    /// The layer has the part.
    pub open spec fn has_part(&self, part: Lfm2Part) -> bool {
        match part {
            Lfm2Part::AttnNorm | Lfm2Part::FfnNorm => true,
            Lfm2Part::ShortConvIn | Lfm2Part::ShortConvOut => self.convolves(),
            Lfm2Part::Router => self.is_moe,
            Lfm2Part::Gate | Lfm2Part::Up | Lfm2Part::Down => !self.is_moe,
            _ => self.attends(),
        }
    }

    /// The width of what a part takes.
    pub open spec fn part_takes(&self, hidden: nat, part: Lfm2Part) -> nat {
        match part {
            Lfm2Part::QueryNorm | Lfm2Part::AttnOut => self.q_width(),
            Lfm2Part::KeyNorm => self.kv_width(),
            Lfm2Part::Down => self.ffn_gate.outputs as nat,
            _ => hidden,
        }
    }

    /// The width of what a part gives.
    pub open spec fn part_width(&self, hidden: nat, part: Lfm2Part) -> nat {
        match part {
            Lfm2Part::ShortConvIn => 3 * hidden,
            Lfm2Part::Query | Lfm2Part::QueryNorm => self.q_width(),
            Lfm2Part::Key | Lfm2Part::Value | Lfm2Part::KeyNorm => self.kv_width(),
            Lfm2Part::Router => self.n_expert as nat,
            Lfm2Part::Gate | Lfm2Part::Up => self.ffn_gate.outputs as nat,
            _ => hidden,
        }
    }

    /// The layer's parts run on `steps` rows of the width that each takes, and
    /// give rows of the width that is asked for; so do rotations, and attention
    /// over `held` tokens and those of the step.
    pub open spec fn served_by<T, G, R, H>(
        &self,
        outside: &Surroundings<G, R, H>,
        hidden: nat,
        steps: nat,
        held: nat,
    ) -> bool where
        G: Fn(Lfm2Part, Vec<T>) -> Vec<T>,
        R: Fn(Vec<T>, Vec<u32>) -> Vec<T>,
        H: Fn(HeadShape, Vec<T>, Vec<T>, Vec<T>) -> Vec<T>,
     {
        &&& forall|p: Lfm2Part| #[trigger]
            self.has_part(p) ==> outside.part_fits::<Lfm2Part, T>(
                p,
                steps,
                self.part_takes(hidden, p),
                self.part_width(hidden, p),
            )
        &&& self.attends() ==> outside.turn_fits::<T>(self.head_dim as nat)
        &&& self.attends() ==> outside.look_fits::<T>(
            self.head_shape(),
            steps,
            held + steps,
            self.q_width(),
            self.kv_width(),
        )
    }

    /// What the layer looks back on before a step.
    pub open spec fn looks_back<T>(
        &self,
        cache: Option<Lfm2LayerCache<T>>,
        hidden: nat,
        zero: T,
    ) -> HostState<T> {
        match cache {
            None => HostState {
                kept: if self.convolves() {
                    Seq::new((hidden * (self.taps() - 1)) as nat, |i: int| zero)
                } else {
                    Seq::empty()
                },
                k: Seq::empty(),
                v: Seq::empty(),
            },
            Some(Lfm2LayerCache::ShortConv(s)) => HostState {
                kept: s@,
                k: Seq::empty(),
                v: Seq::empty(),
            },
            Some(Lfm2LayerCache::Attention(a)) => HostState {
                kept: Seq::empty(),
                k: a.k@,
                v: a.v@,
            },
            Some(_) => HostState { kept: Seq::empty(), k: Seq::empty(), v: Seq::empty() },
        }
    }
}

impl<T> Lfm2HostWeights<T> {
    /// What is added to the scores of the router.
    pub open spec fn bias_held(&self) -> Option<Seq<T>> {
        match self.bias {
            Some(b) => Some(b@),
            None => None,
        }
    }

    /// The weights that the layer's parts read are there.
    pub open spec fn holds(&self, block: &Lfm2Block, hidden: nat) -> bool {
        let len = block.ffn_gate.outputs * hidden;
        &&& block.convolves() ==> block.taps() >= 1 && hidden * block.taps() <= self.conv@.len()
        &&& block.is_moe ==> {
            &&& block.n_expert > 0
            &&& self.stacks.reaches(block.n_expert - 1, len)
            &&& self.bias matches Some(b) ==> b@.len() > 0
        }
    }
}

impl<T: Copy, F: Fn(ScalarOp, T, T) -> T, C: Fn(Number) -> T, Z: Fn(Relation, T, T) -> bool> Scalars<T, F, C, Z> {
    /// Every row of `out` is what the expert that its scores choose makes of
    /// its row.
    pub open spec fn experts_gave(
        &self,
        block: &Lfm2Block,
        w: &Lfm2HostWeights<T>,
        hidden: nat,
        steps: nat,
        rows: Seq<T>,
        scores: Seq<T>,
        out: Seq<T>,
    ) -> bool {
        &&& out.len() == steps * hidden
        &&& forall|s: int|
            0 <= s < steps ==> #[trigger] row_of(out, hidden as int, s) == self.routed_row(
                rows,
                self.biased(scores, w.bias_held()),
                w.stacks.held(),
                block.n_expert as nat,
                hidden,
                block.ffn_gate.outputs as nat,
                s,
            )
    }

    /// A gated row: `gate` activated, times `up`.
    pub open spec fn gated(&self, gate: Seq<T>, up: Seq<T>) -> Seq<T> {
        Seq::new(gate.len(), |i: int| self.times(self.silu_of(gate[i]), up[i]))
    }

    /// The mixer of a layer turns the normed rows into the mixed ones, and what
    /// it looks back on into what it looks back on next.
    pub open spec fn mixer_ran<G, R, H>(
        &self,
        outside: &Surroundings<G, R, H>,
        block: &Lfm2Block,
        w: &Lfm2HostWeights<T>,
        hidden: nat,
        steps: nat,
        before: HostState<T>,
        after: HostState<T>,
        rows: Lfm2Rows<T>,
    ) -> bool where
        G: Fn(Lfm2Part, Vec<T>) -> Vec<T>,
        R: Fn(Vec<T>, Vec<u32>) -> Vec<T>,
        H: Fn(HeadShape, Vec<T>, Vec<T>, Vec<T>) -> Vec<T>,
     {
        if block.convolves() {
            let taps = block.taps() as nat;
            &&& outside.part_ran(Lfm2Part::ShortConvIn, rows.normed, rows.proj)
            &&& outside.part_ran(
                Lfm2Part::ShortConvOut,
                self.shortconv_rows(rows.proj, w.conv@, before.kept, steps, hidden, taps),
                rows.mixed,
            )
            &&& after == (HostState {
                kept: suffix(
                    before.kept + self.gated_inputs(rows.proj, steps, hidden),
                    before.kept.len(),
                ),
                ..before
            })
        } else {
            let past = before.k.len() as int / block.kv_width() as int;
            &&& outside.part_ran(Lfm2Part::Query, rows.normed, rows.q)
            &&& outside.part_ran(Lfm2Part::Key, rows.normed, rows.k)
            &&& outside.part_ran(Lfm2Part::Value, rows.normed, rows.v)
            &&& outside.part_ran(Lfm2Part::QueryNorm, rows.q, rows.q_norm)
            &&& outside.part_ran(Lfm2Part::KeyNorm, rows.k, rows.k_norm)
            &&& outside.rotated(
                rows.q_norm,
                head_positions(past, steps, block.num_heads as nat),
                rows.q_rot,
            )
            &&& outside.rotated(
                rows.k_norm,
                head_positions(past, steps, block.num_kv_heads as nat),
                rows.k_rot,
            )
            &&& after == (HostState { k: before.k + rows.k_rot, v: before.v + rows.v, ..before })
            &&& outside.attended(block.head_shape(), rows.q_rot, after.k, after.v, rows.attended)
            &&& outside.part_ran(Lfm2Part::AttnOut, rows.attended, rows.mixed)
        }
    }

    /// The feed-forward part of a layer turns its normed rows into the last
    /// ones that are added.
    pub open spec fn ffn_ran<G, R, H>(
        &self,
        outside: &Surroundings<G, R, H>,
        block: &Lfm2Block,
        w: &Lfm2HostWeights<T>,
        hidden: nat,
        steps: nat,
        rows: Lfm2Rows<T>,
    ) -> bool where G: Fn(Lfm2Part, Vec<T>) -> Vec<T> {
        if block.is_moe {
            &&& outside.part_ran(Lfm2Part::Router, rows.ffn_normed, rows.ffn_scores)
            &&& self.experts_gave(
                block,
                w,
                hidden,
                steps,
                rows.ffn_normed,
                rows.ffn_scores,
                rows.down,
            )
        } else {
            &&& outside.part_ran(Lfm2Part::Gate, rows.ffn_normed, rows.gate)
            &&& outside.part_ran(Lfm2Part::Up, rows.ffn_normed, rows.up)
            &&& outside.part_ran(Lfm2Part::Down, self.gated(rows.gate, rows.up), rows.down)
        }
    }

    /// A step turns `input` into `out`, and what the layer looks back on into
    /// what it looks back on next.
    pub open spec fn step_ran<G, R, H>(
        &self,
        outside: &Surroundings<G, R, H>,
        block: &Lfm2Block,
        w: &Lfm2HostWeights<T>,
        hidden: nat,
        steps: nat,
        before: HostState<T>,
        after: HostState<T>,
        input: Seq<T>,
        rows: Lfm2Rows<T>,
        out: Seq<T>,
    ) -> bool where
        G: Fn(Lfm2Part, Vec<T>) -> Vec<T>,
        R: Fn(Vec<T>, Vec<u32>) -> Vec<T>,
        H: Fn(HeadShape, Vec<T>, Vec<T>, Vec<T>) -> Vec<T>,
     {
        let sum = self.residual(input, rows.mixed, None);
        &&& outside.part_ran(Lfm2Part::AttnNorm, input, rows.normed)
        &&& self.mixer_ran(outside, block, w, hidden, steps, before, after, rows)
        &&& outside.part_ran(Lfm2Part::FfnNorm, sum, rows.ffn_normed)
        &&& self.ffn_ran(outside, block, w, hidden, steps, rows)
        &&& out == self.residual(sum, rows.down, None)
        &&& rows.sized(block, hidden, steps)
    }
}

impl<T> Lfm2Rows<T> {
    /// Every part of the mixer gave rows of its width.
    pub open spec fn mixer_sized(&self, block: &Lfm2Block, hidden: nat, steps: nat) -> bool {
        &&& self.normed.len() == steps * hidden
        &&& self.mixed.len() == steps * hidden
        &&& block.convolves() ==> self.proj.len() == steps * (3 * hidden)
        &&& block.attends() ==> {
            &&& self.q.len() == steps * block.q_width()
            &&& self.q_norm.len() == steps * block.q_width()
            &&& self.q_rot.len() == steps * block.q_width()
            &&& self.attended.len() == steps * block.q_width()
            &&& self.k.len() == steps * block.kv_width()
            &&& self.k_norm.len() == steps * block.kv_width()
            &&& self.k_rot.len() == steps * block.kv_width()
            &&& self.v.len() == steps * block.kv_width()
        }
    }

    /// Every part that the layer has gave rows of its width.
    pub open spec fn sized(&self, block: &Lfm2Block, hidden: nat, steps: nat) -> bool {
        &&& self.mixer_sized(block, hidden, steps)
        &&& self.ffn_normed.len() == steps * hidden
        &&& self.down.len() == steps * hidden
        &&& block.is_moe ==> self.ffn_scores.len() == steps * block.n_expert
        &&& !block.is_moe ==> {
            &&& self.gate.len() == steps * block.ffn_gate.outputs
            &&& self.up.len() == self.gate.len()
        }
    }
}

proof fn lemma_best_in_range<
    T: Copy,
    F: Fn(ScalarOp, T, T) -> T,
    C: Fn(Number) -> T,
    Z: Fn(Relation, T, T) -> bool,
>(x: &Scalars<T, F, C, Z>, scores: Seq<T>, n: nat)
    requires
        n > 0,
    ensures
        x.best_of(scores, n) < n,
    decreases n,
{
    if n > 1 {
        lemma_best_in_range(x, scores, (n - 1) as nat);
    }
}

fn run_experts<
    T: Copy,
    F: Fn(ScalarOp, T, T) -> T,
    C: Fn(Number) -> T,
    Z: Fn(Relation, T, T) -> bool,
>(
    x: &Scalars<T, F, C, Z>,
    block: &Lfm2Block,
    w: &Lfm2HostWeights<T>,
    hidden: usize,
    steps: usize,
    rows: &Vec<T>,
    scores: &Vec<T>,
) -> (out: Vec<T>)
    requires
        x.wf(),
        block.is_moe,
        w.holds(block, hidden as nat),
        rows@.len() == steps * hidden,
        scores@.len() == steps * block.n_expert,
    ensures
        x.experts_gave(block, w, hidden as nat, steps as nat, rows@, scores@, out@),
{
    let n_ff: usize = block.ffn_gate.outputs;
    let bias: Option<&[T]> = match &w.bias {
        Some(b) => Some(b.as_slice()),
        None => None,
    };
    let gate_len: usize = w.stacks.gate.len();
    proof {
        assert(bias_of(bias) == w.bias_held());
        let len = n_ff * hidden;
        let experts = block.n_expert as int;
        let wanted = x.biased(scores@, bias_of(bias));
        assert(0 <= len && len <= experts * len) by (nonlinear_arith)
            requires
                len == n_ff * hidden,
                n_ff >= 0,
                hidden >= 0,
                experts >= 1,
        ;
        assert forall|s: int| 0 <= s < steps implies w.stacks.reaches(
            #[trigger] x.expert_of(wanted, block.n_expert as nat, s) as int,
            len,
        ) by {
            let e = x.expert_of(wanted, block.n_expert as nat, s) as int;
            lemma_best_in_range(
                x,
                x.expert_probabilities(wanted, block.n_expert as nat, s),
                block.n_expert as nat,
            );
            assert((e + 1) * len <= experts * len) by (nonlinear_arith)
                requires
                    e + 1 <= experts,
                    0 <= len,
            ;
        }
    }
    forward_moe_ffn(
        x,
        rows.as_slice(),
        scores.as_slice(),
        bias,
        &w.stacks,
        steps,
        block.n_expert,
        hidden,
        n_ff,
    )
}

proof fn lemma_whole_rows(held: int, steps: int, width: int)
    requires
        0 <= held,
        0 <= steps,
        0 < width,
        held % width == 0,
    ensures
        held + steps * width == (held / width + steps) * width,
        (held + steps * width) % width == 0,
{
    vstd::arithmetic::div_mod::lemma_fundamental_div_mod(held, width);
    let q = held / width;
    assert(held + steps * width == (q + steps) * width) by (nonlinear_arith)
        requires
            held == width * q,
    ;
    vstd::arithmetic::div_mod::lemma_mod_multiples_basic(q + steps, width);
}

impl Lfm2Block {
    /// Why a cache is refused: it is not of the layer's kind.
    pub open spec fn refuses<T>(&self, cache: Option<Lfm2LayerCache<T>>) -> Option<Error> {
        match cache {
            None => None,
            Some(Lfm2LayerCache::ShortConv(_)) => if self.attends() {
                Some(Error::AttentionCache)
            } else {
                None
            },
            Some(Lfm2LayerCache::Attention(_)) => if self.convolves() {
                Some(Error::ShortConvCache)
            } else {
                None
            },
            Some(_) => if self.convolves() {
                Some(Error::ShortConvCache)
            } else {
                Some(Error::AttentionCache)
            },
        }
    }

    /// A step on this cache stays within machine limits; a cache of kept rows
    /// has as many as the convolution looks back on, and a history is made of
    /// whole rows.
    pub open spec fn fits_step<T>(
        &self,
        cache: Option<Lfm2LayerCache<T>>,
        hidden: nat,
        steps: nat,
    ) -> bool {
        &&& self.convolves() ==> {
            &&& 3 * hidden <= usize::MAX
            &&& (self.taps() - 1 + steps) * hidden <= usize::MAX
            &&& cache matches Some(Lfm2LayerCache::ShortConv(s)) ==> s@.len() == (self.taps() - 1)
                * hidden
        }
        &&& self.attends() ==> {
            &&& 0 < self.kv_width() <= usize::MAX
            &&& cached_rows(cache, self.kv_width() as int) + steps <= usize::MAX
            &&& cache matches Some(Lfm2LayerCache::Attention(a)) ==> a.whole(
                self.kv_width() as int,
            )
        }
    }

    fn ask<
        T: Copy,
        G: Fn(Lfm2Part, Vec<T>) -> Vec<T>,
        R: Fn(Vec<T>, Vec<u32>) -> Vec<T>,
        H: Fn(HeadShape, Vec<T>, Vec<T>, Vec<T>) -> Vec<T>,
    >(
        &self,
        outside: &Surroundings<G, R, H>,
        part: Lfm2Part,
        rows: &Vec<T>,
        hidden: usize,
        steps: usize,
        Ghost(held): Ghost<nat>,
    ) -> (r: Vec<T>)
        requires
            self.served_by::<T, G, R, H>(outside, hidden as nat, steps as nat, held),
            self.has_part(part),
            rows@.len() == steps * self.part_takes(hidden as nat, part),
        ensures
            outside.part_ran(part, rows@, r@),
            r@.len() == steps * self.part_width(hidden as nat, part),
    {
        outside.run(part, rows)
    }

    fn convolve<
        T: Copy,
        F: Fn(ScalarOp, T, T) -> T,
        C: Fn(Number) -> T,
        Z: Fn(Relation, T, T) -> bool,
        G: Fn(Lfm2Part, Vec<T>) -> Vec<T>,
        R: Fn(Vec<T>, Vec<u32>) -> Vec<T>,
        H: Fn(HeadShape, Vec<T>, Vec<T>, Vec<T>) -> Vec<T>,
    >(
        &self,
        x: &Scalars<T, F, C, Z>,
        w: &Lfm2HostWeights<T>,
        outside: &Surroundings<G, R, H>,
        normed: &Vec<T>,
        hidden: usize,
        steps: usize,
        cache: &mut Option<Lfm2LayerCache<T>>,
    ) -> (result: Result<Vec<T>, Error>)
        requires
            x.wf(),
            self.convolves(),
            w.holds(self, hidden as nat),
            self.served_by::<T, G, R, H>(
                outside,
                hidden as nat,
                steps as nat,
                cached_rows(*old(cache), self.kv_width() as int) as nat,
            ),
            normed@.len() == steps * hidden,
            self.fits_step(*old(cache), hidden as nat, steps as nat),
        ensures
            self.refuses(*old(cache)) matches Some(e) ==> result == Err::<Vec<T>, Error>(e)
                && *final(cache) == *old(cache),
            self.refuses(*old(cache)) is None ==> {
                &&& result matches Ok(mixed)
                &&& exists|rows: Lfm2Rows<T>|
                    {
                        &&& rows.normed == normed@
                        &&& rows.mixed == mixed@
                        &&& rows.mixer_sized(self, hidden as nat, steps as nat)
                        &&& #[trigger] x.mixer_ran(
                            outside,
                            self,
                            w,
                            hidden as nat,
                            steps as nat,
                            self.looks_back(*old(cache), hidden as nat, x.zero()),
                            self.looks_back(*final(cache), hidden as nat, x.zero()),
                            rows,
                        )
                    }
                &&& *final(cache) matches Some(Lfm2LayerCache::ShortConv(s))
                &&& s@.len() == (self.taps() - 1) * hidden
            },
    {
        let taps: usize = self.l_cache();
        let ghost held = cached_rows(*cache, self.kv_width() as int) as nat;
        proof {
            assert((taps - 1) * hidden + steps * hidden == (taps - 1 + steps) * hidden)
                by (nonlinear_arith);
            assert(hidden * (taps - 1) == (taps - 1) * hidden) by (nonlinear_arith);
            assert(0 <= steps * hidden && 0 <= (taps - 1) * hidden) by (nonlinear_arith)
                requires
                    taps >= 1,
            ;
        }
        let ghost before = self.looks_back(*cache, hidden as nat, x.zero());
        match ensure_shortconv(cache, hidden, taps, x.zero()) {
            Ok(()) => {},
            Err(e) => {
                return Err(e);
            },
        }
        let proj = self.ask(outside, Lfm2Part::ShortConvIn, normed, hidden, steps, Ghost(held));
        let conv = match cache {
            Some(Lfm2LayerCache::ShortConv(state)) => {
                assert(state@ =~= before.kept);
                shortconv_host(
                    x,
                    proj.as_slice(),
                    w.conv.as_slice(),
                    steps,
                    hidden,
                    taps,
                    state,
                )
            },
            _ => {
                return Err(Error::ShortConvCache);
            },
        };
        let mixed = self.ask(outside, Lfm2Part::ShortConvOut, &conv, hidden, steps, Ghost(held));
        proof {
            let rows = Lfm2Rows { normed: normed@, proj: proj@, mixed: mixed@, ..blank_rows() };
            let after = self.looks_back(*cache, hidden as nat, x.zero());
            assert(after =~= (HostState {
                kept: suffix(
                    before.kept + x.gated_inputs(proj@, steps as nat, hidden as nat),
                    before.kept.len(),
                ),
                ..before
            }));
            assert(x.mixer_ran(
                outside,
                self,
                w,
                hidden as nat,
                steps as nat,
                before,
                after,
                rows,
            ));
        }
        Ok(mixed)
    }

    fn attend<
        T: Copy,
        F: Fn(ScalarOp, T, T) -> T,
        C: Fn(Number) -> T,
        Z: Fn(Relation, T, T) -> bool,
        G: Fn(Lfm2Part, Vec<T>) -> Vec<T>,
        R: Fn(Vec<T>, Vec<u32>) -> Vec<T>,
        H: Fn(HeadShape, Vec<T>, Vec<T>, Vec<T>) -> Vec<T>,
    >(
        &self,
        x: &Scalars<T, F, C, Z>,
        w: &Lfm2HostWeights<T>,
        outside: &Surroundings<G, R, H>,
        normed: &Vec<T>,
        hidden: usize,
        steps: usize,
        cache: &mut Option<Lfm2LayerCache<T>>,
    ) -> (result: Result<Vec<T>, Error>)
        requires
            x.wf(),
            self.attends(),
            self.served_by::<T, G, R, H>(
                outside,
                hidden as nat,
                steps as nat,
                cached_rows(*old(cache), self.kv_width() as int) as nat,
            ),
            normed@.len() == steps * hidden,
            self.fits_step(*old(cache), hidden as nat, steps as nat),
        ensures
            self.refuses(*old(cache)) matches Some(e) ==> result == Err::<Vec<T>, Error>(e)
                && *final(cache) == *old(cache),
            self.refuses(*old(cache)) is None ==> {
                &&& result matches Ok(mixed)
                &&& exists|rows: Lfm2Rows<T>|
                    {
                        &&& rows.normed == normed@
                        &&& rows.mixed == mixed@
                        &&& rows.mixer_sized(self, hidden as nat, steps as nat)
                        &&& #[trigger] x.mixer_ran(
                            outside,
                            self,
                            w,
                            hidden as nat,
                            steps as nat,
                            self.looks_back(*old(cache), hidden as nat, x.zero()),
                            self.looks_back(*final(cache), hidden as nat, x.zero()),
                            rows,
                        )
                    }
                &&& kept_handles(*old(cache), *final(cache))
                &&& *final(cache) matches Some(Lfm2LayerCache::Attention(a))
                &&& a.whole(self.kv_width() as int)
            },
    {
        let ghost before = self.looks_back(*cache, hidden as nat, x.zero());
        let ghost held = cached_rows(*cache, self.kv_width() as int) as nat;
        proof {
            assert(0 <= self.num_kv_heads * self.head_dim) by (nonlinear_arith);
            assert(0 <= self.num_heads * self.head_dim) by (nonlinear_arith);
        }
        let kv_stride: usize = self.num_kv_heads * self.head_dim;
        let q = self.ask(outside, Lfm2Part::Query, normed, hidden, steps, Ghost(held));
        let k = self.ask(outside, Lfm2Part::Key, normed, hidden, steps, Ghost(held));
        let v = self.ask(outside, Lfm2Part::Value, normed, hidden, steps, Ghost(held));
        let q_norm = self.ask(outside, Lfm2Part::QueryNorm, &q, hidden, steps, Ghost(held));
        let k_norm = self.ask(outside, Lfm2Part::KeyNorm, &k, hidden, steps, Ghost(held));
        let past: usize = cache_offset(cache, kv_stride);
        let q_len: usize = q_norm.len();
        let k_len: usize = k_norm.len();
        proof {
            let (n, d, h, g) = (
                steps as int,
                self.head_dim as int,
                self.num_heads as int,
                self.num_kv_heads as int,
            );
            assert(d > 0) by (nonlinear_arith)
                requires
                    g * d > 0,
                    d >= 0,
            ;
            assert(n * h <= n * (h * d) && n * g <= n * (g * d)) by (nonlinear_arith)
                requires
                    n >= 0,
                    h >= 0,
                    g >= 0,
                    d >= 1,
            ;
            assert(past == (before.k.len() as int) / (self.kv_width() as int)) by {
                if *cache is None {
                    assert(0int / kv_stride as int == 0) by (nonlinear_arith)
                        requires
                            kv_stride > 0,
                    ;
                }
            }
        }
        let q_positions = rope_positions(past, steps, self.num_heads);
        let k_positions = rope_positions(past, steps, self.num_kv_heads);
        proof {
            assert(q_positions@ =~= head_positions(
                past as int,
                steps as nat,
                self.num_heads as nat,
            ));
            assert(k_positions@ =~= head_positions(
                past as int,
                steps as nat,
                self.num_kv_heads as nat,
            ));
        }
        proof {
            let (n, d) = (steps as int, self.head_dim as int);
            let (h, g) = (self.num_heads as int, self.num_kv_heads as int);
            assert((n * h) * d == n * (h * d) && (n * g) * d == n * (g * d)) by (nonlinear_arith);
        }
        let q_rot = outside.turn(&q_norm, q_positions);
        let k_rot = outside.turn(&k_norm, k_positions);
        match append_history(cache, k_rot.as_slice(), v.as_slice(), kv_stride, steps) {
            Ok(_) => {},
            Err(e) => {
                return Err(e);
            },
        }
        let attended = match cache {
            Some(Lfm2LayerCache::Attention(a)) => {
                assert(a.k@ =~= before.k + k_rot@);
                assert(a.v@ =~= before.v + v@);
                proof {
                    lemma_whole_rows(before.k.len() as int, steps as int, kv_stride as int);
                }
                outside.look(self.head_shape(), &q_rot, &a.k, &a.v)
            },
            _ => {
                return Err(Error::AttentionCache);
            },
        };
        let mixed = self.ask(outside, Lfm2Part::AttnOut, &attended, hidden, steps, Ghost(held));
        proof {
            let rows = Lfm2Rows {
                normed: normed@,
                q: q@,
                k: k@,
                v: v@,
                q_norm: q_norm@,
                k_norm: k_norm@,
                q_rot: q_rot@,
                k_rot: k_rot@,
                attended: attended@,
                mixed: mixed@,
                ..blank_rows()
            };
            let after = self.looks_back(*cache, hidden as nat, x.zero());
            assert(after =~= (HostState {
                k: before.k + rows.k_rot,
                v: before.v + rows.v,
                ..before
            }));
            assert(x.mixer_ran(
                outside,
                self,
                w,
                hidden as nat,
                steps as nat,
                before,
                after,
                rows,
            ));
        }
        Ok(mixed)
    }

    /// Runs one step of the layer on `steps` rows.
    pub fn forward_host<
        T: Copy,
        F: Fn(ScalarOp, T, T) -> T,
        C: Fn(Number) -> T,
        Z: Fn(Relation, T, T) -> bool,
        G: Fn(Lfm2Part, Vec<T>) -> Vec<T>,
        R: Fn(Vec<T>, Vec<u32>) -> Vec<T>,
        H: Fn(HeadShape, Vec<T>, Vec<T>, Vec<T>) -> Vec<T>,
    >(
        &self,
        x: &Scalars<T, F, C, Z>,
        w: &Lfm2HostWeights<T>,
        outside: &Surroundings<G, R, H>,
        input: &Vec<T>,
        hidden: usize,
        steps: usize,
        cache: &mut Option<Lfm2LayerCache<T>>,
    ) -> (result: Result<Vec<T>, Error>)
        requires
            x.wf(),
            w.holds(self, hidden as nat),
            self.served_by::<T, G, R, H>(
                outside,
                hidden as nat,
                steps as nat,
                cached_rows(*old(cache), self.kv_width() as int) as nat,
            ),
            input@.len() == steps * hidden,
            self.fits_step(*old(cache), hidden as nat, steps as nat),
        ensures
            self.refuses(*old(cache)) matches Some(e) ==> result == Err::<Vec<T>, Error>(e)
                && *final(cache) == *old(cache),
            self.refuses(*old(cache)) is None ==> (result matches Ok(out) && out@.len() == steps
                * hidden && exists|rows: Lfm2Rows<T>| #[trigger]
                x.step_ran(
                    outside,
                    self,
                    w,
                    hidden as nat,
                    steps as nat,
                    self.looks_back(*old(cache), hidden as nat, x.zero()),
                    self.looks_back(*final(cache), hidden as nat, x.zero()),
                    input@,
                    rows,
                    out@,
                )),
            self.refuses(*old(cache)) is None && self.convolves() ==> (*final(cache) matches Some(
                Lfm2LayerCache::ShortConv(s),
            ) && s@.len() == (self.taps() - 1) * hidden),
            self.refuses(*old(cache)) is None && self.attends() ==> kept_handles(
                *old(cache),
                *final(cache),
            ) && (*final(cache) matches Some(Lfm2LayerCache::Attention(a)) && a.whole(
                self.kv_width() as int,
            )),
    {
        let ghost before = self.looks_back(*cache, hidden as nat, x.zero());
        let ghost held = cached_rows(*cache, self.kv_width() as int) as nat;
        let ghost mut rows: Lfm2Rows<T> = blank_rows();
        let normed = self.ask(outside, Lfm2Part::AttnNorm, input, hidden, steps, Ghost(held));
        let mixed = if self.shortconv_in_proj.is_some() {
            match self.convolve(x, w, outside, &normed, hidden, steps, cache) {
                Ok(mixed) => {
                    proof {
                        rows = choose|r: Lfm2Rows<T>|
                            {
                                &&& r.normed == normed@
                                &&& r.mixed == mixed@
                                &&& r.mixer_sized(self, hidden as nat, steps as nat)
                                &&& #[trigger] x.mixer_ran(
                                    outside,
                                    self,
                                    w,
                                    hidden as nat,
                                    steps as nat,
                                    before,
                                    self.looks_back(*cache, hidden as nat, x.zero()),
                                    r,
                                )
                            };
                    }
                    mixed
                },
                Err(e) => {
                    return Err(e);
                },
            }
        } else {
            match self.attend(x, w, outside, &normed, hidden, steps, cache) {
                Ok(mixed) => {
                    proof {
                        rows = choose|r: Lfm2Rows<T>|
                            {
                                &&& r.normed == normed@
                                &&& r.mixed == mixed@
                                &&& r.mixer_sized(self, hidden as nat, steps as nat)
                                &&& #[trigger] x.mixer_ran(
                                    outside,
                                    self,
                                    w,
                                    hidden as nat,
                                    steps as nat,
                                    before,
                                    self.looks_back(*cache, hidden as nat, x.zero()),
                                    r,
                                )
                            };
                    }
                    mixed
                },
                Err(e) => {
                    return Err(e);
                },
            }
        };
        let ghost after = self.looks_back(*cache, hidden as nat, x.zero());
        assert(x.mixer_ran(
            outside,
            self,
            w,
            hidden as nat,
            steps as nat,
            before,
            after,
            rows,
        ));
        let sum = add_rows(x, input.as_slice(), mixed.as_slice(), None);
        let ffn_normed = self.ask(outside, Lfm2Part::FfnNorm, &sum, hidden, steps, Ghost(held));
        proof {
            rows = Lfm2Rows { ffn_normed: ffn_normed@, ..rows };
        }
        let down = if self.is_moe {
            let scores = self.ask(outside, Lfm2Part::Router, &ffn_normed, hidden, steps, Ghost(held));
            let down = run_experts(x, self, w, hidden, steps, &ffn_normed, &scores);
            proof {
                rows = Lfm2Rows { ffn_scores: scores@, down: down@, ..rows };
            }
            down
        } else {
            let gate = self.ask(outside, Lfm2Part::Gate, &ffn_normed, hidden, steps, Ghost(held));
            let up = self.ask(outside, Lfm2Part::Up, &ffn_normed, hidden, steps, Ghost(held));
            let active = activate_gated(x, Activation::Silu, gate.as_slice(), up.as_slice());
            assert(active@ =~= x.gated(gate@, up@));
            let down = self.ask(outside, Lfm2Part::Down, &active, hidden, steps, Ghost(held));
            proof {
                rows = Lfm2Rows { gate: gate@, up: up@, down: down@, ..rows };
            }
            down
        };
        let out = add_rows(x, sum.as_slice(), down.as_slice(), None);
        proof {
            assert(x.step_ran(
                outside,
                self,
                w,
                hidden as nat,
                steps as nat,
                self.looks_back(*old(cache), hidden as nat, x.zero()),
                self.looks_back(*cache, hidden as nat, x.zero()),
                input@,
                rows,
                out@,
            ));
        }
        Ok(out)
    }
}

/// The cache is an attention history afterwards, with the device buffers that
/// it had before.
pub open spec fn kept_handles<T>(
    before: Option<Lfm2LayerCache<T>>,
    after: Option<Lfm2LayerCache<T>>,
) -> bool {
    &&& after matches Some(Lfm2LayerCache::Attention(a))
    &&& match before {
        Some(Lfm2LayerCache::Attention(b)) => a.same_handles(b),
        _ => a.unmade(),
    }
}

spec fn blank_rows<T>() -> Lfm2Rows<T> {
    Lfm2Rows {
        normed: Seq::empty(),
        proj: Seq::empty(),
        q: Seq::empty(),
        k: Seq::empty(),
        v: Seq::empty(),
        q_norm: Seq::empty(),
        k_norm: Seq::empty(),
        q_rot: Seq::empty(),
        k_rot: Seq::empty(),
        attended: Seq::empty(),
        mixed: Seq::empty(),
        ffn_normed: Seq::empty(),
        ffn_scores: Seq::empty(),
        gate: Seq::empty(),
        up: Seq::empty(),
        down: Seq::empty(),
    }
}

} // verus!
