//! Gemma: grouped-query attention over a kept history and a gated feed-forward
//! part; the token table is the head as well.

use crate::block_program::{Activation, AttentionDesign, BlockDesign, BlockOp, Ffn, FfnInput};
use crate::block_run::{run_block, serves_applied, Outside};
use crate::cached_attention::run_causal_block;
use crate::error::Error;
use crate::kv_attention::RefKvCache;
use crate::modality::ModalityHint;
use crate::numeric::{Real, TEN_THOUSAND};
use crate::scalar::{Number, Relation, ScalarOp, Scalars};
use crate::stages::{PassDesign, Stage};
use crate::weights::{in_layer, plain, required, rms_norm, LoadStep, ModelPlan, Weight};
use vstd::prelude::*;

verus! {

/// The settings of a Gemma model.
#[derive(Debug, Clone, Copy)]
pub struct GemmaConfig {
    pub vocab_size: usize,
    pub hidden_size: usize,
    pub num_heads: usize,
    pub num_kv_heads: usize,
    pub head_dim: usize,
    pub num_layers: usize,
    pub intermediate_size: usize,
    pub rms_norm_eps: Real,
}

impl GemmaConfig {
    /// The family's name.
    pub fn name(&self) -> (name: &'static str)
        ensures
            name@ == "gemma"@,
    {
        "gemma"
    }

    /// Text in, text out.
    pub fn modality(&self) -> (m: ModalityHint)
        ensures
            m == ModalityHint::TextInTextOut,
    {
        ModalityHint::TextInTextOut
    }

    /// Every width that the weights have fits.
    pub open spec fn fits(&self) -> bool {
        &&& self.num_heads * self.head_dim + 2 * (self.num_kv_heads * self.head_dim) <= usize::MAX
    }
}

/// The weights of a layer.
pub open spec fn gemma_layer_plan(cfg: &GemmaConfig, layer: usize) -> Seq<LoadStep> {
    let q = (cfg.num_heads * cfg.head_dim) as usize;
    let kv = (cfg.num_kv_heads * cfg.head_dim) as usize;
    let hidden = cfg.hidden_size;
    let inter = cfg.intermediate_size;
    seq![
        rms_norm(in_layer("blk", layer, "", "attn_norm"), hidden),
        required(
            in_layer("blk", layer, "", "wq"),
            Weight::Linear { inputs: hidden, outputs: q, bias: false },
        ),
        required(
            in_layer("blk", layer, "", "wk"),
            Weight::Linear { inputs: hidden, outputs: kv, bias: false },
        ),
        required(
            in_layer("blk", layer, "", "wv"),
            Weight::Linear { inputs: hidden, outputs: kv, bias: false },
        ),
        required(
            in_layer("blk", layer, "", "wo"),
            Weight::Linear { inputs: q, outputs: hidden, bias: false },
        ),
        rms_norm(in_layer("blk", layer, "", "ffn_norm"), hidden),
        required(
            in_layer("blk", layer, "", "ffn_gate"),
            Weight::Linear { inputs: hidden, outputs: inter, bias: false },
        ),
        required(
            in_layer("blk", layer, "", "ffn_up"),
            Weight::Linear { inputs: hidden, outputs: inter, bias: false },
        ),
        required(
            in_layer("blk", layer, "", "ffn_down"),
            Weight::Linear { inputs: inter, outputs: hidden, bias: false },
        ),
    ]
}

/// A block of a model.
#[derive(Debug, Clone, Copy)]
pub struct GemmaBlock {
    pub design: BlockDesign,
}

/// The parts of a block.
pub open spec fn gemma_design(cfg: &GemmaConfig) -> BlockDesign {
    BlockDesign {
        hidden: cfg.hidden_size,
        inter: cfg.intermediate_size,
        attention: AttentionDesign {
            heads: cfg.num_heads,
            kv_heads: cfg.num_kv_heads,
            head_dim: cfg.head_dim,
            cached: true,
            window: None,
            softcap: None,
        },
        layer_norm: false,
        fused_qkv: false,
        qk_norm: false,
        rope_theta: Some(Real { bits: TEN_THOUSAND }),
        rotary_dim: cfg.head_dim,
        rope_sections: None,
        post_attn_norm: false,
        ffn_input: FfnInput::NormedResidual,
        ffn: Ffn::Gated(Activation::GeluFactored),
        post_ffn_norm: false,
        residual_scale: None,
    }
}

impl GemmaBlock {
    /// A block of a configuration.
    pub fn new(cfg: &GemmaConfig) -> (block: GemmaBlock)
        requires
            cfg.fits(),
        ensures
            block.design == gemma_design(cfg),
    {
        GemmaBlock {
            design: BlockDesign {
                hidden: cfg.hidden_size,
                inter: cfg.intermediate_size,
                attention: AttentionDesign {
                    heads: cfg.num_heads,
                    kv_heads: cfg.num_kv_heads,
                    head_dim: cfg.head_dim,
                    cached: true,
                    window: None,
                    softcap: None,
                },
                layer_norm: false,
                fused_qkv: false,
                qk_norm: false,
                rope_theta: Some(Real { bits: TEN_THOUSAND }),
                rotary_dim: cfg.head_dim,
                rope_sections: None,
                post_attn_norm: false,
                ffn_input: FfnInput::NormedResidual,
                ffn: Ffn::Gated(Activation::GeluFactored),
                post_ffn_norm: false,
                residual_scale: None,
            },
        }
    }

    /// The weights of a layer.
    pub fn load(cfg: &GemmaConfig, layer: usize) -> (plan: Vec<LoadStep>)
        requires
            cfg.fits(),
        ensures
            plan@ == gemma_layer_plan(cfg, layer),
    {
        let q: usize = cfg.num_heads * cfg.head_dim;
        let kv: usize = cfg.num_kv_heads * cfg.head_dim;
        let hidden: usize = cfg.hidden_size;
        let inter: usize = cfg.intermediate_size;
        vec![
            rms_norm(in_layer("blk", layer, "", "attn_norm"), hidden),
            required(
                in_layer("blk", layer, "", "wq"),
                Weight::Linear { inputs: hidden, outputs: q, bias: false },
            ),
            required(
                in_layer("blk", layer, "", "wk"),
                Weight::Linear { inputs: hidden, outputs: kv, bias: false },
            ),
            required(
                in_layer("blk", layer, "", "wv"),
                Weight::Linear { inputs: hidden, outputs: kv, bias: false },
            ),
            required(
                in_layer("blk", layer, "", "wo"),
                Weight::Linear { inputs: q, outputs: hidden, bias: false },
            ),
            rms_norm(in_layer("blk", layer, "", "ffn_norm"), hidden),
            required(
                in_layer("blk", layer, "", "ffn_gate"),
                Weight::Linear { inputs: hidden, outputs: inter, bias: false },
            ),
            required(
                in_layer("blk", layer, "", "ffn_up"),
                Weight::Linear { inputs: hidden, outputs: inter, bias: false },
            ),
            required(
                in_layer("blk", layer, "", "ffn_down"),
                Weight::Linear { inputs: inter, outputs: hidden, bias: false },
            ),
        ]
    }

    /// The operations of a block.
    pub fn forward(&self) -> (ops: Vec<BlockOp>)
        requires
            self.design.fits(),
        ensures
            ops@ == self.design.ops(),
    {
        self.design.program()
    }

    /// Runs the block on the rows of a call. Its rotated keys and its values join
    /// the block's history, and its queries attend over all of it.
    ///
    /// `apply` runs projections, norms and rotations.
    pub fn forward_cached<
        T: Copy,
        F: Fn(ScalarOp, T, T) -> T,
        C: Fn(Number) -> T,
        Z: Fn(Relation, T, T) -> bool,
        G: Fn(BlockOp, Vec<T>) -> Vec<T>,
    >(
        &self,
        x: &Scalars<T, F, C, Z>,
        input: Vec<T>,
        tokens: usize,
        cache: &mut RefKvCache<T>,
        apply: G,
    ) -> (out: Vec<T>)
        requires
            x.wf(),
            self.design.fits(),
            self.design.attention.cached,
            self.design.attention.window is None,
            0 < self.design.attention.kv_heads,
            self.design.attention.heads * self.design.attention.kv_heads <= usize::MAX,
            input@.len() == tokens * self.design.hidden,
            old(cache).wf(self.design.kv_dim() as nat),
            old(cache).past_len + tokens <= usize::MAX,
            (old(cache).past_len + tokens) * self.design.attention.head_dim <= usize::MAX,
            serves_applied(apply, &self.design, tokens as nat),
        ensures
            out@.len() == tokens * self.design.hidden,
            x.block_done(
                apply,
                x.attends_causally(tokens as nat, old(cache).past_len as nat),
                &self.design,
                tokens as nat,
                input@,
                old(cache).k@,
                old(cache).v@,
                out@,
                final(cache).k@,
                final(cache).v@,
            ),
            final(cache).wf(self.design.kv_dim() as nat),
            final(cache).past_len == old(cache).past_len + tokens,
            old(cache).k@ == final(cache).k@.take(old(cache).k@.len() as int),
            old(cache).v@ == final(cache).v@.take(old(cache).v@.len() as int),
    {
        run_causal_block(x, &self.design, input, tokens, cache, apply)
    }

    /// Runs the block with attention left to its surroundings, which see the
    /// whole history.
    pub fn forward_kv<
        T: Copy,
        F: Fn(ScalarOp, T, T) -> T,
        C: Fn(Number) -> T,
        Z: Fn(Relation, T, T) -> bool,
        G: Fn(BlockOp, Vec<T>) -> Vec<T>,
        H: Fn(AttentionDesign, Vec<T>, Vec<T>, Vec<T>) -> Vec<T>,
    >(
        &self,
        x: &Scalars<T, F, C, Z>,
        outside: &Outside<G, H>,
        input: Vec<T>,
        tokens: usize,
        cache: &mut RefKvCache<T>,
    ) -> (out: Vec<T>)
        requires
            x.wf(),
            self.design.fits(),
            self.design.attention.cached,
            input@.len() == tokens * self.design.hidden,
            old(cache).wf(self.design.kv_dim() as nat),
            old(cache).past_len + tokens <= usize::MAX,
            outside.serves::<T>(
                &self.design,
                tokens as nat,
                (old(cache).past_len + tokens) as nat,
            ),
        ensures
            out@.len() == tokens * self.design.hidden,
            x.block_done(
                outside.apply,
                outside.attending(),
                &self.design,
                tokens as nat,
                input@,
                old(cache).k@,
                old(cache).v@,
                out@,
                final(cache).k@,
                final(cache).v@,
            ),
            final(cache).wf(self.design.kv_dim() as nat),
            final(cache).past_len == old(cache).past_len + tokens,
            old(cache).k@ == final(cache).k@.take(old(cache).k@.len() as int),
            old(cache).v@ == final(cache).v@.take(old(cache).v@.len() as int),
    {
        run_block(x, outside, &self.design, input, tokens, cache)
    }
}

/// A model.
#[derive(Debug, Clone, Copy)]
pub struct Gemma {
    pub cfg: GemmaConfig,
}

/// The plan names every weight of a model.
pub open spec fn gemma_planned(cfg: &GemmaConfig, plan: &ModelPlan) -> bool {
    &&& plan.tok_embeddings == required(
        plain("", "token_embd"),
        Weight::Embedding { rows: cfg.vocab_size, dim: cfg.hidden_size },
    )
    &&& plan.layers@.len() == cfg.num_layers
    &&& forall|i: int|
        0 <= i < cfg.num_layers ==> (#[trigger] plan.layers@[i])@ == gemma_layer_plan(cfg, i as usize)
    &&& plan.norm == rms_norm(plain("", "output_norm"), cfg.hidden_size)
    &&& plan.output is None
    &&& plan.positions is None
}

impl Gemma {
    /// The weights that a model asks for on one device.
    pub fn load(cfg: &GemmaConfig) -> (plan: ModelPlan)
        requires
            cfg.fits(),
        ensures
            gemma_planned(cfg, &plan),
    {
        let mut layers: Vec<Vec<LoadStep>> = Vec::new();
        let mut i: usize = 0;
        while i < cfg.num_layers
            invariant
                i <= cfg.num_layers,
                cfg.fits(),
                layers@.len() == i,
                forall|j: int|
                    0 <= j < i ==> (#[trigger] layers@[j])@ == gemma_layer_plan(cfg, j as usize),
            decreases cfg.num_layers - i,
        {
            layers.push(GemmaBlock::load(cfg, i));
            i = i + 1;
        }
        ModelPlan {
            tok_embeddings: required(
        plain("", "token_embd"),
        Weight::Embedding { rows: cfg.vocab_size, dim: cfg.hidden_size },
    ),
            positions: None,
            layers,
            norm: rms_norm(plain("", "output_norm"), cfg.hidden_size),
            output: None,
        }
    }

    /// The weights that a model asks for; several devices are refused.
    pub fn load_tp(cfg: &GemmaConfig, world_size: usize) -> (result: Result<ModelPlan, Error>)
        requires
            cfg.fits(),
        ensures
            world_size > 1 ==> result == Err::<ModelPlan, Error>(Error::SingleDevice {
                    model: "Gemma",
                    reason: "GemmaBlock::forward must be reworked to consume ColumnParallelLinear/RowParallelLinear so the row-parallel partials get all-reduced",
                }),
            world_size <= 1 ==> (result matches Ok(plan) && gemma_planned(cfg, &plan)),
    {
        if world_size > 1 {
            return Err(
                Error::SingleDevice {
                    model: "Gemma",
                    reason: "GemmaBlock::forward must be reworked to consume ColumnParallelLinear/RowParallelLinear so the row-parallel partials get all-reduced",
                },
            );
        }
        Ok(Self::load(cfg))
    }

    /// The stages of a pass over `tokens` tokens.
    pub fn forward(&self, tokens: usize) -> (stages: Vec<Stage>)
        ensures
            stages@ == (PassDesign {
                layers: self.cfg.num_layers,
                positions: false,
                sqrt_scale: None,
                keeps_hidden: false,
                softcap: None,
                advances: true
            }).stages(tokens),
    {
        let design = PassDesign {
            layers: self.cfg.num_layers,
            positions: false,
            sqrt_scale: None,
            keeps_hidden: false,
            softcap: None,
            advances: true
        };
        design.pass(tokens)
    }
}

} // verus!
