//! Gemma-2: four norms per block, a gated feed-forward part, and soft caps on
//! attention scores and logits.

use crate::block_program::{
    gated_ops, gated_program, Activation, AttentionDesign, BlockDesign, BlockOp, Ffn, FfnInput, Reg,
};
use crate::block_run::serves_applied;
use crate::cached_attention::run_causal_block;
use crate::kv_attention::RefKvCache;
use crate::modality::ModalityHint;
use crate::numeric::{Real, YarnParams, FIFTY, MILLIONTH, TEN_THOUSAND, THIRTY};
use crate::rows::{gather_rows, gathered};
use crate::scalar::{Number, Relation, ScalarOp, Scalars};
use crate::stages::{PassDesign, Stage};
use crate::weights::{
    gated_plan, in_layer, linear_shape, optional, plain, proj_names, push_gated, rms_norm, Fallback,
    LoadStep, ModelPlan, Weight,
};
use vstd::prelude::*;

verus! {

/// The settings of a Gemma-2 model.
#[derive(Debug, Clone, Copy)]
pub struct Gemma2Config {
    pub vocab_size: usize,
    pub hidden_size: usize,
    pub intermediate_size: usize,
    pub num_hidden_layers: usize,
    pub num_attention_heads: usize,
    pub num_key_value_heads: usize,
    pub head_dim: usize,
    pub attn_logit_softcapping: Option<Real>,
    pub final_logit_softcapping: Option<Real>,
    pub sliding_window: Option<usize>,
    pub rms_norm_eps: Real,
    pub rope_theta: Real,
    pub max_position_embeddings: usize,
    pub yarn: Option<YarnParams>,
}

impl Default for Gemma2Config {
    fn default() -> (cfg: Self)
        ensures
            cfg == (Gemma2Config {
                vocab_size: 256000,
                hidden_size: 3584,
                intermediate_size: 14336,
                num_hidden_layers: 42,
                num_attention_heads: 16,
                num_key_value_heads: 8,
                head_dim: 256,
                attn_logit_softcapping: Some(Real { bits: FIFTY }),
                final_logit_softcapping: Some(Real { bits: THIRTY }),
                sliding_window: Some(4096),
                rms_norm_eps: Real { bits: MILLIONTH },
                rope_theta: Real { bits: TEN_THOUSAND },
                max_position_embeddings: 8192,
                yarn: None,
            }),
    {
        Gemma2Config {
            vocab_size: 256000,
            hidden_size: 3584,
            intermediate_size: 14336,
            num_hidden_layers: 42,
            num_attention_heads: 16,
            num_key_value_heads: 8,
            head_dim: 256,
            attn_logit_softcapping: Some(Real { bits: FIFTY }),
            final_logit_softcapping: Some(Real { bits: THIRTY }),
            sliding_window: Some(4096),
            rms_norm_eps: Real { bits: MILLIONTH },
            rope_theta: Real { bits: TEN_THOUSAND },
            max_position_embeddings: 8192,
            yarn: None,
        }
    }
}

impl Gemma2Config {
    /// The family's name.
    pub fn name(&self) -> (name: &'static str)
        ensures
            name@ == "gemma2"@,
    {
        "gemma2"
    }

    /// Text in, text out.
    pub fn modality(&self) -> (m: ModalityHint)
        ensures
            m == ModalityHint::TextInTextOut,
    {
        ModalityHint::TextInTextOut
    }

    /// Every width that the weights have fits.
    pub open spec fn fits(&self) -> bool {
        &&& self.num_attention_heads * self.head_dim + 2 * (self.num_key_value_heads * self.head_dim) <= usize::MAX
    }
}

/// The feed-forward part of a block.
#[derive(Debug, Clone, Copy)]
pub struct Gemma2Mlp {
    pub in_dim: usize,
    pub hidden_dim: usize,
}

impl Gemma2Mlp {
    /// The weights of the feed-forward part of a layer.
    pub fn load(layer: usize, in_dim: usize, hidden_dim: usize) -> (plan: Vec<LoadStep>)
        ensures
            plan@ == gated_plan("model.layers", layer, "mlp", in_dim, hidden_dim, proj_names()),
    {
        let mut plan: Vec<LoadStep> = Vec::new();
        push_gated(&mut plan, "model.layers", layer, "mlp", in_dim, hidden_dim, proj_names());
        assert(plan@ =~= gated_plan(
            "model.layers",
            layer,
            "mlp",
            in_dim,
            hidden_dim,
            proj_names(),
        ));
        plan
    }

    /// The operations of the feed-forward part.
    pub fn forward(&self) -> (ops: Vec<BlockOp>)
        ensures
            ops@ == gated_ops(Reg::FfnInput, self.in_dim, self.hidden_dim, Activation::GeluRoot),
    {
        gated_program(self.in_dim, self.hidden_dim, Activation::GeluRoot)
    }
}

/// The weights of a layer.
pub open spec fn gemma2_layer_plan(cfg: &Gemma2Config, layer: usize) -> Seq<LoadStep> {
    let q = (cfg.num_attention_heads * cfg.head_dim) as usize;
    let kv = (cfg.num_key_value_heads * cfg.head_dim) as usize;
    let hidden = cfg.hidden_size;
    let inter = cfg.intermediate_size;
    seq![
        linear_shape(in_layer("model.layers", layer, "self_attn", "q_proj"), hidden, q),
        linear_shape(in_layer("model.layers", layer, "self_attn", "k_proj"), hidden, kv),
        linear_shape(in_layer("model.layers", layer, "self_attn", "v_proj"), hidden, kv),
        linear_shape(in_layer("model.layers", layer, "self_attn", "o_proj"), q, hidden),
        rms_norm(in_layer("model.layers", layer, "", "input_layernorm"), hidden),
        rms_norm(in_layer("model.layers", layer, "", "post_attention_layernorm"), hidden),
        rms_norm(in_layer("model.layers", layer, "", "pre_feedforward_layernorm"), hidden),
        rms_norm(in_layer("model.layers", layer, "", "post_feedforward_layernorm"), hidden),
        linear_shape(in_layer("model.layers", layer, "mlp", "gate_proj"), hidden, inter),
        linear_shape(in_layer("model.layers", layer, "mlp", "up_proj"), hidden, inter),
        linear_shape(in_layer("model.layers", layer, "mlp", "down_proj"), inter, hidden),
    ]
}

/// A block of a model.
#[derive(Debug, Clone, Copy)]
pub struct Gemma2Block {
    pub design: BlockDesign,
}

/// The parts of a block.
pub open spec fn gemma2_design(cfg: &Gemma2Config) -> BlockDesign {
    BlockDesign {
        hidden: cfg.hidden_size,
        inter: cfg.intermediate_size,
        attention: AttentionDesign {
            heads: cfg.num_attention_heads,
            kv_heads: cfg.num_key_value_heads,
            head_dim: cfg.head_dim,
            cached: false,
            window: None,
            softcap: cfg.attn_logit_softcapping,
        },
        layer_norm: false,
        fused_qkv: false,
        qk_norm: false,
        rope_theta: Some(Real { bits: TEN_THOUSAND }),
        rotary_dim: cfg.head_dim,
        rope_sections: None,
        post_attn_norm: true,
        ffn_input: FfnInput::NormedResidual,
        ffn: Ffn::Gated(Activation::GeluRoot),
        post_ffn_norm: true,
        residual_scale: None,
    }
}

impl Gemma2Block {
    /// A block of a configuration.
    pub fn new(cfg: &Gemma2Config) -> (block: Gemma2Block)
        requires
            cfg.fits(),
        ensures
            block.design == gemma2_design(cfg),
    {
        Gemma2Block {
            design: BlockDesign {
                hidden: cfg.hidden_size,
                inter: cfg.intermediate_size,
                attention: AttentionDesign {
                    heads: cfg.num_attention_heads,
                    kv_heads: cfg.num_key_value_heads,
                    head_dim: cfg.head_dim,
                    cached: false,
                    window: None,
                    softcap: cfg.attn_logit_softcapping,
                },
                layer_norm: false,
                fused_qkv: false,
                qk_norm: false,
                rope_theta: Some(Real { bits: TEN_THOUSAND }),
                rotary_dim: cfg.head_dim,
                rope_sections: None,
                post_attn_norm: true,
                ffn_input: FfnInput::NormedResidual,
                ffn: Ffn::Gated(Activation::GeluRoot),
                post_ffn_norm: true,
                residual_scale: None,
            },
        }
    }

    /// The weights of a layer.
    pub fn load(cfg: &Gemma2Config, layer: usize) -> (plan: Vec<LoadStep>)
        requires
            cfg.fits(),
        ensures
            plan@ == gemma2_layer_plan(cfg, layer),
    {
        let q: usize = cfg.num_attention_heads * cfg.head_dim;
        let kv: usize = cfg.num_key_value_heads * cfg.head_dim;
        let hidden: usize = cfg.hidden_size;
        let inter: usize = cfg.intermediate_size;
        vec![
            linear_shape(in_layer("model.layers", layer, "self_attn", "q_proj"), hidden, q),
            linear_shape(in_layer("model.layers", layer, "self_attn", "k_proj"), hidden, kv),
            linear_shape(in_layer("model.layers", layer, "self_attn", "v_proj"), hidden, kv),
            linear_shape(in_layer("model.layers", layer, "self_attn", "o_proj"), q, hidden),
            rms_norm(in_layer("model.layers", layer, "", "input_layernorm"), hidden),
            rms_norm(in_layer("model.layers", layer, "", "post_attention_layernorm"), hidden),
            rms_norm(in_layer("model.layers", layer, "", "pre_feedforward_layernorm"), hidden),
            rms_norm(in_layer("model.layers", layer, "", "post_feedforward_layernorm"), hidden),
            linear_shape(in_layer("model.layers", layer, "mlp", "gate_proj"), hidden, inter),
            linear_shape(in_layer("model.layers", layer, "mlp", "up_proj"), hidden, inter),
            linear_shape(in_layer("model.layers", layer, "mlp", "down_proj"), inter, hidden),
        ]
    }

    /// The operations of a block.
    pub fn forward(&self) -> (ops: Vec<BlockOp>)
        requires
            self.design.fits(),
        ensures
            ops@ == self.design.ops(),
    {
        self.design.program()
    }

    /// Runs a block on the rows of `tokens` tokens: attention is causal over
    /// them, and its scores are kept within the configuration's cap.
    ///
    /// `apply` runs norms, projections and rotations.
    pub fn run<
        T: Copy,
        F: Fn(ScalarOp, T, T) -> T,
        C: Fn(Number) -> T,
        Z: Fn(Relation, T, T) -> bool,
        G: Fn(BlockOp, Vec<T>) -> Vec<T>,
    >(
        &self,
        x: &Scalars<T, F, C, Z>,
        input: Vec<T>,
        tokens: usize,
        apply: G,
    ) -> (out: Vec<T>)
        requires
            x.wf(),
            self.design.fits(),
            !self.design.attention.cached,
            self.design.attention.window is None,
            0 < self.design.attention.kv_heads,
            self.design.attention.heads * self.design.attention.kv_heads <= usize::MAX,
            input@.len() == tokens * self.design.hidden,
            tokens * self.design.attention.head_dim <= usize::MAX,
            serves_applied(apply, &self.design, tokens as nat),
        ensures
            out@.len() == tokens * self.design.hidden,
            exists|k: Seq<T>, v: Seq<T>| #[trigger]
                x.block_done(
                    apply,
                    x.attends_causally(tokens as nat, 0),
                    &self.design,
                    tokens as nat,
                    input@,
                    Seq::empty(),
                    Seq::empty(),
                    out@,
                    k,
                    v,
                ),
    {
        let mut none = RefKvCache::new();
        run_causal_block(x, &self.design, input, tokens, &mut none, apply)
    }
}

/// A model.
#[derive(Debug, Clone, Copy)]
pub struct Gemma2 {
    pub cfg: Gemma2Config,
    /// Layers that the model runs.
    pub layers: usize,
}

/// The plan names every weight of a model.
pub open spec fn gemma2_planned(cfg: &Gemma2Config, plan: &ModelPlan) -> bool {
    &&& plan.tok_embeddings == linear_shape(plain("model", "embed_tokens"), cfg.vocab_size, cfg.hidden_size)
    &&& plan.layers@.len() == cfg.num_hidden_layers
    &&& forall|i: int|
        0 <= i < cfg.num_hidden_layers ==> (#[trigger] plan.layers@[i])@ == gemma2_layer_plan(cfg, i as usize)
    &&& plan.norm == rms_norm(plain("model", "norm"), cfg.hidden_size)
    &&& plan.output == Some(
        optional(
            plain("", "lm_head"),
            Weight::LinearShape { d0: cfg.hidden_size, d1: cfg.vocab_size },
            Fallback::TiedTransposed,
        ),
    )
    &&& plan.positions is None
}

impl Gemma2 {
    /// The weights that a model asks for, each device holding them all.
    pub fn load_tp(cfg: &Gemma2Config) -> (plan: ModelPlan)
        requires
            cfg.fits(),
        ensures
            gemma2_planned(cfg, &plan),
    {
        let mut layers: Vec<Vec<LoadStep>> = Vec::new();
        let mut i: usize = 0;
        while i < cfg.num_hidden_layers
            invariant
                i <= cfg.num_hidden_layers,
                cfg.fits(),
                layers@.len() == i,
                forall|j: int|
                    0 <= j < i ==> (#[trigger] layers@[j])@ == gemma2_layer_plan(cfg, j as usize),
            decreases cfg.num_hidden_layers - i,
        {
            layers.push(Gemma2Block::load(cfg, i));
            i = i + 1;
        }
        ModelPlan {
            tok_embeddings: linear_shape(plain("model", "embed_tokens"), cfg.vocab_size, cfg.hidden_size),
            positions: None,
            layers,
            norm: rms_norm(plain("model", "norm"), cfg.hidden_size),
            output: Some(
        optional(
            plain("", "lm_head"),
            Weight::LinearShape { d0: cfg.hidden_size, d1: cfg.vocab_size },
            Fallback::TiedTransposed,
        ),
    ),
        }
    }

    /// A model without layers, for trying the ends of a pass.
    pub fn random(cfg: Gemma2Config) -> (model: Gemma2)
        ensures
            model.cfg == cfg,
            model.layers == 0,
    {
        Gemma2 { cfg, layers: 0 }
    }

    /// The rows that a pass starts from, one row of the token table per id. An
    /// id outside the vocabulary, or one whose row is not all in the table,
    /// gives zeros.
    pub fn embed<T: Copy>(&self, table: &[T], ids: &[usize], zero: T) -> (rows: Vec<T>)
        requires
            self.cfg.vocab_size * self.cfg.hidden_size <= usize::MAX,
        ensures
            rows@ == gathered(
                table@,
                self.cfg.vocab_size as nat,
                self.cfg.hidden_size as nat,
                ids@,
                zero,
            ),
    {
        gather_rows(table, self.cfg.vocab_size, self.cfg.hidden_size, ids, zero)
    }

    /// The stages of a pass over `tokens` tokens.
    pub fn forward(&self, tokens: usize) -> (stages: Vec<Stage>)
        ensures
            stages@ == (PassDesign {
                layers: self.layers,
                positions: false,
                sqrt_scale: None,
                keeps_hidden: true,
                softcap: self.cfg.final_logit_softcapping,
                advances: false
            }).stages(tokens),
    {
        let design = PassDesign {
            layers: self.layers,
            positions: false,
            sqrt_scale: None,
            keeps_hidden: true,
            softcap: self.cfg.final_logit_softcapping,
            advances: false
        };
        design.pass(tokens)
    }
}

} // verus!
