//! Gemma 3n: norms before attention and behind both sublayers, a gated
//! feed-forward part, and scaled embeddings.

use crate::block_program::{Activation, AttentionDesign, BlockDesign, BlockOp, Ffn, FfnInput};
use crate::modality::ModalityHint;
use crate::numeric::{Real, MILLIONTH, TEN_THOUSAND, TWO_HUNDRED_FIFTY_SIX};
use crate::stages::{PassDesign, Stage};
use crate::weights::{
    either, in_layer, linear_shape, optional, plain, rms_norm, Fallback, LoadStep, ModelPlan,
    Weight,
};
use vstd::prelude::*;

verus! {

/// The settings of a Gemma 3n model.
#[derive(Debug, Clone, Copy)]
pub struct Gemma3nConfig {
    pub vocab_size: usize,
    pub hidden_size: usize,
    pub num_heads: usize,
    pub num_kv_heads: usize,
    pub head_dim: usize,
    pub num_layers: usize,
    pub intermediate_size: usize,
    pub rms_norm_eps: Real,
    pub rope_theta: Real,
    pub max_seq_len: usize,
    pub sliding_window_size: usize,
    pub query_pre_attn_scalar: Real,
}

impl Default for Gemma3nConfig {
    fn default() -> (cfg: Self)
        ensures
            cfg == (Gemma3nConfig {
                vocab_size: 256000,
                hidden_size: 2048,
                num_heads: 8,
                num_kv_heads: 4,
                head_dim: 256,
                num_layers: 18,
                intermediate_size: 16384,
                rms_norm_eps: Real { bits: MILLIONTH },
                rope_theta: Real { bits: TEN_THOUSAND },
                max_seq_len: 8192,
                sliding_window_size: 1024,
                query_pre_attn_scalar: Real { bits: TWO_HUNDRED_FIFTY_SIX },
            }),
    {
        Gemma3nConfig {
            vocab_size: 256000,
            hidden_size: 2048,
            num_heads: 8,
            num_kv_heads: 4,
            head_dim: 256,
            num_layers: 18,
            intermediate_size: 16384,
            rms_norm_eps: Real { bits: MILLIONTH },
            rope_theta: Real { bits: TEN_THOUSAND },
            max_seq_len: 8192,
            sliding_window_size: 1024,
            query_pre_attn_scalar: Real { bits: TWO_HUNDRED_FIFTY_SIX },
        }
    }
}

impl Gemma3nConfig {
    /// The family's name.
    pub fn name(&self) -> (name: &'static str)
        ensures
            name@ == "gemma3n"@,
    {
        "gemma3n"
    }

    /// Text in, text out.
    pub fn modality(&self) -> (m: ModalityHint)
        ensures
            m == ModalityHint::TextInTextOut,
    {
        ModalityHint::TextInTextOut
    }

    /// Every width that the weights have fits.
    pub open spec fn fits(&self) -> bool {
        &&& self.num_heads * self.head_dim + 2 * (self.num_kv_heads * self.head_dim) <= usize::MAX
    }
}

/// The weights of a layer.
pub open spec fn gemma3n_layer_plan(cfg: &Gemma3nConfig, layer: usize) -> Seq<LoadStep> {
    let q = (cfg.num_heads * cfg.head_dim) as usize;
    let kv = (cfg.num_kv_heads * cfg.head_dim) as usize;
    let hidden = cfg.hidden_size;
    let inter = cfg.intermediate_size;
    seq![
        linear_shape(in_layer("model.layers", layer, "self_attn", "q_proj"), hidden, q),
        linear_shape(in_layer("model.layers", layer, "self_attn", "k_proj"), hidden, kv),
        linear_shape(in_layer("model.layers", layer, "self_attn", "v_proj"), hidden, kv),
        linear_shape(in_layer("model.layers", layer, "self_attn", "o_proj"), q, hidden),
        rms_norm(in_layer("model.layers", layer, "", "input_layernorm"), hidden),
        rms_norm(in_layer("model.layers", layer, "", "post_attention_layernorm"), hidden),
        either(
            in_layer("model.layers", layer, "", "post_feedforward_layernorm"),
            Weight::RmsNorm { dim: hidden },
            in_layer("model.layers", layer, "", "post_attention_layernorm"),
            Weight::RmsNorm { dim: hidden },
        ),
        linear_shape(in_layer("model.layers", layer, "mlp", "gate_proj"), hidden, inter),
        linear_shape(in_layer("model.layers", layer, "mlp", "up_proj"), hidden, inter),
        linear_shape(in_layer("model.layers", layer, "mlp", "down_proj"), inter, hidden),
    ]
}

/// A block of a model.
#[derive(Debug, Clone, Copy)]
pub struct Gemma3nBlock {
    pub design: BlockDesign,
}

/// The parts of a block.
pub open spec fn gemma3n_design(cfg: &Gemma3nConfig) -> BlockDesign {
    BlockDesign {
        hidden: cfg.hidden_size,
        inter: cfg.intermediate_size,
        attention: AttentionDesign {
            heads: cfg.num_heads,
            kv_heads: cfg.num_kv_heads,
            head_dim: cfg.head_dim,
            cached: true,
            window: if cfg.sliding_window_size > 0 {
                Some(cfg.sliding_window_size)
            } else {
                None
            },
            softcap: None,
        },
        layer_norm: false,
        fused_qkv: false,
        qk_norm: false,
        rope_theta: Some(cfg.rope_theta),
        rotary_dim: cfg.head_dim,
        rope_sections: None,
        post_attn_norm: true,
        ffn_input: FfnInput::Residual,
        ffn: Ffn::Gated(Activation::GeluSeries),
        post_ffn_norm: true,
        residual_scale: None,
    }
}

impl Gemma3nBlock {
    /// A block of a configuration.
    pub fn new(cfg: &Gemma3nConfig) -> (block: Gemma3nBlock)
        requires
            cfg.fits(),
        ensures
            block.design == gemma3n_design(cfg),
    {
        Gemma3nBlock {
            design: BlockDesign {
                hidden: cfg.hidden_size,
                inter: cfg.intermediate_size,
                attention: AttentionDesign {
                    heads: cfg.num_heads,
                    kv_heads: cfg.num_kv_heads,
                    head_dim: cfg.head_dim,
                    cached: true,
                    window: if cfg.sliding_window_size > 0 {
                        Some(cfg.sliding_window_size)
                    } else {
                        None
                    },
                    softcap: None,
                },
                layer_norm: false,
                fused_qkv: false,
                qk_norm: false,
                rope_theta: Some(cfg.rope_theta),
                rotary_dim: cfg.head_dim,
                rope_sections: None,
                post_attn_norm: true,
                ffn_input: FfnInput::Residual,
                ffn: Ffn::Gated(Activation::GeluSeries),
                post_ffn_norm: true,
                residual_scale: None,
            },
        }
    }

    /// The weights of a layer.
    pub fn load(cfg: &Gemma3nConfig, layer: usize) -> (plan: Vec<LoadStep>)
        requires
            cfg.fits(),
        ensures
            plan@ == gemma3n_layer_plan(cfg, layer),
    {
        let q: usize = cfg.num_heads * cfg.head_dim;
        let kv: usize = cfg.num_kv_heads * cfg.head_dim;
        let hidden: usize = cfg.hidden_size;
        let inter: usize = cfg.intermediate_size;
        vec![
            linear_shape(in_layer("model.layers", layer, "self_attn", "q_proj"), hidden, q),
            linear_shape(in_layer("model.layers", layer, "self_attn", "k_proj"), hidden, kv),
            linear_shape(in_layer("model.layers", layer, "self_attn", "v_proj"), hidden, kv),
            linear_shape(in_layer("model.layers", layer, "self_attn", "o_proj"), q, hidden),
            rms_norm(in_layer("model.layers", layer, "", "input_layernorm"), hidden),
            rms_norm(in_layer("model.layers", layer, "", "post_attention_layernorm"), hidden),
            either(
                in_layer("model.layers", layer, "", "post_feedforward_layernorm"),
                Weight::RmsNorm { dim: hidden },
                in_layer("model.layers", layer, "", "post_attention_layernorm"),
                Weight::RmsNorm { dim: hidden },
            ),
            linear_shape(in_layer("model.layers", layer, "mlp", "gate_proj"), hidden, inter),
            linear_shape(in_layer("model.layers", layer, "mlp", "up_proj"), hidden, inter),
            linear_shape(in_layer("model.layers", layer, "mlp", "down_proj"), inter, hidden),
        ]
    }

    /// The operations of a block.
    pub fn forward(&self) -> (ops: Vec<BlockOp>)
        requires
            self.design.fits(),
        ensures
            ops@ == self.design.ops(),
    {
        self.design.program()
    }
}

/// A model.
#[derive(Debug, Clone, Copy)]
pub struct Gemma3n {
    pub cfg: Gemma3nConfig,
}

/// The plan names every weight of a model.
pub open spec fn gemma3n_planned(cfg: &Gemma3nConfig, plan: &ModelPlan) -> bool {
    &&& plan.tok_embeddings == linear_shape(plain("model", "embed_tokens"), cfg.vocab_size, cfg.hidden_size)
    &&& plan.layers@.len() == cfg.num_layers
    &&& forall|i: int|
        0 <= i < cfg.num_layers ==> (#[trigger] plan.layers@[i])@ == gemma3n_layer_plan(cfg, i as usize)
    &&& plan.norm == rms_norm(plain("model", "norm"), cfg.hidden_size)
    &&& plan.output == Some(
        optional(
            plain("", "lm_head"),
            Weight::LinearShape { d0: cfg.hidden_size, d1: cfg.vocab_size },
            Fallback::TiedEmbedding,
        ),
    )
    &&& plan.positions is None
}

impl Gemma3n {
    /// The weights that a model asks for.
    pub fn load(cfg: &Gemma3nConfig) -> (plan: ModelPlan)
        requires
            cfg.fits(),
        ensures
            gemma3n_planned(cfg, &plan),
    {
        Self::load_tp(cfg)
    }

    /// The weights that a model asks for, each device holding them all.
    pub fn load_tp(cfg: &Gemma3nConfig) -> (plan: ModelPlan)
        requires
            cfg.fits(),
        ensures
            gemma3n_planned(cfg, &plan),
    {
        let mut layers: Vec<Vec<LoadStep>> = Vec::new();
        let mut i: usize = 0;
        while i < cfg.num_layers
            invariant
                i <= cfg.num_layers,
                cfg.fits(),
                layers@.len() == i,
                forall|j: int|
                    0 <= j < i ==> (#[trigger] layers@[j])@ == gemma3n_layer_plan(cfg, j as usize),
            decreases cfg.num_layers - i,
        {
            layers.push(Gemma3nBlock::load(cfg, i));
            i = i + 1;
        }
        ModelPlan {
            tok_embeddings: linear_shape(plain("model", "embed_tokens"), cfg.vocab_size, cfg.hidden_size),
            positions: None,
            layers,
            norm: rms_norm(plain("model", "norm"), cfg.hidden_size),
            output: Some(
        optional(
            plain("", "lm_head"),
            Weight::LinearShape { d0: cfg.hidden_size, d1: cfg.vocab_size },
            Fallback::TiedEmbedding,
        ),
    ),
        }
    }

    /// The stages of a pass over `tokens` tokens. Every layer starts
    /// from an empty history.
    pub fn forward(&self, tokens: usize) -> (stages: Vec<Stage>)
        ensures
            stages@ == (PassDesign {
                layers: self.cfg.num_layers,
                positions: false,
                sqrt_scale: Some(self.cfg.hidden_size),
                keeps_hidden: false,
                softcap: None,
                advances: true
            }).stages(tokens),
    {
        let design = PassDesign {
            layers: self.cfg.num_layers,
            positions: false,
            sqrt_scale: Some(self.cfg.hidden_size),
            keeps_hidden: false,
            softcap: None,
            advances: true
        };
        design.pass(tokens)
    }
}

} // verus!
