//! Intern-S2-Mobius: one projection for queries, keys and values, and a gated
//! feed-forward part.

use crate::block_program::{Activation, AttentionDesign, BlockDesign, BlockOp, Ffn, FfnInput};
use crate::json::{
    number, number_setting, read_number, read_unsigned, real_of, size, size_of, unsigned_setting,
};
use crate::modality::ModalityHint;
use crate::numeric::{Real, HUNDRED_THOUSANDTH, MILLION};
use crate::stages::{PassDesign, Stage};
use crate::weights::{
    either, in_layer, linear_shape, optional, plain, rms_norm, Fallback, LoadStep, ModelPlan,
    Weight,
};
use vstd::prelude::*;

verus! {

/// The settings of an Intern-S2-Mobius model.
#[derive(Debug, Clone, Copy)]
pub struct InternS2MobiusConfig {
    pub vocab_size: usize,
    pub hidden_size: usize,
    pub num_attention_heads: usize,
    pub num_key_value_heads: usize,
    pub head_dim: usize,
    pub num_hidden_layers: usize,
    pub intermediate_size: usize,
    pub rms_norm_eps: Real,
    pub rope_theta: Real,
    pub max_position_embeddings: usize,
}

impl Default for InternS2MobiusConfig {
    fn default() -> (cfg: Self)
        ensures
            cfg == (InternS2MobiusConfig {
                vocab_size: 92544,
                hidden_size: 4096,
                num_attention_heads: 32,
                num_key_value_heads: 8,
                head_dim: 128,
                num_hidden_layers: 32,
                intermediate_size: 14336,
                rms_norm_eps: Real { bits: HUNDRED_THOUSANDTH },
                rope_theta: Real { bits: MILLION },
                max_position_embeddings: 32768,
            }),
    {
        InternS2MobiusConfig {
            vocab_size: 92544,
            hidden_size: 4096,
            num_attention_heads: 32,
            num_key_value_heads: 8,
            head_dim: 128,
            num_hidden_layers: 32,
            intermediate_size: 14336,
            rms_norm_eps: Real { bits: HUNDRED_THOUSANDTH },
            rope_theta: Real { bits: MILLION },
            max_position_embeddings: 32768,
        }
    }
}

/// What a settings file says, as far as this model reads it.
#[derive(Debug, Clone, Copy)]
pub struct InternS2MobiusSettings {
    pub vocab_size: Option<u64>,
    pub hidden_size: Option<u64>,
    pub num_attention_heads: Option<u64>,
    pub num_key_value_heads: Option<u64>,
    pub head_dim: Option<u64>,
    pub num_hidden_layers: Option<u64>,
    pub intermediate_size: Option<u64>,
    pub rms_norm_eps: Option<u64>,
    pub rope_theta: Option<u64>,
    pub max_position_embeddings: Option<u64>,
}

impl InternS2MobiusSettings {
    /// The settings under their keys in a file.
    pub open spec fn of(value: serde_json::Value) -> InternS2MobiusSettings {
        InternS2MobiusSettings {
            vocab_size: unsigned_setting(value, "vocab_size"@),
            hidden_size: unsigned_setting(value, "hidden_size"@),
            num_attention_heads: unsigned_setting(value, "num_attention_heads"@),
            num_key_value_heads: unsigned_setting(value, "num_key_value_heads"@),
            head_dim: unsigned_setting(value, "head_dim"@),
            num_hidden_layers: unsigned_setting(value, "num_hidden_layers"@),
            intermediate_size: unsigned_setting(value, "intermediate_size"@),
            rms_norm_eps: number_setting(value, "rms_norm_eps"@),
            rope_theta: number_setting(value, "rope_theta"@),
            max_position_embeddings: unsigned_setting(value, "max_position_embeddings"@),
        }
    }

    /// The configuration that the settings give: what is absent is zero.
    pub open spec fn spec_config(self) -> InternS2MobiusConfig {
        InternS2MobiusConfig {
            vocab_size: size_of(self.vocab_size),
            hidden_size: size_of(self.hidden_size),
            num_attention_heads: size_of(self.num_attention_heads),
            num_key_value_heads: size_of(self.num_key_value_heads),
            head_dim: size_of(self.head_dim),
            num_hidden_layers: size_of(self.num_hidden_layers),
            intermediate_size: size_of(self.intermediate_size),
            rms_norm_eps: real_of(self.rms_norm_eps),
            rope_theta: real_of(self.rope_theta),
            max_position_embeddings: size_of(self.max_position_embeddings),
        }
    }

    /// The configuration that the settings give.
    pub fn config(&self) -> (cfg: InternS2MobiusConfig)
        ensures
            cfg == self.spec_config(),
    {
        InternS2MobiusConfig {
            vocab_size: size(self.vocab_size),
            hidden_size: size(self.hidden_size),
            num_attention_heads: size(self.num_attention_heads),
            num_key_value_heads: size(self.num_key_value_heads),
            head_dim: size(self.head_dim),
            num_hidden_layers: size(self.num_hidden_layers),
            intermediate_size: size(self.intermediate_size),
            rms_norm_eps: number(self.rms_norm_eps),
            rope_theta: number(self.rope_theta),
            max_position_embeddings: size(self.max_position_embeddings),
        }
    }
}

impl InternS2MobiusConfig {
    /// The family's name.
    pub fn name(&self) -> (name: &'static str)
        ensures
            name@ == "interns2_mobius"@,
    {
        "interns2_mobius"
    }

    /// Text in, text out.
    pub fn modality(&self) -> (m: ModalityHint)
        ensures
            m == ModalityHint::TextInTextOut,
    {
        ModalityHint::TextInTextOut
    }

    /// Reads the configuration out of a settings file.
    pub fn from_hf(value: &serde_json::Value) -> (cfg: InternS2MobiusConfig)
        ensures
            cfg == InternS2MobiusSettings::of(*value).spec_config(),
    {
        let settings = InternS2MobiusSettings {
            vocab_size: read_unsigned(value, "vocab_size"),
            hidden_size: read_unsigned(value, "hidden_size"),
            num_attention_heads: read_unsigned(value, "num_attention_heads"),
            num_key_value_heads: read_unsigned(value, "num_key_value_heads"),
            head_dim: read_unsigned(value, "head_dim"),
            num_hidden_layers: read_unsigned(value, "num_hidden_layers"),
            intermediate_size: read_unsigned(value, "intermediate_size"),
            rms_norm_eps: read_number(value, "rms_norm_eps"),
            rope_theta: read_number(value, "rope_theta"),
            max_position_embeddings: read_unsigned(value, "max_position_embeddings"),
        };
        settings.config()
    }

    /// Every width that the weights have fits.
    pub open spec fn fits(&self) -> bool {
        &&& self.num_attention_heads * self.head_dim + 2 * (self.num_key_value_heads * self.head_dim) <= usize::MAX
    }
}

/// The weights of a layer.
pub open spec fn interns2_mobius_layer_plan(cfg: &InternS2MobiusConfig, layer: usize) -> Seq<LoadStep> {
    let q = (cfg.num_attention_heads * cfg.head_dim) as usize;
    let kv = (cfg.num_key_value_heads * cfg.head_dim) as usize;
    let qkv = (cfg.num_attention_heads * cfg.head_dim + 2 * (cfg.num_key_value_heads * cfg.head_dim)) as usize;
    let hidden = cfg.hidden_size;
    let inter = cfg.intermediate_size;
    seq![
        either(
            in_layer("model.layers", layer, "attention", "wqkv"),
            Weight::LinearShape { d0: hidden, d1: qkv },
            in_layer("model.layers", layer, "attention", "wqkv_proj"),
            Weight::LinearShape { d0: hidden, d1: qkv },
        ),
        linear_shape(in_layer("model.layers", layer, "attention", "wo"), q, hidden),
        rms_norm(in_layer("model.layers", layer, "", "attention_norm"), hidden),
        rms_norm(in_layer("model.layers", layer, "", "ffn_norm"), hidden),
        linear_shape(in_layer("model.layers", layer, "feed_forward", "w1"), hidden, inter),
        linear_shape(in_layer("model.layers", layer, "feed_forward", "w3"), hidden, inter),
        linear_shape(in_layer("model.layers", layer, "feed_forward", "w2"), inter, hidden),
    ]
}

/// A block of a model.
#[derive(Debug, Clone, Copy)]
pub struct InternS2MobiusBlock {
    pub design: BlockDesign,
}

/// The parts of a block.
pub open spec fn interns2_mobius_design(cfg: &InternS2MobiusConfig) -> BlockDesign {
    BlockDesign {
        hidden: cfg.hidden_size,
        inter: cfg.intermediate_size,
        attention: AttentionDesign {
            heads: cfg.num_attention_heads,
            kv_heads: cfg.num_key_value_heads,
            head_dim: cfg.head_dim,
            cached: true,
            window: None,
            softcap: None,
        },
        layer_norm: false,
        fused_qkv: true,
        qk_norm: false,
        rope_theta: Some(cfg.rope_theta),
        rotary_dim: cfg.head_dim,
        rope_sections: None,
        post_attn_norm: false,
        ffn_input: FfnInput::NormedResidual,
        ffn: Ffn::Gated(Activation::Silu),
        post_ffn_norm: false,
        residual_scale: None,
    }
}

impl InternS2MobiusBlock {
    /// A block of a configuration.
    pub fn new(cfg: &InternS2MobiusConfig) -> (block: InternS2MobiusBlock)
        requires
            cfg.fits(),
        ensures
            block.design == interns2_mobius_design(cfg),
    {
        InternS2MobiusBlock {
            design: BlockDesign {
                hidden: cfg.hidden_size,
                inter: cfg.intermediate_size,
                attention: AttentionDesign {
                    heads: cfg.num_attention_heads,
                    kv_heads: cfg.num_key_value_heads,
                    head_dim: cfg.head_dim,
                    cached: true,
                    window: None,
                    softcap: None,
                },
                layer_norm: false,
                fused_qkv: true,
                qk_norm: false,
                rope_theta: Some(cfg.rope_theta),
                rotary_dim: cfg.head_dim,
                rope_sections: None,
                post_attn_norm: false,
                ffn_input: FfnInput::NormedResidual,
                ffn: Ffn::Gated(Activation::Silu),
                post_ffn_norm: false,
                residual_scale: None,
            },
        }
    }

    /// The weights of a layer.
    pub fn load(cfg: &InternS2MobiusConfig, layer: usize) -> (plan: Vec<LoadStep>)
        requires
            cfg.fits(),
        ensures
            plan@ == interns2_mobius_layer_plan(cfg, layer),
    {
        let q: usize = cfg.num_attention_heads * cfg.head_dim;
        let kv: usize = cfg.num_key_value_heads * cfg.head_dim;
        let qkv: usize = cfg.num_attention_heads * cfg.head_dim + 2 * (cfg.num_key_value_heads * cfg.head_dim);
        let hidden: usize = cfg.hidden_size;
        let inter: usize = cfg.intermediate_size;
        vec![
            either(
                in_layer("model.layers", layer, "attention", "wqkv"),
                Weight::LinearShape { d0: hidden, d1: qkv },
                in_layer("model.layers", layer, "attention", "wqkv_proj"),
                Weight::LinearShape { d0: hidden, d1: qkv },
            ),
            linear_shape(in_layer("model.layers", layer, "attention", "wo"), q, hidden),
            rms_norm(in_layer("model.layers", layer, "", "attention_norm"), hidden),
            rms_norm(in_layer("model.layers", layer, "", "ffn_norm"), hidden),
            linear_shape(in_layer("model.layers", layer, "feed_forward", "w1"), hidden, inter),
            linear_shape(in_layer("model.layers", layer, "feed_forward", "w3"), hidden, inter),
            linear_shape(in_layer("model.layers", layer, "feed_forward", "w2"), inter, hidden),
        ]
    }

    /// The operations of a block.
    pub fn forward(&self) -> (ops: Vec<BlockOp>)
        requires
            self.design.fits(),
        ensures
            ops@ == self.design.ops(),
    {
        self.design.program()
    }
}

/// A model.
#[derive(Debug, Clone, Copy)]
pub struct InternS2Mobius {
    pub cfg: InternS2MobiusConfig,
}

/// The plan names every weight of a model.
pub open spec fn interns2_mobius_planned(cfg: &InternS2MobiusConfig, plan: &ModelPlan) -> bool {
    &&& plan.tok_embeddings == linear_shape(plain("model", "tok_embeddings"), cfg.vocab_size, cfg.hidden_size)
    &&& plan.layers@.len() == cfg.num_hidden_layers
    &&& forall|i: int|
        0 <= i < cfg.num_hidden_layers ==> (#[trigger] plan.layers@[i])@ == interns2_mobius_layer_plan(cfg, i as usize)
    &&& plan.norm == rms_norm(plain("model", "norm"), cfg.hidden_size)
    &&& plan.output == Some(
        optional(
            plain("", "output"),
            Weight::LinearShape { d0: cfg.hidden_size, d1: cfg.vocab_size },
            Fallback::TiedEmbedding,
        ),
    )
    &&& plan.positions is None
}

impl InternS2Mobius {
    /// The weights that a model asks for.
    pub fn load(cfg: &InternS2MobiusConfig) -> (plan: ModelPlan)
        requires
            cfg.fits(),
        ensures
            interns2_mobius_planned(cfg, &plan),
    {
        Self::load_tp(cfg)
    }

    /// The weights that a model asks for, each device holding them all.
    pub fn load_tp(cfg: &InternS2MobiusConfig) -> (plan: ModelPlan)
        requires
            cfg.fits(),
        ensures
            interns2_mobius_planned(cfg, &plan),
    {
        let mut layers: Vec<Vec<LoadStep>> = Vec::new();
        let mut i: usize = 0;
        while i < cfg.num_hidden_layers
            invariant
                i <= cfg.num_hidden_layers,
                cfg.fits(),
                layers@.len() == i,
                forall|j: int|
                    0 <= j < i ==> (#[trigger] layers@[j])@ == interns2_mobius_layer_plan(cfg, j as usize),
            decreases cfg.num_hidden_layers - i,
        {
            layers.push(InternS2MobiusBlock::load(cfg, i));
            i = i + 1;
        }
        ModelPlan {
            tok_embeddings: linear_shape(plain("model", "tok_embeddings"), cfg.vocab_size, cfg.hidden_size),
            positions: None,
            layers,
            norm: rms_norm(plain("model", "norm"), cfg.hidden_size),
            output: Some(
        optional(
            plain("", "output"),
            Weight::LinearShape { d0: cfg.hidden_size, d1: cfg.vocab_size },
            Fallback::TiedEmbedding,
        ),
    ),
        }
    }

    /// The stages of a pass over `tokens` tokens. Every layer starts
    /// from an empty history.
    pub fn forward(&self, tokens: usize) -> (stages: Vec<Stage>)
        ensures
            stages@ == (PassDesign {
                layers: self.cfg.num_hidden_layers,
                positions: false,
                sqrt_scale: None,
                keeps_hidden: false,
                softcap: None,
                advances: true
            }).stages(tokens),
    {
        let design = PassDesign {
            layers: self.cfg.num_hidden_layers,
            positions: false,
            sqrt_scale: None,
            keeps_hidden: false,
            softcap: None,
            advances: true
        };
        design.pass(tokens)
    }
}

} // verus!
