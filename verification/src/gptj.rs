//! GPT-J: attention and the feed-forward part run side by side on one layer-normed
//! input, and only the first columns of a head are rotated.

use crate::block_program::{
    plain_ops, plain_program, Activation, AttentionDesign, BlockDesign, BlockOp, Ffn, FfnInput, Reg,
};
use crate::modality::ModalityHint;
use crate::numeric::{Real, HUNDRED_THOUSANDTH, TEN_THOUSAND};
use crate::stages::{PassDesign, Stage};
use crate::weights::{
    in_layer, linear_shape, optional, plain, required, Fallback, LoadStep, ModelPlan, Weight,
};
use vstd::prelude::*;

verus! {

/// The settings of a GPT-J model.
#[derive(Debug, Clone, Copy)]
pub struct GptJConfig {
    pub vocab_size: usize,
    pub hidden_size: usize,
    pub num_attention_heads: usize,
    pub head_dim: usize,
    pub rotary_dim: usize,
    pub num_hidden_layers: usize,
    pub layer_norm_epsilon: Real,
    pub rope_theta: Real,
    pub max_position_embeddings: usize,
}

impl Default for GptJConfig {
    fn default() -> (cfg: Self)
        ensures
            cfg == (GptJConfig {
                vocab_size: 50400,
                hidden_size: 4096,
                num_attention_heads: 16,
                head_dim: 256,
                rotary_dim: 64,
                num_hidden_layers: 28,
                layer_norm_epsilon: Real { bits: HUNDRED_THOUSANDTH },
                rope_theta: Real { bits: TEN_THOUSAND },
                max_position_embeddings: 2048,
            }),
    {
        GptJConfig {
            vocab_size: 50400,
            hidden_size: 4096,
            num_attention_heads: 16,
            head_dim: 256,
            rotary_dim: 64,
            num_hidden_layers: 28,
            layer_norm_epsilon: Real { bits: HUNDRED_THOUSANDTH },
            rope_theta: Real { bits: TEN_THOUSAND },
            max_position_embeddings: 2048,
        }
    }
}

impl GptJConfig {
    /// The family's name.
    pub fn name(&self) -> (name: &'static str)
        ensures
            name@ == "gptj"@,
    {
        "gptj"
    }

    /// Text in, text out.
    pub fn modality(&self) -> (m: ModalityHint)
        ensures
            m == ModalityHint::TextInTextOut,
    {
        ModalityHint::TextInTextOut
    }

    /// Every width that the weights have fits.
    pub open spec fn fits(&self) -> bool {
        &&& 3 * (self.num_attention_heads * self.head_dim) <= usize::MAX
        &&& 4 * self.hidden_size <= usize::MAX
    }
}

/// The feed-forward part of a block.
#[derive(Debug, Clone, Copy)]
pub struct GptJMlp {
    pub hidden_size: usize,
}

impl GptJMlp {
    /// The weights of the feed-forward part of a layer.
    pub fn load(layer: usize, hidden_size: usize) -> (plan: Vec<LoadStep>)
        requires
            4 * hidden_size <= usize::MAX,
        ensures
            plan@ == seq![
                linear_shape(
                    in_layer("transformer.h", layer, "mlp", "fc_in"),
                    hidden_size,
                    (4 * hidden_size) as usize,
                ),
                linear_shape(
                    in_layer("transformer.h", layer, "mlp", "fc_out"),
                    (4 * hidden_size) as usize,
                    hidden_size,
                ),
            ],
    {
        vec![
            linear_shape(
                in_layer("transformer.h", layer, "mlp", "fc_in"),
                hidden_size,
                4 * hidden_size,
            ),
            linear_shape(
                in_layer("transformer.h", layer, "mlp", "fc_out"),
                4 * hidden_size,
                hidden_size,
            ),
        ]
    }

    /// The operations of the feed-forward part.
    pub fn forward(&self) -> (ops: Vec<BlockOp>)
        requires
            4 * self.hidden_size <= usize::MAX,
        ensures
            ops@ == plain_ops(
                Reg::FfnInput,
                self.hidden_size,
                (4 * self.hidden_size) as usize,
                Activation::GeluRoot,
            ),
    {
        plain_program(self.hidden_size, 4 * self.hidden_size, Activation::GeluRoot)
    }
}

/// The weights of a layer.
pub open spec fn gptj_layer_plan(cfg: &GptJConfig, layer: usize) -> Seq<LoadStep> {
    let q = (cfg.num_attention_heads * cfg.head_dim) as usize;
    let four = (4 * cfg.hidden_size) as usize;
    let hidden = cfg.hidden_size;
    seq![
        linear_shape(in_layer("transformer.h", layer, "attn", "q_proj"), hidden, q),
        linear_shape(in_layer("transformer.h", layer, "attn", "k_proj"), hidden, q),
        linear_shape(in_layer("transformer.h", layer, "attn", "v_proj"), hidden, q),
        linear_shape(in_layer("transformer.h", layer, "attn", "out_proj"), q, hidden),
        required(
            in_layer("transformer.h", layer, "", "ln_1"),
            Weight::LayerNorm { dim: hidden },
        ),
        linear_shape(in_layer("transformer.h", layer, "mlp", "fc_in"), hidden, four),
        linear_shape(in_layer("transformer.h", layer, "mlp", "fc_out"), four, hidden),
    ]
}

/// A block of a model.
#[derive(Debug, Clone, Copy)]
pub struct GptJBlock {
    pub design: BlockDesign,
}

/// The parts of a block.
pub open spec fn gptj_design(cfg: &GptJConfig) -> BlockDesign {
    BlockDesign {
        hidden: cfg.hidden_size,
        inter: (4 * cfg.hidden_size) as usize,
        attention: AttentionDesign {
            heads: cfg.num_attention_heads,
            kv_heads: cfg.num_attention_heads,
            head_dim: cfg.head_dim,
            cached: false,
            window: None,
            softcap: None,
        },
        layer_norm: true,
        fused_qkv: false,
        qk_norm: false,
        rope_theta: Some(Real { bits: TEN_THOUSAND }),
        rotary_dim: cfg.rotary_dim,
        rope_sections: None,
        post_attn_norm: false,
        ffn_input: FfnInput::NormedInput,
        ffn: Ffn::Plain(Activation::GeluRoot),
        post_ffn_norm: false,
        residual_scale: None,
    }
}

impl GptJBlock {
    /// A block of a configuration.
    pub fn new(cfg: &GptJConfig) -> (block: GptJBlock)
        requires
            cfg.fits(),
        ensures
            block.design == gptj_design(cfg),
    {
        GptJBlock {
            design: BlockDesign {
                hidden: cfg.hidden_size,
                inter: 4 * cfg.hidden_size,
                attention: AttentionDesign {
                    heads: cfg.num_attention_heads,
                    kv_heads: cfg.num_attention_heads,
                    head_dim: cfg.head_dim,
                    cached: false,
                    window: None,
                    softcap: None,
                },
                layer_norm: true,
                fused_qkv: false,
                qk_norm: false,
                rope_theta: Some(Real { bits: TEN_THOUSAND }),
                rotary_dim: cfg.rotary_dim,
                rope_sections: None,
                post_attn_norm: false,
                ffn_input: FfnInput::NormedInput,
                ffn: Ffn::Plain(Activation::GeluRoot),
                post_ffn_norm: false,
                residual_scale: None,
            },
        }
    }

    /// The weights of a layer.
    pub fn load(cfg: &GptJConfig, layer: usize) -> (plan: Vec<LoadStep>)
        requires
            cfg.fits(),
        ensures
            plan@ == gptj_layer_plan(cfg, layer),
    {
        let q: usize = cfg.num_attention_heads * cfg.head_dim;
        let four: usize = 4 * cfg.hidden_size;
        let hidden: usize = cfg.hidden_size;
        vec![
            linear_shape(in_layer("transformer.h", layer, "attn", "q_proj"), hidden, q),
            linear_shape(in_layer("transformer.h", layer, "attn", "k_proj"), hidden, q),
            linear_shape(in_layer("transformer.h", layer, "attn", "v_proj"), hidden, q),
            linear_shape(in_layer("transformer.h", layer, "attn", "out_proj"), q, hidden),
            required(
                in_layer("transformer.h", layer, "", "ln_1"),
                Weight::LayerNorm { dim: hidden },
            ),
            linear_shape(in_layer("transformer.h", layer, "mlp", "fc_in"), hidden, four),
            linear_shape(in_layer("transformer.h", layer, "mlp", "fc_out"), four, hidden),
        ]
    }

    /// The operations of a block.
    pub fn forward(&self) -> (ops: Vec<BlockOp>)
        requires
            self.design.fits(),
        ensures
            ops@ == self.design.ops(),
    {
        self.design.program()
    }
}

/// A model.
#[derive(Debug, Clone, Copy)]
pub struct GptJ {
    pub cfg: GptJConfig,
    /// Layers that the model runs.
    pub layers: usize,
}

/// The plan names every weight of a model.
pub open spec fn gptj_planned(cfg: &GptJConfig, plan: &ModelPlan) -> bool {
    &&& plan.tok_embeddings == linear_shape(plain("transformer", "wte"), cfg.vocab_size, cfg.hidden_size)
    &&& plan.layers@.len() == cfg.num_hidden_layers
    &&& forall|i: int|
        0 <= i < cfg.num_hidden_layers ==> (#[trigger] plan.layers@[i])@ == gptj_layer_plan(cfg, i as usize)
    &&& plan.norm == required(
        plain("transformer", "ln_f"),
        Weight::LayerNorm { dim: cfg.hidden_size },
    )
    &&& plan.output == Some(
        optional(
            plain("", "lm_head"),
            Weight::LinearShape { d0: cfg.hidden_size, d1: cfg.vocab_size },
            Fallback::TiedTransposed,
        ),
    )
    &&& plan.positions is None
}

impl GptJ {
    /// The weights that a model asks for, each device holding them all.
    pub fn load_tp(cfg: &GptJConfig) -> (plan: ModelPlan)
        requires
            cfg.fits(),
        ensures
            gptj_planned(cfg, &plan),
    {
        let mut layers: Vec<Vec<LoadStep>> = Vec::new();
        let mut i: usize = 0;
        while i < cfg.num_hidden_layers
            invariant
                i <= cfg.num_hidden_layers,
                cfg.fits(),
                layers@.len() == i,
                forall|j: int|
                    0 <= j < i ==> (#[trigger] layers@[j])@ == gptj_layer_plan(cfg, j as usize),
            decreases cfg.num_hidden_layers - i,
        {
            layers.push(GptJBlock::load(cfg, i));
            i = i + 1;
        }
        ModelPlan {
            tok_embeddings: linear_shape(plain("transformer", "wte"), cfg.vocab_size, cfg.hidden_size),
            positions: None,
            layers,
            norm: required(
                plain("transformer", "ln_f"),
                Weight::LayerNorm { dim: cfg.hidden_size },
            ),
            output: Some(
        optional(
            plain("", "lm_head"),
            Weight::LinearShape { d0: cfg.hidden_size, d1: cfg.vocab_size },
            Fallback::TiedTransposed,
        ),
    ),
        }
    }

    /// A model without layers, for trying the ends of a pass.
    pub fn random(cfg: GptJConfig) -> (model: GptJ)
        ensures
            model.cfg == cfg,
            model.layers == 0,
    {
        GptJ { cfg, layers: 0 }
    }

    /// The stages of a pass over `tokens` tokens.
    pub fn forward(&self, tokens: usize) -> (stages: Vec<Stage>)
        ensures
            stages@ == (PassDesign {
                layers: self.layers,
                positions: false,
                sqrt_scale: None,
                keeps_hidden: true,
                softcap: None,
                advances: false
            }).stages(tokens),
    {
        let design = PassDesign {
            layers: self.layers,
            positions: false,
            sqrt_scale: None,
            keeps_hidden: true,
            softcap: None,
            advances: false
        };
        design.pass(tokens)
    }
}

} // verus!
