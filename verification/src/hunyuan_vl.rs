//! Hunyuan-VL: a small encoder for image patches in front of a decoder with a
//! gated feed-forward part.

use crate::block_program::{
    Activation, AttentionDesign, BlockDesign, BlockOp, Ffn, FfnInput, RopeSections,
};
use crate::modality::ModalityHint;
use crate::numeric::{Real, HUNDRED_THOUSANDTH, TEN_THOUSAND};
use crate::stages::{PassDesign, Stage};
use crate::weights::{
    in_layer, linear_shape, optional, plain, rms_norm, Fallback, LoadStep, ModelPlan, Weight,
};
use vstd::prelude::*;

verus! {

/// The settings of the encoder for image patches.
#[derive(Debug, Clone, Copy)]
pub struct HunyuanVlVisionConfig {
    pub hidden_size: usize,
    pub num_attention_heads: usize,
    pub num_key_value_heads: usize,
    pub num_hidden_layers: usize,
    pub patch_size: usize,
    pub num_channels: usize,
    pub intermediate_size: usize,
    pub out_hidden_size: usize,
}

/// The usual settings of the encoder.
pub open spec fn vision_default() -> HunyuanVlVisionConfig {
    HunyuanVlVisionConfig {
        hidden_size: 64,
        num_attention_heads: 4,
        num_key_value_heads: 4,
        num_hidden_layers: 2,
        patch_size: 16,
        num_channels: 3,
        intermediate_size: 128,
        out_hidden_size: 64,
    }
}

impl Default for HunyuanVlVisionConfig {
    fn default() -> (cfg: Self)
        ensures
            cfg == vision_default(),
    {
        HunyuanVlVisionConfig {
            hidden_size: 64,
            num_attention_heads: 4,
            num_key_value_heads: 4,
            num_hidden_layers: 2,
            patch_size: 16,
            num_channels: 3,
            intermediate_size: 128,
            out_hidden_size: 64,
        }
    }
}

/// The settings of a Hunyuan-VL model.
#[derive(Debug, Clone, Copy)]
pub struct HunyuanVlConfig {
    pub vocab_size: usize,
    pub hidden_size: usize,
    pub num_heads: usize,
    pub num_kv_heads: usize,
    pub head_dim: usize,
    pub num_layers: usize,
    pub intermediate_size: usize,
    pub rms_norm_eps: Real,
    pub rope_theta: Real,
    pub max_seq_len: usize,
    pub mrope_section: [usize; 4],
    pub image_token_id: usize,
    pub im_start_id: usize,
    pub im_end_id: usize,
    pub im_newline_id: usize,
    pub vision_config: HunyuanVlVisionConfig,
}

impl Default for HunyuanVlConfig {
    fn default() -> (cfg: Self)
        ensures
            cfg == (HunyuanVlConfig {
                vocab_size: 120818,
                hidden_size: 64,
                num_heads: 4,
                num_kv_heads: 4,
                head_dim: 16,
                num_layers: 2,
                intermediate_size: 128,
                rms_norm_eps: Real { bits: HUNDRED_THOUSANDTH },
                rope_theta: Real { bits: TEN_THOUSAND },
                max_seq_len: 4096,
                mrope_section: [2, 2, 2, 2],
                image_token_id: 5,
                im_start_id: 120118,
                im_end_id: 120119,
                im_newline_id: 120121,
                vision_config: vision_default(),
            }),
    {
        HunyuanVlConfig {
            vocab_size: 120818,
            hidden_size: 64,
            num_heads: 4,
            num_kv_heads: 4,
            head_dim: 16,
            num_layers: 2,
            intermediate_size: 128,
            rms_norm_eps: Real { bits: HUNDRED_THOUSANDTH },
            rope_theta: Real { bits: TEN_THOUSAND },
            max_seq_len: 4096,
            mrope_section: [2, 2, 2, 2],
            image_token_id: 5,
            im_start_id: 120118,
            im_end_id: 120119,
            im_newline_id: 120121,
            vision_config: HunyuanVlVisionConfig::default(),
        }
    }
}

impl HunyuanVlConfig {
    /// The family's name.
    pub fn name(&self) -> (name: &'static str)
        ensures
            name@ == "hunyuan_vl"@,
    {
        "hunyuan_vl"
    }

    /// Several kinds of input, text out.
    pub fn modality(&self) -> (m: ModalityHint)
        ensures
            m == ModalityHint::MultimodalInTextOut,
    {
        ModalityHint::MultimodalInTextOut
    }

    /// How the rotated frequencies are shared out over a token's positions in
    /// time and space.
    pub open spec fn sections(&self) -> RopeSections {
        RopeSections {
            first: self.mrope_section[0],
            second: self.mrope_section[1],
            third: self.mrope_section[2],
            fourth: self.mrope_section[3],
        }
    }

    /// Every width that the weights have fits.
    pub open spec fn fits(&self) -> bool {
        &&& self.num_heads * self.head_dim + 2 * (self.num_kv_heads * self.head_dim) <= usize::MAX
        &&& self.vision_config.num_channels * self.vision_config.patch_size <= usize::MAX
        &&& self.vision_config.num_channels * self.vision_config.patch_size * self.vision_config.patch_size <= usize::MAX
    }
}

/// A step of the encoder.
#[derive(Debug, Clone, Copy, PartialEq, Eq, Structural)]
pub enum VisionStep {
    /// Project patches to the encoder's width.
    PatchEmbed,
    /// Normalise.
    Norm,
    /// Project to the decoder's width.
    Project,
}

/// The encoder for image patches.
#[derive(Debug, Clone, Copy)]
pub struct HunyuanVlVisionEncoder {
    pub hidden_size: usize,
    pub out_hidden_size: usize,
}

/// The name in front of the encoder's weights.
pub open spec fn vision_root(at_top: bool) -> &'static str {
    if at_top {
        "visual"
    } else {
        "model.visual"
    }
}

/// The encoder's weights.
pub open spec fn vision_plan(cfg: &HunyuanVlVisionConfig, at_top: bool) -> Seq<LoadStep> {
    let root = vision_root(at_top);
    seq![
        linear_shape(
            plain(root, "patch_embed"),
            (cfg.num_channels * cfg.patch_size * cfg.patch_size) as usize,
            cfg.hidden_size,
        ),
        rms_norm(plain(root, "norm"), cfg.hidden_size),
        linear_shape(plain(root, "proj"), cfg.hidden_size, cfg.out_hidden_size),
    ]
}

impl HunyuanVlVisionEncoder {
    /// The encoder's weights: below `visual` where the file has its patch
    /// projection there, and below the model's root otherwise.
    pub fn load(cfg: &HunyuanVlVisionConfig, at_top: bool) -> (plan: Vec<LoadStep>)
        requires
            cfg.num_channels * cfg.patch_size <= usize::MAX,
            cfg.num_channels * cfg.patch_size * cfg.patch_size <= usize::MAX,
        ensures
            plan@ == vision_plan(cfg, at_top),
    {
        let root = if at_top {
            "visual"
        } else {
            "model.visual"
        };
        vec![
            linear_shape(
                plain(root, "patch_embed"),
                cfg.num_channels * cfg.patch_size * cfg.patch_size,
                cfg.hidden_size,
            ),
            rms_norm(plain(root, "norm"), cfg.hidden_size),
            linear_shape(plain(root, "proj"), cfg.hidden_size, cfg.out_hidden_size),
        ]
    }

    /// The steps from patches to rows of the decoder.
    pub fn forward(&self) -> (steps: Vec<VisionStep>)
        ensures
            steps@ == seq![VisionStep::PatchEmbed, VisionStep::Norm, VisionStep::Project],
    {
        vec![VisionStep::PatchEmbed, VisionStep::Norm, VisionStep::Project]
    }
}

/// The weights of a layer.
pub open spec fn hunyuan_vl_layer_plan(cfg: &HunyuanVlConfig, layer: usize) -> Seq<LoadStep> {
    let q = (cfg.num_heads * cfg.head_dim) as usize;
    let kv = (cfg.num_kv_heads * cfg.head_dim) as usize;
    let hidden = cfg.hidden_size;
    let inter = cfg.intermediate_size;
    seq![
        linear_shape(in_layer("model.layers", layer, "self_attn", "q_proj"), hidden, q),
        linear_shape(in_layer("model.layers", layer, "self_attn", "k_proj"), hidden, kv),
        linear_shape(in_layer("model.layers", layer, "self_attn", "v_proj"), hidden, kv),
        linear_shape(in_layer("model.layers", layer, "self_attn", "o_proj"), q, hidden),
        rms_norm(in_layer("model.layers", layer, "", "input_layernorm"), hidden),
        rms_norm(in_layer("model.layers", layer, "", "post_attention_layernorm"), hidden),
        linear_shape(in_layer("model.layers", layer, "mlp", "gate_proj"), hidden, inter),
        linear_shape(in_layer("model.layers", layer, "mlp", "up_proj"), hidden, inter),
        linear_shape(in_layer("model.layers", layer, "mlp", "down_proj"), inter, hidden),
    ]
}

/// A block of a model.
#[derive(Debug, Clone, Copy)]
pub struct HunyuanVlBlock {
    pub design: BlockDesign,
}

/// The parts of a block.
pub open spec fn hunyuan_vl_design(cfg: &HunyuanVlConfig) -> BlockDesign {
    BlockDesign {
        hidden: cfg.hidden_size,
        inter: cfg.intermediate_size,
        attention: AttentionDesign {
            heads: cfg.num_heads,
            kv_heads: cfg.num_kv_heads,
            head_dim: cfg.head_dim,
            cached: true,
            window: None,
            softcap: None,
        },
        layer_norm: false,
        fused_qkv: false,
        qk_norm: false,
        rope_theta: Some(cfg.rope_theta),
        rotary_dim: cfg.head_dim,
        rope_sections: Some(cfg.sections()),
        post_attn_norm: false,
        ffn_input: FfnInput::NormedResidual,
        ffn: Ffn::Gated(Activation::Silu),
        post_ffn_norm: false,
        residual_scale: None,
    }
}

impl HunyuanVlBlock {
    /// A block of a configuration.
    pub fn new(cfg: &HunyuanVlConfig) -> (block: HunyuanVlBlock)
        requires
            cfg.fits(),
        ensures
            block.design == hunyuan_vl_design(cfg),
    {
        HunyuanVlBlock {
            design: BlockDesign {
                hidden: cfg.hidden_size,
                inter: cfg.intermediate_size,
                attention: AttentionDesign {
                    heads: cfg.num_heads,
                    kv_heads: cfg.num_kv_heads,
                    head_dim: cfg.head_dim,
                    cached: true,
                    window: None,
                    softcap: None,
                },
                layer_norm: false,
                fused_qkv: false,
                qk_norm: false,
                rope_theta: Some(cfg.rope_theta),
                rotary_dim: cfg.head_dim,
                rope_sections: Some(
                    RopeSections {
                        first: cfg.mrope_section[0],
                        second: cfg.mrope_section[1],
                        third: cfg.mrope_section[2],
                        fourth: cfg.mrope_section[3],
                    },
                ),
                post_attn_norm: false,
                ffn_input: FfnInput::NormedResidual,
                ffn: Ffn::Gated(Activation::Silu),
                post_ffn_norm: false,
                residual_scale: None,
            },
        }
    }

    /// The weights of a layer.
    pub fn load(cfg: &HunyuanVlConfig, layer: usize) -> (plan: Vec<LoadStep>)
        requires
            cfg.fits(),
        ensures
            plan@ == hunyuan_vl_layer_plan(cfg, layer),
    {
        let q: usize = cfg.num_heads * cfg.head_dim;
        let kv: usize = cfg.num_kv_heads * cfg.head_dim;
        let hidden: usize = cfg.hidden_size;
        let inter: usize = cfg.intermediate_size;
        vec![
            linear_shape(in_layer("model.layers", layer, "self_attn", "q_proj"), hidden, q),
            linear_shape(in_layer("model.layers", layer, "self_attn", "k_proj"), hidden, kv),
            linear_shape(in_layer("model.layers", layer, "self_attn", "v_proj"), hidden, kv),
            linear_shape(in_layer("model.layers", layer, "self_attn", "o_proj"), q, hidden),
            rms_norm(in_layer("model.layers", layer, "", "input_layernorm"), hidden),
            rms_norm(in_layer("model.layers", layer, "", "post_attention_layernorm"), hidden),
            linear_shape(in_layer("model.layers", layer, "mlp", "gate_proj"), hidden, inter),
            linear_shape(in_layer("model.layers", layer, "mlp", "up_proj"), hidden, inter),
            linear_shape(in_layer("model.layers", layer, "mlp", "down_proj"), inter, hidden),
        ]
    }

    /// The operations of a block.
    pub fn forward(&self) -> (ops: Vec<BlockOp>)
        requires
            self.design.fits(),
        ensures
            ops@ == self.design.ops(),
    {
        self.design.program()
    }
}

/// The weights of a model. The encoder is left out where one of its weights is
/// not there.
pub struct HunyuanVlPlan {
    pub vision: Vec<LoadStep>,
    pub decoder: ModelPlan,
}

/// A model.
#[derive(Debug, Clone, Copy)]
pub struct HunyuanVl {
    pub cfg: HunyuanVlConfig,
}

/// The plan names every weight of a model.
pub open spec fn hunyuan_vl_planned(cfg: &HunyuanVlConfig, plan: &ModelPlan) -> bool {
    &&& plan.tok_embeddings == linear_shape(plain("model", "embed_tokens"), cfg.vocab_size, cfg.hidden_size)
    &&& plan.layers@.len() == cfg.num_layers
    &&& forall|i: int|
        0 <= i < cfg.num_layers ==> (#[trigger] plan.layers@[i])@ == hunyuan_vl_layer_plan(cfg, i as usize)
    &&& plan.norm == rms_norm(plain("model", "norm"), cfg.hidden_size)
    &&& plan.output == Some(
        optional(
            plain("", "lm_head"),
            Weight::LinearShape { d0: cfg.hidden_size, d1: cfg.vocab_size },
            Fallback::TiedEmbedding,
        ),
    )
    &&& plan.positions is None
}

impl HunyuanVl {
    /// The weights that a model asks for.
    pub fn load(cfg: &HunyuanVlConfig, vision_at_top: bool) -> (plan: HunyuanVlPlan)
        requires
            cfg.fits(),
        ensures
            plan.vision@ == vision_plan(&cfg.vision_config, vision_at_top),
            hunyuan_vl_planned(cfg, &plan.decoder),
    {
        Self::load_tp(cfg, vision_at_top)
    }

    /// The weights that a model asks for, each device holding them all.
    pub fn load_tp(cfg: &HunyuanVlConfig, vision_at_top: bool) -> (plan: HunyuanVlPlan)
        requires
            cfg.fits(),
        ensures
            plan.vision@ == vision_plan(&cfg.vision_config, vision_at_top),
            hunyuan_vl_planned(cfg, &plan.decoder),
    {
        HunyuanVlPlan {
            vision: HunyuanVlVisionEncoder::load(&cfg.vision_config, vision_at_top),
            decoder: Self::load_decoder(cfg),
        }
    }

    /// The weights of the decoder.
    pub fn load_decoder(cfg: &HunyuanVlConfig) -> (plan: ModelPlan)
        requires
            cfg.fits(),
        ensures
            hunyuan_vl_planned(cfg, &plan),
    {
        let mut layers: Vec<Vec<LoadStep>> = Vec::new();
        let mut i: usize = 0;
        while i < cfg.num_layers
            invariant
                i <= cfg.num_layers,
                cfg.fits(),
                layers@.len() == i,
                forall|j: int|
                    0 <= j < i ==> (#[trigger] layers@[j])@ == hunyuan_vl_layer_plan(cfg, j as usize),
            decreases cfg.num_layers - i,
        {
            layers.push(HunyuanVlBlock::load(cfg, i));
            i = i + 1;
        }
        ModelPlan {
            tok_embeddings: linear_shape(plain("model", "embed_tokens"), cfg.vocab_size, cfg.hidden_size),
            positions: None,
            layers,
            norm: rms_norm(plain("model", "norm"), cfg.hidden_size),
            output: Some(
        optional(
            plain("", "lm_head"),
            Weight::LinearShape { d0: cfg.hidden_size, d1: cfg.vocab_size },
            Fallback::TiedEmbedding,
        ),
    ),
        }
    }

    /// The stages of a pass over `tokens` tokens. Every layer starts
    /// from an empty history.
    pub fn forward(&self, tokens: usize) -> (stages: Vec<Stage>)
        ensures
            stages@ == (PassDesign {
                layers: self.cfg.num_layers,
                positions: false,
                sqrt_scale: None,
                keeps_hidden: false,
                softcap: None,
                advances: true
            }).stages(tokens),
    {
        let design = PassDesign {
            layers: self.cfg.num_layers,
            positions: false,
            sqrt_scale: None,
            keeps_hidden: false,
            softcap: None,
            advances: true
        };
        design.pass(tokens)
    }
}

} // verus!
