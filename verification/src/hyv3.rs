//! Hunyuan-V3: queries and keys are normalised head by head before they are
//! rotated, and experts stand next to a shared one.

use crate::block_program::{
    gated_ops, gated_program, Activation, AttentionDesign, BlockDesign, BlockOp, Ffn, FfnInput, Reg,
};
use crate::modality::ModalityHint;
use crate::numeric::{Real, YarnParams, HUNDRED_THOUSANDTH, MILLION};
use crate::routing::route_beside_shared;
use crate::rows::columns;
use crate::scalar::{Number, Relation, ScalarOp, Scalars};
use crate::stages::{PassDesign, Stage};
use crate::weights::{
    either, experts_plan, gated_plan, in_layer, linear_shape, optional, plain, proj_names,
    push_experts, push_gated, rms_norm, Fallback, LoadStep, ModelPlan, Weight,
};
use vstd::prelude::*;

verus! {

/// The settings of a Hunyuan-V3 model.
#[derive(Debug, Clone, Copy)]
pub struct HyV3Config {
    pub vocab_size: usize,
    pub hidden_size: usize,
    pub intermediate_size: usize,
    pub num_hidden_layers: usize,
    pub num_attention_heads: usize,
    pub num_key_value_heads: usize,
    pub head_dim: usize,
    pub num_experts: usize,
    pub num_experts_per_tok: usize,
    pub shared_expert_intermediate_size: Option<usize>,
    pub rms_norm_eps: Real,
    pub rope_theta: Real,
    pub max_position_embeddings: usize,
    pub yarn: Option<YarnParams>,
}

impl Default for HyV3Config {
    fn default() -> (cfg: Self)
        ensures
            cfg == (HyV3Config {
                vocab_size: 131072,
                hidden_size: 4096,
                intermediate_size: 2048,
                num_hidden_layers: 32,
                num_attention_heads: 32,
                num_key_value_heads: 8,
                head_dim: 128,
                num_experts: 64,
                num_experts_per_tok: 8,
                shared_expert_intermediate_size: Some(2048),
                rms_norm_eps: Real { bits: HUNDRED_THOUSANDTH },
                rope_theta: Real { bits: MILLION },
                max_position_embeddings: 131072,
                yarn: None,
            }),
    {
        HyV3Config {
            vocab_size: 131072,
            hidden_size: 4096,
            intermediate_size: 2048,
            num_hidden_layers: 32,
            num_attention_heads: 32,
            num_key_value_heads: 8,
            head_dim: 128,
            num_experts: 64,
            num_experts_per_tok: 8,
            shared_expert_intermediate_size: Some(2048),
            rms_norm_eps: Real { bits: HUNDRED_THOUSANDTH },
            rope_theta: Real { bits: MILLION },
            max_position_embeddings: 131072,
            yarn: None,
        }
    }
}

impl HyV3Config {
    /// The family's name.
    pub fn name(&self) -> (name: &'static str)
        ensures
            name@ == "hyv3"@,
    {
        "hyv3"
    }

    /// Text in, text out.
    pub fn modality(&self) -> (m: ModalityHint)
        ensures
            m == ModalityHint::TextInTextOut,
    {
        ModalityHint::TextInTextOut
    }

    /// Every width that the weights have fits.
    pub open spec fn fits(&self) -> bool {
        &&& self.num_attention_heads * self.head_dim + 2 * (self.num_key_value_heads * self.head_dim) <= usize::MAX
    }
}

/// The mixture of a block.
#[derive(Debug, Clone, Copy)]
pub struct HyV3MoeBlock {
    /// Experts that were loaded: the first eight at most.
    pub experts: usize,
    /// Scores that the router gives for a token.
    pub gates: usize,
    pub shared_expert: bool,
    pub num_experts_per_tok: usize,
}

/// The experts that a layer loads: the first eight at most.
pub open spec fn loaded_experts(cfg: &HyV3Config) -> usize {
    if cfg.num_experts < 8 {
        cfg.num_experts
    } else {
        8
    }
}

/// The weights of the mixture of a layer.
pub open spec fn mixture_plan(cfg: &HyV3Config, layer: usize) -> Seq<LoadStep> {
    seq![
        linear_shape(
            in_layer("model.layers", layer, "mlp", "gate"),
            cfg.hidden_size,
            cfg.num_experts,
        ),
    ] + experts_plan(
        "model.layers",
        layer,
        "mlp.experts",
        loaded_experts(cfg) as nat,
        cfg.hidden_size,
        cfg.intermediate_size,
        proj_names(),
    ) + (match cfg.shared_expert_intermediate_size {
        Some(dim) => gated_plan(
            "model.layers",
            layer,
            "mlp.shared_expert",
            cfg.hidden_size,
            dim,
            proj_names(),
        ),
        None => Seq::empty(),
    })
}

impl HyV3MoeBlock {
    /// The mixture of a configuration.
    pub fn new(cfg: &HyV3Config) -> (moe: HyV3MoeBlock)
        ensures
            moe == (HyV3MoeBlock {
                experts: loaded_experts(cfg),
                gates: cfg.num_experts,
                shared_expert: cfg.shared_expert_intermediate_size is Some,
                num_experts_per_tok: cfg.num_experts_per_tok,
            }),
    {
        HyV3MoeBlock {
            experts: if cfg.num_experts < 8 {
                cfg.num_experts
            } else {
                8
            },
            gates: cfg.num_experts,
            shared_expert: cfg.shared_expert_intermediate_size.is_some(),
            num_experts_per_tok: cfg.num_experts_per_tok,
        }
    }

    /// The router, the experts and the shared expert of a layer.
    pub fn load(cfg: &HyV3Config, layer: usize) -> (plan: Vec<LoadStep>)
        ensures
            plan@ == mixture_plan(cfg, layer),
    {
        let mut plan: Vec<LoadStep> = Vec::new();
        plan.push(
            linear_shape(
                in_layer("model.layers", layer, "mlp", "gate"),
                cfg.hidden_size,
                cfg.num_experts,
            ),
        );
        let moe = Self::new(cfg);
        push_experts(
            &mut plan,
            "model.layers",
            layer,
            "mlp.experts",
            moe.experts,
            cfg.hidden_size,
            cfg.intermediate_size,
            proj_names(),
        );
        if let Some(dim) = cfg.shared_expert_intermediate_size {
            push_gated(
                &mut plan,
                "model.layers",
                layer,
                "mlp.shared_expert",
                cfg.hidden_size,
                dim,
                proj_names(),
            );
        }
        assert(plan@ =~= mixture_plan(cfg, layer));
        plan
    }

    /// Routes every token to the best of the experts that were loaded, weighed
    /// by the softmax over their scores, and adds what they give to what the
    /// shared expert gave, or to zeros.
    ///
    /// `scores` are the router's; `run` runs one expert on one row.
    pub fn forward<
        T: Copy,
        F: Fn(ScalarOp, T, T) -> T,
        C: Fn(Number) -> T,
        Z: Fn(Relation, T, T) -> bool,
        R: Fn(usize, Vec<T>) -> Vec<T>,
    >(
        &self,
        x: &Scalars<T, F, C, Z>,
        rows: &[T],
        scores: &[T],
        tokens: usize,
        hidden: usize,
        shared: Option<Vec<T>>,
        run: R,
    ) -> (out: Vec<T>)
        requires
            x.wf(),
            rows@.len() == tokens * hidden,
            scores@.len() == tokens * self.gates,
            self.experts <= self.gates,
            shared matches Some(s) ==> s@.len() == tokens * hidden,
            forall|s: int|
                0 <= s < tokens ==> x.orders(
                    #[trigger] columns(
                        scores@,
                        tokens as nat,
                        self.gates as nat,
                        0,
                        self.experts as nat,
                    ).subrange(s * self.experts, s * self.experts + self.experts),
                ),
            forall|e: usize, a: Vec<T>|
                e < self.experts && a@.len() == hidden ==> #[trigger] call_requires(run, (e, a)),
            forall|e: usize, a: Vec<T>, r: Vec<T>| #[trigger]
                call_ensures(run, (e, a), r) && a@.len() == hidden ==> r@.len() == hidden,
        ensures
            out@.len() == tokens * hidden,
            x.routed_beside(
                run,
                rows@,
                columns(
                    scores@,
                    tokens as nat,
                    self.gates as nat,
                    0,
                    self.experts as nat,
                ),
                tokens as nat,
                hidden as nat,
                self.experts as nat,
                self.num_experts_per_tok as nat,
                x.shared_or_zeros(shared, (tokens * hidden) as nat),
                out@,
            ),
    {
        route_beside_shared(
            x,
            rows,
            scores,
            tokens,
            hidden,
            self.gates,
            self.experts,
            self.num_experts_per_tok,
            shared,
            run,
        )
    }
}

/// An expert.
#[derive(Debug, Clone, Copy)]
pub struct HyV3Expert {
    pub in_dim: usize,
    pub hidden_dim: usize,
}

impl HyV3Expert {
    /// The operations of an expert.
    pub fn forward(&self) -> (ops: Vec<BlockOp>)
        ensures
            ops@ == gated_ops(Reg::FfnInput, self.in_dim, self.hidden_dim, Activation::Silu),
    {
        gated_program(self.in_dim, self.hidden_dim, Activation::Silu)
    }
}

/// The weights of a layer.
pub open spec fn hyv3_layer_plan(cfg: &HyV3Config, layer: usize) -> Seq<LoadStep> {
    let q = (cfg.num_attention_heads * cfg.head_dim) as usize;
    let kv = (cfg.num_key_value_heads * cfg.head_dim) as usize;
    let hidden = cfg.hidden_size;
    seq![
        linear_shape(in_layer("model.layers", layer, "self_attn", "q_proj"), hidden, q),
        linear_shape(in_layer("model.layers", layer, "self_attn", "k_proj"), hidden, kv),
        linear_shape(in_layer("model.layers", layer, "self_attn", "v_proj"), hidden, kv),
        linear_shape(in_layer("model.layers", layer, "self_attn", "o_proj"), q, hidden),
        either(
            in_layer("model.layers", layer, "self_attn", "q_norm"),
            Weight::RmsNorm { dim: cfg.head_dim },
            in_layer("model.layers", layer, "self_attn", "q_layernorm"),
            Weight::RmsNorm { dim: cfg.head_dim },
        ),
        either(
            in_layer("model.layers", layer, "self_attn", "k_norm"),
            Weight::RmsNorm { dim: cfg.head_dim },
            in_layer("model.layers", layer, "self_attn", "k_layernorm"),
            Weight::RmsNorm { dim: cfg.head_dim },
        ),
        rms_norm(in_layer("model.layers", layer, "", "input_layernorm"), hidden),
        rms_norm(in_layer("model.layers", layer, "", "post_attention_layernorm"), hidden),
    ] + mixture_plan(cfg, layer)
}

/// A block of a model.
#[derive(Debug, Clone, Copy)]
pub struct HyV3Block {
    pub design: BlockDesign,
}

/// The parts of a block.
pub open spec fn hyv3_design(cfg: &HyV3Config) -> BlockDesign {
    BlockDesign {
        hidden: cfg.hidden_size,
        inter: cfg.intermediate_size,
        attention: AttentionDesign {
            heads: cfg.num_attention_heads,
            kv_heads: cfg.num_key_value_heads,
            head_dim: cfg.head_dim,
            cached: false,
            window: None,
            softcap: None,
        },
        layer_norm: false,
        fused_qkv: false,
        qk_norm: true,
        rope_theta: Some(cfg.rope_theta),
        rotary_dim: cfg.head_dim,
        rope_sections: None,
        post_attn_norm: false,
        ffn_input: FfnInput::NormedResidual,
        ffn: Ffn::Experts,
        post_ffn_norm: false,
        residual_scale: None,
    }
}

impl HyV3Block {
    /// A block of a configuration.
    pub fn new(cfg: &HyV3Config) -> (block: HyV3Block)
        requires
            cfg.fits(),
        ensures
            block.design == hyv3_design(cfg),
    {
        HyV3Block {
            design: BlockDesign {
                hidden: cfg.hidden_size,
                inter: cfg.intermediate_size,
                attention: AttentionDesign {
                    heads: cfg.num_attention_heads,
                    kv_heads: cfg.num_key_value_heads,
                    head_dim: cfg.head_dim,
                    cached: false,
                    window: None,
                    softcap: None,
                },
                layer_norm: false,
                fused_qkv: false,
                qk_norm: true,
                rope_theta: Some(cfg.rope_theta),
                rotary_dim: cfg.head_dim,
                rope_sections: None,
                post_attn_norm: false,
                ffn_input: FfnInput::NormedResidual,
                ffn: Ffn::Experts,
                post_ffn_norm: false,
                residual_scale: None,
            },
        }
    }

    /// The weights of a layer.
    pub fn load(cfg: &HyV3Config, layer: usize) -> (plan: Vec<LoadStep>)
        requires
            cfg.fits(),
        ensures
            plan@ == hyv3_layer_plan(cfg, layer),
    {
        let q: usize = cfg.num_attention_heads * cfg.head_dim;
        let kv: usize = cfg.num_key_value_heads * cfg.head_dim;
        let hidden: usize = cfg.hidden_size;
        let mut plan = vec![
            linear_shape(in_layer("model.layers", layer, "self_attn", "q_proj"), hidden, q),
            linear_shape(in_layer("model.layers", layer, "self_attn", "k_proj"), hidden, kv),
            linear_shape(in_layer("model.layers", layer, "self_attn", "v_proj"), hidden, kv),
            linear_shape(in_layer("model.layers", layer, "self_attn", "o_proj"), q, hidden),
            either(
                in_layer("model.layers", layer, "self_attn", "q_norm"),
                Weight::RmsNorm { dim: cfg.head_dim },
                in_layer("model.layers", layer, "self_attn", "q_layernorm"),
                Weight::RmsNorm { dim: cfg.head_dim },
            ),
            either(
                in_layer("model.layers", layer, "self_attn", "k_norm"),
                Weight::RmsNorm { dim: cfg.head_dim },
                in_layer("model.layers", layer, "self_attn", "k_layernorm"),
                Weight::RmsNorm { dim: cfg.head_dim },
            ),
            rms_norm(in_layer("model.layers", layer, "", "input_layernorm"), hidden),
            rms_norm(in_layer("model.layers", layer, "", "post_attention_layernorm"), hidden),
        ];
        let mut moe = HyV3MoeBlock::load(cfg, layer);
        plan.append(&mut moe);
        assert(plan@ =~= hyv3_layer_plan(cfg, layer));
        plan
    }

    /// The operations of a block.
    pub fn forward(&self) -> (ops: Vec<BlockOp>)
        requires
            self.design.fits(),
        ensures
            ops@ == self.design.ops(),
    {
        self.design.program()
    }
}

/// A model.
#[derive(Debug, Clone, Copy)]
pub struct HyV3 {
    pub cfg: HyV3Config,
    /// Layers that the model runs.
    pub layers: usize,
}

/// The plan names every weight of a model.
pub open spec fn hyv3_planned(cfg: &HyV3Config, plan: &ModelPlan) -> bool {
    &&& plan.tok_embeddings == linear_shape(plain("model", "embed_tokens"), cfg.vocab_size, cfg.hidden_size)
    &&& plan.layers@.len() == cfg.num_hidden_layers
    &&& forall|i: int|
        0 <= i < cfg.num_hidden_layers ==> (#[trigger] plan.layers@[i])@ == hyv3_layer_plan(cfg, i as usize)
    &&& plan.norm == rms_norm(plain("model", "norm"), cfg.hidden_size)
    &&& plan.output == Some(
        optional(
            plain("", "lm_head"),
            Weight::LinearShape { d0: cfg.hidden_size, d1: cfg.vocab_size },
            Fallback::TiedTransposed,
        ),
    )
    &&& plan.positions is None
}

impl HyV3 {
    /// The weights that a model asks for, each device holding them all.
    pub fn load_tp(cfg: &HyV3Config) -> (plan: ModelPlan)
        requires
            cfg.fits(),
        ensures
            hyv3_planned(cfg, &plan),
    {
        let mut layers: Vec<Vec<LoadStep>> = Vec::new();
        let mut i: usize = 0;
        while i < cfg.num_hidden_layers
            invariant
                i <= cfg.num_hidden_layers,
                cfg.fits(),
                layers@.len() == i,
                forall|j: int|
                    0 <= j < i ==> (#[trigger] layers@[j])@ == hyv3_layer_plan(cfg, j as usize),
            decreases cfg.num_hidden_layers - i,
        {
            layers.push(HyV3Block::load(cfg, i));
            i = i + 1;
        }
        ModelPlan {
            tok_embeddings: linear_shape(plain("model", "embed_tokens"), cfg.vocab_size, cfg.hidden_size),
            positions: None,
            layers,
            norm: rms_norm(plain("model", "norm"), cfg.hidden_size),
            output: Some(
        optional(
            plain("", "lm_head"),
            Weight::LinearShape { d0: cfg.hidden_size, d1: cfg.vocab_size },
            Fallback::TiedTransposed,
        ),
    ),
        }
    }

    /// A model without layers, for trying the ends of a pass.
    pub fn random(cfg: HyV3Config) -> (model: HyV3)
        ensures
            model.cfg == cfg,
            model.layers == 0,
    {
        HyV3 { cfg, layers: 0 }
    }

    /// The stages of a pass over `tokens` tokens.
    pub fn forward(&self, tokens: usize) -> (stages: Vec<Stage>)
        ensures
            stages@ == (PassDesign {
                layers: self.layers,
                positions: false,
                sqrt_scale: None,
                keeps_hidden: true,
                softcap: None,
                advances: false
            }).stages(tokens),
    {
        let design = PassDesign {
            layers: self.layers,
            positions: false,
            sqrt_scale: None,
            keeps_hidden: true,
            softcap: None,
            advances: false
        };
        design.pass(tokens)
    }
}

} // verus!
