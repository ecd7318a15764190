//! Granite-3.1 hybrid mixture: scaled residual sums, and experts next to a shared
//! one.

use crate::block_program::{
    gated_ops, gated_program, Activation, AttentionDesign, BlockDesign, BlockOp, Ffn, FfnInput, Reg,
};
use crate::modality::ModalityHint;
use crate::numeric::{
    Real, YarnParams, HUNDRED_THOUSANDTH, MILLION, TEN_THOUSAND, TWENTY_TWO_HUNDREDTHS,
};
use crate::routing::route_beside_shared;
use crate::rows::{columns, gather_rows, gathered};
use crate::scalar::{Number, Relation, ScalarOp, Scalars};
use crate::stages::{PassDesign, Stage};
use crate::weights::{
    experts_plan, gated_plan, in_layer, linear_shape, optional, plain, proj_names, push_experts,
    push_gated, rms_norm, Fallback, LoadStep, ModelPlan, Weight,
};
use vstd::prelude::*;

verus! {

/// The settings of a Granite hybrid mixture model.
#[derive(Debug, Clone, Copy)]
pub struct GraniteMoeHybridConfig {
    pub vocab_size: usize,
    pub hidden_size: usize,
    pub intermediate_size: usize,
    pub num_hidden_layers: usize,
    pub num_attention_heads: usize,
    pub num_key_value_heads: usize,
    pub head_dim: usize,
    pub num_local_experts: usize,
    pub num_experts_per_tok: usize,
    pub shared_intermediate_size: Option<usize>,
    pub residual_multiplier: Real,
    pub rms_norm_eps: Real,
    pub rope_theta: Real,
    pub max_position_embeddings: usize,
    pub yarn: Option<YarnParams>,
}

impl Default for GraniteMoeHybridConfig {
    fn default() -> (cfg: Self)
        ensures
            cfg == (GraniteMoeHybridConfig {
                vocab_size: 49152,
                hidden_size: 2048,
                intermediate_size: 1536,
                num_hidden_layers: 32,
                num_attention_heads: 32,
                num_key_value_heads: 8,
                head_dim: 64,
                num_local_experts: 32,
                num_experts_per_tok: 8,
                shared_intermediate_size: Some(1536),
                residual_multiplier: Real { bits: TWENTY_TWO_HUNDREDTHS },
                rms_norm_eps: Real { bits: HUNDRED_THOUSANDTH },
                rope_theta: Real { bits: MILLION },
                max_position_embeddings: 131072,
                yarn: None,
            }),
    {
        GraniteMoeHybridConfig {
            vocab_size: 49152,
            hidden_size: 2048,
            intermediate_size: 1536,
            num_hidden_layers: 32,
            num_attention_heads: 32,
            num_key_value_heads: 8,
            head_dim: 64,
            num_local_experts: 32,
            num_experts_per_tok: 8,
            shared_intermediate_size: Some(1536),
            residual_multiplier: Real { bits: TWENTY_TWO_HUNDREDTHS },
            rms_norm_eps: Real { bits: HUNDRED_THOUSANDTH },
            rope_theta: Real { bits: MILLION },
            max_position_embeddings: 131072,
            yarn: None,
        }
    }
}

impl GraniteMoeHybridConfig {
    /// The family's name.
    pub fn name(&self) -> (name: &'static str)
        ensures
            name@ == "granite_moe_hybrid"@,
    {
        "granite_moe_hybrid"
    }

    /// Text in, text out.
    pub fn modality(&self) -> (m: ModalityHint)
        ensures
            m == ModalityHint::TextInTextOut,
    {
        ModalityHint::TextInTextOut
    }

    /// Every width that the weights have fits.
    pub open spec fn fits(&self) -> bool {
        &&& self.num_attention_heads * self.head_dim + 2 * (self.num_key_value_heads * self.head_dim) <= usize::MAX
    }
}

/// The mixture of a block.
#[derive(Debug, Clone, Copy)]
pub struct GraniteMoeBlock {
    /// Experts that were loaded: the first eight at most.
    pub experts: usize,
    /// Scores that the router gives for a token.
    pub gates: usize,
    pub shared_expert: bool,
    pub num_experts_per_tok: usize,
}

/// The experts that a layer loads: the first eight at most.
pub open spec fn loaded_experts(cfg: &GraniteMoeHybridConfig) -> usize {
    if cfg.num_local_experts < 8 {
        cfg.num_local_experts
    } else {
        8
    }
}

/// The weights of the mixture of a layer.
pub open spec fn mixture_plan(cfg: &GraniteMoeHybridConfig, layer: usize) -> Seq<LoadStep> {
    seq![
        linear_shape(
            in_layer("model.layers", layer, "block_sparse_moe", "gate"),
            cfg.hidden_size,
            cfg.num_local_experts,
        ),
    ] + experts_plan(
        "model.layers",
        layer,
        "block_sparse_moe.experts",
        loaded_experts(cfg) as nat,
        cfg.hidden_size,
        cfg.intermediate_size,
        proj_names(),
    ) + (match cfg.shared_intermediate_size {
        Some(dim) => gated_plan(
            "model.layers",
            layer,
            "block_sparse_moe.shared_expert",
            cfg.hidden_size,
            dim,
            proj_names(),
        ),
        None => Seq::empty(),
    })
}

impl GraniteMoeBlock {
    /// The mixture of a configuration.
    pub fn new(cfg: &GraniteMoeHybridConfig) -> (moe: GraniteMoeBlock)
        ensures
            moe == (GraniteMoeBlock {
                experts: loaded_experts(cfg),
                gates: cfg.num_local_experts,
                shared_expert: cfg.shared_intermediate_size is Some,
                num_experts_per_tok: cfg.num_experts_per_tok,
            }),
    {
        GraniteMoeBlock {
            experts: if cfg.num_local_experts < 8 {
                cfg.num_local_experts
            } else {
                8
            },
            gates: cfg.num_local_experts,
            shared_expert: cfg.shared_intermediate_size.is_some(),
            num_experts_per_tok: cfg.num_experts_per_tok,
        }
    }

    /// The router, the experts and the shared expert of a layer.
    pub fn load(cfg: &GraniteMoeHybridConfig, layer: usize) -> (plan: Vec<LoadStep>)
        ensures
            plan@ == mixture_plan(cfg, layer),
    {
        let mut plan: Vec<LoadStep> = Vec::new();
        plan.push(
            linear_shape(
                in_layer("model.layers", layer, "block_sparse_moe", "gate"),
                cfg.hidden_size,
                cfg.num_local_experts,
            ),
        );
        let moe = Self::new(cfg);
        push_experts(
            &mut plan,
            "model.layers",
            layer,
            "block_sparse_moe.experts",
            moe.experts,
            cfg.hidden_size,
            cfg.intermediate_size,
            proj_names(),
        );
        if let Some(dim) = cfg.shared_intermediate_size {
            push_gated(
                &mut plan,
                "model.layers",
                layer,
                "block_sparse_moe.shared_expert",
                cfg.hidden_size,
                dim,
                proj_names(),
            );
        }
        assert(plan@ =~= mixture_plan(cfg, layer));
        plan
    }

    /// Routes every token to the best of the experts that were loaded, weighed
    /// by the softmax over their scores, and adds what they give to what the
    /// shared expert gave, or to zeros.
    ///
    /// `scores` are the router's; `run` runs one expert on one row.
    pub fn forward<
        T: Copy,
        F: Fn(ScalarOp, T, T) -> T,
        C: Fn(Number) -> T,
        Z: Fn(Relation, T, T) -> bool,
        R: Fn(usize, Vec<T>) -> Vec<T>,
    >(
        &self,
        x: &Scalars<T, F, C, Z>,
        rows: &[T],
        scores: &[T],
        tokens: usize,
        hidden: usize,
        shared: Option<Vec<T>>,
        run: R,
    ) -> (out: Vec<T>)
        requires
            x.wf(),
            rows@.len() == tokens * hidden,
            scores@.len() == tokens * self.gates,
            self.experts <= self.gates,
            shared matches Some(s) ==> s@.len() == tokens * hidden,
            forall|s: int|
                0 <= s < tokens ==> x.orders(
                    #[trigger] columns(
                        scores@,
                        tokens as nat,
                        self.gates as nat,
                        0,
                        self.experts as nat,
                    ).subrange(s * self.experts, s * self.experts + self.experts),
                ),
            forall|e: usize, a: Vec<T>|
                e < self.experts && a@.len() == hidden ==> #[trigger] call_requires(run, (e, a)),
            forall|e: usize, a: Vec<T>, r: Vec<T>| #[trigger]
                call_ensures(run, (e, a), r) && a@.len() == hidden ==> r@.len() == hidden,
        ensures
            out@.len() == tokens * hidden,
            x.routed_beside(
                run,
                rows@,
                columns(
                    scores@,
                    tokens as nat,
                    self.gates as nat,
                    0,
                    self.experts as nat,
                ),
                tokens as nat,
                hidden as nat,
                self.experts as nat,
                self.num_experts_per_tok as nat,
                x.shared_or_zeros(shared, (tokens * hidden) as nat),
                out@,
            ),
    {
        route_beside_shared(
            x,
            rows,
            scores,
            tokens,
            hidden,
            self.gates,
            self.experts,
            self.num_experts_per_tok,
            shared,
            run,
        )
    }
}

/// An expert.
#[derive(Debug, Clone, Copy)]
pub struct GraniteExpert {
    pub in_dim: usize,
    pub hidden_dim: usize,
}

impl GraniteExpert {
    /// The operations of an expert.
    pub fn forward(&self) -> (ops: Vec<BlockOp>)
        ensures
            ops@ == gated_ops(Reg::FfnInput, self.in_dim, self.hidden_dim, Activation::SiluSigmoid),
    {
        gated_program(self.in_dim, self.hidden_dim, Activation::SiluSigmoid)
    }
}

/// The weights of a layer.
pub open spec fn granite_layer_plan(cfg: &GraniteMoeHybridConfig, layer: usize) -> Seq<LoadStep> {
    let q = (cfg.num_attention_heads * cfg.head_dim) as usize;
    let kv = (cfg.num_key_value_heads * cfg.head_dim) as usize;
    let hidden = cfg.hidden_size;
    seq![
        linear_shape(in_layer("model.layers", layer, "self_attn", "q_proj"), hidden, q),
        linear_shape(in_layer("model.layers", layer, "self_attn", "k_proj"), hidden, kv),
        linear_shape(in_layer("model.layers", layer, "self_attn", "v_proj"), hidden, kv),
        linear_shape(in_layer("model.layers", layer, "self_attn", "o_proj"), q, hidden),
        rms_norm(in_layer("model.layers", layer, "", "input_layernorm"), hidden),
        rms_norm(in_layer("model.layers", layer, "", "post_attention_layernorm"), hidden),
    ] + mixture_plan(cfg, layer)
}

/// A block of a model.
#[derive(Debug, Clone, Copy)]
pub struct GraniteMoeHybridBlock {
    pub design: BlockDesign,
}

/// The parts of a block.
pub open spec fn granite_design(cfg: &GraniteMoeHybridConfig) -> BlockDesign {
    BlockDesign {
        hidden: cfg.hidden_size,
        inter: cfg.intermediate_size,
        attention: AttentionDesign {
            heads: cfg.num_attention_heads,
            kv_heads: cfg.num_key_value_heads,
            head_dim: cfg.head_dim,
            cached: false,
            window: None,
            softcap: None,
        },
        layer_norm: false,
        fused_qkv: false,
        qk_norm: false,
        rope_theta: Some(Real { bits: TEN_THOUSAND }),
        rotary_dim: cfg.head_dim,
        rope_sections: None,
        post_attn_norm: false,
        ffn_input: FfnInput::NormedResidual,
        ffn: Ffn::Experts,
        post_ffn_norm: false,
        residual_scale: Some(cfg.residual_multiplier),
    }
}

impl GraniteMoeHybridBlock {
    /// A block of a configuration.
    pub fn new(cfg: &GraniteMoeHybridConfig) -> (block: GraniteMoeHybridBlock)
        requires
            cfg.fits(),
        ensures
            block.design == granite_design(cfg),
    {
        GraniteMoeHybridBlock {
            design: BlockDesign {
                hidden: cfg.hidden_size,
                inter: cfg.intermediate_size,
                attention: AttentionDesign {
                    heads: cfg.num_attention_heads,
                    kv_heads: cfg.num_key_value_heads,
                    head_dim: cfg.head_dim,
                    cached: false,
                    window: None,
                    softcap: None,
                },
                layer_norm: false,
                fused_qkv: false,
                qk_norm: false,
                rope_theta: Some(Real { bits: TEN_THOUSAND }),
                rotary_dim: cfg.head_dim,
                rope_sections: None,
                post_attn_norm: false,
                ffn_input: FfnInput::NormedResidual,
                ffn: Ffn::Experts,
                post_ffn_norm: false,
                residual_scale: Some(cfg.residual_multiplier),
            },
        }
    }

    /// The weights of a layer.
    pub fn load(cfg: &GraniteMoeHybridConfig, layer: usize) -> (plan: Vec<LoadStep>)
        requires
            cfg.fits(),
        ensures
            plan@ == granite_layer_plan(cfg, layer),
    {
        let q: usize = cfg.num_attention_heads * cfg.head_dim;
        let kv: usize = cfg.num_key_value_heads * cfg.head_dim;
        let hidden: usize = cfg.hidden_size;
        let mut plan = vec![
            linear_shape(in_layer("model.layers", layer, "self_attn", "q_proj"), hidden, q),
            linear_shape(in_layer("model.layers", layer, "self_attn", "k_proj"), hidden, kv),
            linear_shape(in_layer("model.layers", layer, "self_attn", "v_proj"), hidden, kv),
            linear_shape(in_layer("model.layers", layer, "self_attn", "o_proj"), q, hidden),
            rms_norm(in_layer("model.layers", layer, "", "input_layernorm"), hidden),
            rms_norm(in_layer("model.layers", layer, "", "post_attention_layernorm"), hidden),
        ];
        let mut moe = GraniteMoeBlock::load(cfg, layer);
        plan.append(&mut moe);
        assert(plan@ =~= granite_layer_plan(cfg, layer));
        plan
    }

    /// The operations of a block.
    pub fn forward(&self) -> (ops: Vec<BlockOp>)
        requires
            self.design.fits(),
        ensures
            ops@ == self.design.ops(),
    {
        self.design.program()
    }
}

/// A model.
#[derive(Debug, Clone, Copy)]
pub struct GraniteMoeHybrid {
    pub cfg: GraniteMoeHybridConfig,
    /// Layers that the model runs.
    pub layers: usize,
}

/// The plan names every weight of a model.
pub open spec fn granite_planned(cfg: &GraniteMoeHybridConfig, plan: &ModelPlan) -> bool {
    &&& plan.tok_embeddings == linear_shape(plain("model", "embed_tokens"), cfg.vocab_size, cfg.hidden_size)
    &&& plan.layers@.len() == cfg.num_hidden_layers
    &&& forall|i: int|
        0 <= i < cfg.num_hidden_layers ==> (#[trigger] plan.layers@[i])@ == granite_layer_plan(cfg, i as usize)
    &&& plan.norm == rms_norm(plain("model", "norm"), cfg.hidden_size)
    &&& plan.output == Some(
        optional(
            plain("", "lm_head"),
            Weight::LinearShape { d0: cfg.hidden_size, d1: cfg.vocab_size },
            Fallback::TiedTransposed,
        ),
    )
    &&& plan.positions is None
}

impl GraniteMoeHybrid {
    /// The weights that a model asks for, each device holding them all.
    pub fn load_tp(cfg: &GraniteMoeHybridConfig) -> (plan: ModelPlan)
        requires
            cfg.fits(),
        ensures
            granite_planned(cfg, &plan),
    {
        let mut layers: Vec<Vec<LoadStep>> = Vec::new();
        let mut i: usize = 0;
        while i < cfg.num_hidden_layers
            invariant
                i <= cfg.num_hidden_layers,
                cfg.fits(),
                layers@.len() == i,
                forall|j: int|
                    0 <= j < i ==> (#[trigger] layers@[j])@ == granite_layer_plan(cfg, j as usize),
            decreases cfg.num_hidden_layers - i,
        {
            layers.push(GraniteMoeHybridBlock::load(cfg, i));
            i = i + 1;
        }
        ModelPlan {
            tok_embeddings: linear_shape(plain("model", "embed_tokens"), cfg.vocab_size, cfg.hidden_size),
            positions: None,
            layers,
            norm: rms_norm(plain("model", "norm"), cfg.hidden_size),
            output: Some(
        optional(
            plain("", "lm_head"),
            Weight::LinearShape { d0: cfg.hidden_size, d1: cfg.vocab_size },
            Fallback::TiedTransposed,
        ),
    ),
        }
    }

    /// A model without layers, for trying the ends of a pass.
    pub fn random(cfg: GraniteMoeHybridConfig) -> (model: GraniteMoeHybrid)
        ensures
            model.cfg == cfg,
            model.layers == 0,
    {
        GraniteMoeHybrid { cfg, layers: 0 }
    }

    /// The rows that a pass starts from, one row of the token table per id. An
    /// id outside the vocabulary, or one whose row is not all in the table,
    /// gives zeros.
    pub fn embed<T: Copy>(&self, table: &[T], ids: &[usize], zero: T) -> (rows: Vec<T>)
        requires
            self.cfg.vocab_size * self.cfg.hidden_size <= usize::MAX,
        ensures
            rows@ == gathered(
                table@,
                self.cfg.vocab_size as nat,
                self.cfg.hidden_size as nat,
                ids@,
                zero,
            ),
    {
        gather_rows(table, self.cfg.vocab_size, self.cfg.hidden_size, ids, zero)
    }

    /// The stages of a pass over `tokens` tokens.
    pub fn forward(&self, tokens: usize) -> (stages: Vec<Stage>)
        ensures
            stages@ == (PassDesign {
                layers: self.layers,
                positions: false,
                sqrt_scale: None,
                keeps_hidden: true,
                softcap: None,
                advances: false
            }).stages(tokens),
    {
        let design = PassDesign {
            layers: self.layers,
            positions: false,
            sqrt_scale: None,
            keeps_hidden: true,
            softcap: None,
            advances: false
        };
        design.pass(tokens)
    }
}

} // verus!
