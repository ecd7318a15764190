//! MiniMax-M3: grouped-query attention and a block-sparse mixture of experts.

use crate::block_program::{
    gated_ops, gated_program, Activation, AttentionDesign, BlockDesign, BlockOp, Ffn, FfnInput, Reg,
};
use crate::device::Device;
use crate::json::{
    number, number_setting, read_number, read_unsigned, real_of, size, size_of, unsigned_setting,
};
use crate::modality::ModalityHint;
use crate::numeric::{Real, HUNDRED_THOUSAND, HUNDRED_THOUSANDTH};
use crate::routing::route_tokens;
use crate::scalar::{Number, Relation, ScalarOp, Scalars};
use crate::stages::{PassDesign, Stage};
use crate::weights::{
    expert_plan, experts_plan, in_expert, in_layer, linear_shape, optional, plain, push_experts,
    rms_norm, Fallback, GatedNames, LoadStep, ModelPlan, Weight,
};
use vstd::prelude::*;

verus! {

/// The settings of a MiniMax-M3 model.
#[derive(Debug, Clone, Copy)]
pub struct MiniMaxM3Config {
    pub vocab_size: usize,
    pub hidden_size: usize,
    pub num_attention_heads: usize,
    pub num_key_value_heads: usize,
    pub head_dim: usize,
    pub num_hidden_layers: usize,
    pub intermediate_size: usize,
    pub num_experts: usize,
    pub num_experts_per_tok: usize,
    pub rms_norm_eps: Real,
    pub rope_theta: Real,
    pub max_position_embeddings: usize,
}

impl Default for MiniMaxM3Config {
    fn default() -> (cfg: Self)
        ensures
            cfg == (MiniMaxM3Config {
                vocab_size: 128000,
                hidden_size: 3072,
                num_attention_heads: 24,
                num_key_value_heads: 8,
                head_dim: 128,
                num_hidden_layers: 36,
                intermediate_size: 8192,
                num_experts: 32,
                num_experts_per_tok: 4,
                rms_norm_eps: Real { bits: HUNDRED_THOUSANDTH },
                rope_theta: Real { bits: HUNDRED_THOUSAND },
                max_position_embeddings: 32768,
            }),
    {
        MiniMaxM3Config {
            vocab_size: 128000,
            hidden_size: 3072,
            num_attention_heads: 24,
            num_key_value_heads: 8,
            head_dim: 128,
            num_hidden_layers: 36,
            intermediate_size: 8192,
            num_experts: 32,
            num_experts_per_tok: 4,
            rms_norm_eps: Real { bits: HUNDRED_THOUSANDTH },
            rope_theta: Real { bits: HUNDRED_THOUSAND },
            max_position_embeddings: 32768,
        }
    }
}

/// What a settings file says, as far as this model reads it.
#[derive(Debug, Clone, Copy)]
pub struct MiniMaxM3Settings {
    pub vocab_size: Option<u64>,
    pub hidden_size: Option<u64>,
    pub num_attention_heads: Option<u64>,
    pub num_key_value_heads: Option<u64>,
    pub head_dim: Option<u64>,
    pub num_hidden_layers: Option<u64>,
    pub intermediate_size: Option<u64>,
    pub num_experts: Option<u64>,
    pub num_experts_per_tok: Option<u64>,
    pub rms_norm_eps: Option<u64>,
    pub rope_theta: Option<u64>,
    pub max_position_embeddings: Option<u64>,
}

impl MiniMaxM3Settings {
    /// The settings under their keys in a file.
    pub open spec fn of(value: serde_json::Value) -> MiniMaxM3Settings {
        MiniMaxM3Settings {
            vocab_size: unsigned_setting(value, "vocab_size"@),
            hidden_size: unsigned_setting(value, "hidden_size"@),
            num_attention_heads: unsigned_setting(value, "num_attention_heads"@),
            num_key_value_heads: unsigned_setting(value, "num_key_value_heads"@),
            head_dim: unsigned_setting(value, "head_dim"@),
            num_hidden_layers: unsigned_setting(value, "num_hidden_layers"@),
            intermediate_size: unsigned_setting(value, "intermediate_size"@),
            num_experts: unsigned_setting(value, "num_experts"@),
            num_experts_per_tok: unsigned_setting(value, "num_experts_per_tok"@),
            rms_norm_eps: number_setting(value, "rms_norm_eps"@),
            rope_theta: number_setting(value, "rope_theta"@),
            max_position_embeddings: unsigned_setting(value, "max_position_embeddings"@),
        }
    }

    /// The configuration that the settings give: what is absent is zero.
    pub open spec fn spec_config(self) -> MiniMaxM3Config {
        MiniMaxM3Config {
            vocab_size: size_of(self.vocab_size),
            hidden_size: size_of(self.hidden_size),
            num_attention_heads: size_of(self.num_attention_heads),
            num_key_value_heads: size_of(self.num_key_value_heads),
            head_dim: size_of(self.head_dim),
            num_hidden_layers: size_of(self.num_hidden_layers),
            intermediate_size: size_of(self.intermediate_size),
            num_experts: size_of(self.num_experts),
            num_experts_per_tok: size_of(self.num_experts_per_tok),
            rms_norm_eps: real_of(self.rms_norm_eps),
            rope_theta: real_of(self.rope_theta),
            max_position_embeddings: size_of(self.max_position_embeddings),
        }
    }

    /// The configuration that the settings give.
    pub fn config(&self) -> (cfg: MiniMaxM3Config)
        ensures
            cfg == self.spec_config(),
    {
        MiniMaxM3Config {
            vocab_size: size(self.vocab_size),
            hidden_size: size(self.hidden_size),
            num_attention_heads: size(self.num_attention_heads),
            num_key_value_heads: size(self.num_key_value_heads),
            head_dim: size(self.head_dim),
            num_hidden_layers: size(self.num_hidden_layers),
            intermediate_size: size(self.intermediate_size),
            num_experts: size(self.num_experts),
            num_experts_per_tok: size(self.num_experts_per_tok),
            rms_norm_eps: number(self.rms_norm_eps),
            rope_theta: number(self.rope_theta),
            max_position_embeddings: size(self.max_position_embeddings),
        }
    }
}

impl MiniMaxM3Config {
    /// The family's name.
    pub fn name(&self) -> (name: &'static str)
        ensures
            name@ == "minimax_m3"@,
    {
        "minimax_m3"
    }

    /// Text in, text out.
    pub fn modality(&self) -> (m: ModalityHint)
        ensures
            m == ModalityHint::TextInTextOut,
    {
        ModalityHint::TextInTextOut
    }

    /// Reads the configuration out of a settings file.
    pub fn from_hf(value: &serde_json::Value) -> (cfg: MiniMaxM3Config)
        ensures
            cfg == MiniMaxM3Settings::of(*value).spec_config(),
    {
        let settings = MiniMaxM3Settings {
            vocab_size: read_unsigned(value, "vocab_size"),
            hidden_size: read_unsigned(value, "hidden_size"),
            num_attention_heads: read_unsigned(value, "num_attention_heads"),
            num_key_value_heads: read_unsigned(value, "num_key_value_heads"),
            head_dim: read_unsigned(value, "head_dim"),
            num_hidden_layers: read_unsigned(value, "num_hidden_layers"),
            intermediate_size: read_unsigned(value, "intermediate_size"),
            num_experts: read_unsigned(value, "num_experts"),
            num_experts_per_tok: read_unsigned(value, "num_experts_per_tok"),
            rms_norm_eps: read_number(value, "rms_norm_eps"),
            rope_theta: read_number(value, "rope_theta"),
            max_position_embeddings: read_unsigned(value, "max_position_embeddings"),
        };
        settings.config()
    }

    /// Every width that the weights have fits.
    pub open spec fn fits(&self) -> bool {
        &&& self.num_attention_heads * self.head_dim + 2 * (self.num_key_value_heads * self.head_dim) <= usize::MAX
    }
}

/// An expert.
#[derive(Debug, Clone, Copy)]
pub struct MiniMaxM3Expert {
    pub hidden_size: usize,
    pub intermediate_size: usize,
}

/// The names of an expert's weights.
#[verifier::allow_in_spec]
pub fn expert_names() -> GatedNames
    returns
        (GatedNames { gate: "w1", up: "w3", down: "w2" }),
{
    GatedNames { gate: "w1", up: "w3", down: "w2" }
}

impl MiniMaxM3Expert {
    /// The weights of expert `expert` of a layer.
    pub fn load(layer: usize, expert: usize, hidden_size: usize, intermediate_size: usize) -> (plan:
        Vec<LoadStep>)
        ensures
            plan@ == expert_plan(
                "model.layers",
                layer,
                "block_sparse_moe.experts",
                expert,
                hidden_size,
                intermediate_size,
                expert_names(),
            ),
    {
        let base = "model.layers";
        let scope = "block_sparse_moe.experts";
        vec![
            linear_shape(
                in_expert(base, layer, scope, expert, "w1"),
                hidden_size,
                intermediate_size,
            ),
            linear_shape(
                in_expert(base, layer, scope, expert, "w3"),
                hidden_size,
                intermediate_size,
            ),
            linear_shape(
                in_expert(base, layer, scope, expert, "w2"),
                intermediate_size,
                hidden_size,
            ),
        ]
    }

    /// The operations of an expert.
    pub fn forward(&self) -> (ops: Vec<BlockOp>)
        ensures
            ops@ == gated_ops(
                Reg::FfnInput,
                self.hidden_size,
                self.intermediate_size,
                Activation::Silu,
            ),
    {
        gated_program(self.hidden_size, self.intermediate_size, Activation::Silu)
    }
}

/// The mixture of a block.
#[derive(Debug, Clone, Copy)]
pub struct MiniMaxM3BlockSparseMoe {
    pub num_experts: usize,
    pub num_experts_per_tok: usize,
}

/// The weights of the mixture of a layer.
pub open spec fn sparse_moe_plan(cfg: &MiniMaxM3Config, layer: usize) -> Seq<LoadStep> {
    seq![
        linear_shape(
            in_layer("model.layers", layer, "block_sparse_moe", "gate"),
            cfg.hidden_size,
            cfg.num_experts,
        ),
    ] + experts_plan(
        "model.layers",
        layer,
        "block_sparse_moe.experts",
        cfg.num_experts as nat,
        cfg.hidden_size,
        cfg.intermediate_size,
        expert_names(),
    )
}

/// Where the experts of a call run.
#[derive(Debug, Clone, Copy, PartialEq, Eq, Structural)]
pub enum ExpertRunner {
    /// The device, and the host where the device cannot.
    DeviceFirst,
    /// The host.
    Host,
}

impl MiniMaxM3BlockSparseMoe {
    /// The mixture of a configuration.
    pub fn new(cfg: &MiniMaxM3Config) -> (moe: MiniMaxM3BlockSparseMoe)
        ensures
            moe == (MiniMaxM3BlockSparseMoe {
                num_experts: cfg.num_experts,
                num_experts_per_tok: cfg.num_experts_per_tok,
            }),
    {
        MiniMaxM3BlockSparseMoe {
            num_experts: cfg.num_experts,
            num_experts_per_tok: cfg.num_experts_per_tok,
        }
    }

    /// The router and every expert of a layer.
    pub fn load(cfg: &MiniMaxM3Config, layer: usize) -> (plan: Vec<LoadStep>)
        ensures
            plan@ == sparse_moe_plan(cfg, layer),
    {
        let mut plan: Vec<LoadStep> = Vec::new();
        plan.push(
            linear_shape(
                in_layer("model.layers", layer, "block_sparse_moe", "gate"),
                cfg.hidden_size,
                cfg.num_experts,
            ),
        );
        push_experts(
            &mut plan,
            "model.layers",
            layer,
            "block_sparse_moe.experts",
            cfg.num_experts,
            cfg.hidden_size,
            cfg.intermediate_size,
            expert_names(),
        );
        assert(plan@ =~= sparse_moe_plan(cfg, layer));
        plan
    }

    /// Decides where the experts of a call run: on a ROCm device the device is
    /// tried first, everywhere else the host runs them.
    pub fn forward(&self, device: Device) -> (runner: ExpertRunner)
        ensures
            runner == (if device.rocm() {
                ExpertRunner::DeviceFirst
            } else {
                ExpertRunner::Host
            }),
    {
        if device.is_rocm() {
            ExpertRunner::DeviceFirst
        } else {
            ExpertRunner::Host
        }
    }

    /// Routes every token to its best experts and adds what they give, weighed
    /// by the softmax over the chosen scores.
    ///
    /// `scores` are the router's; `run` runs one expert on one row.
    pub fn forward_moe_host<
        T: Copy,
        F: Fn(ScalarOp, T, T) -> T,
        C: Fn(Number) -> T,
        Z: Fn(Relation, T, T) -> bool,
        R: Fn(usize, Vec<T>) -> Vec<T>,
    >(
        &self,
        x: &Scalars<T, F, C, Z>,
        rows: &[T],
        scores: &[T],
        tokens: usize,
        hidden: usize,
        run: R,
    ) -> (out: Vec<T>)
        requires
            x.wf(),
            rows@.len() == tokens * hidden,
            scores@.len() == tokens * self.num_experts,
            forall|s: int|
                0 <= s < tokens ==> x.orders(
                    #[trigger] scores@.subrange(
                        s * self.num_experts,
                        s * self.num_experts + self.num_experts,
                    ),
                ),
            forall|e: usize, a: Vec<T>|
                e < self.num_experts && a@.len() == hidden ==> #[trigger] call_requires(
                    run,
                    (e, a),
                ),
            forall|e: usize, a: Vec<T>, r: Vec<T>| #[trigger]
                call_ensures(run, (e, a), r) && a@.len() == hidden ==> r@.len() == hidden,
        ensures
            out@.len() == tokens * hidden,
            forall|s: int|
                0 <= s < tokens ==> #[trigger] x.token_routed(
                    run,
                    rows@,
                    scores@,
                    hidden as nat,
                    self.num_experts as nat,
                    self.num_experts_per_tok as nat,
                    None,
                    out@,
                    s,
                ),
    {
        route_tokens(
            x,
            rows,
            scores,
            tokens,
            hidden,
            self.num_experts,
            self.num_experts_per_tok,
            None,
            run,
        )
    }
}

/// The weights of a layer.
pub open spec fn minimax_m3_layer_plan(cfg: &MiniMaxM3Config, layer: usize) -> Seq<LoadStep> {
    let q = (cfg.num_attention_heads * cfg.head_dim) as usize;
    let kv = (cfg.num_key_value_heads * cfg.head_dim) as usize;
    let hidden = cfg.hidden_size;
    seq![
        linear_shape(in_layer("model.layers", layer, "self_attn", "q_proj"), hidden, q),
        linear_shape(in_layer("model.layers", layer, "self_attn", "k_proj"), hidden, kv),
        linear_shape(in_layer("model.layers", layer, "self_attn", "v_proj"), hidden, kv),
        linear_shape(in_layer("model.layers", layer, "self_attn", "o_proj"), q, hidden),
        rms_norm(in_layer("model.layers", layer, "", "input_layernorm"), hidden),
        rms_norm(in_layer("model.layers", layer, "", "post_attention_layernorm"), hidden),
    ] + sparse_moe_plan(cfg, layer)
}

/// A block of a model.
#[derive(Debug, Clone, Copy)]
pub struct MiniMaxM3Block {
    pub design: BlockDesign,
}

/// The parts of a block.
pub open spec fn minimax_m3_design(cfg: &MiniMaxM3Config) -> BlockDesign {
    BlockDesign {
        hidden: cfg.hidden_size,
        inter: cfg.intermediate_size,
        attention: AttentionDesign {
            heads: cfg.num_attention_heads,
            kv_heads: cfg.num_key_value_heads,
            head_dim: cfg.head_dim,
            cached: true,
            window: None,
            softcap: None,
        },
        layer_norm: false,
        fused_qkv: false,
        qk_norm: false,
        rope_theta: Some(cfg.rope_theta),
        rotary_dim: cfg.head_dim,
        rope_sections: None,
        post_attn_norm: false,
        ffn_input: FfnInput::NormedResidual,
        ffn: Ffn::Experts,
        post_ffn_norm: false,
        residual_scale: None,
    }
}

impl MiniMaxM3Block {
    /// A block of a configuration.
    pub fn new(cfg: &MiniMaxM3Config) -> (block: MiniMaxM3Block)
        requires
            cfg.fits(),
        ensures
            block.design == minimax_m3_design(cfg),
    {
        MiniMaxM3Block {
            design: BlockDesign {
                hidden: cfg.hidden_size,
                inter: cfg.intermediate_size,
                attention: AttentionDesign {
                    heads: cfg.num_attention_heads,
                    kv_heads: cfg.num_key_value_heads,
                    head_dim: cfg.head_dim,
                    cached: true,
                    window: None,
                    softcap: None,
                },
                layer_norm: false,
                fused_qkv: false,
                qk_norm: false,
                rope_theta: Some(cfg.rope_theta),
                rotary_dim: cfg.head_dim,
                rope_sections: None,
                post_attn_norm: false,
                ffn_input: FfnInput::NormedResidual,
                ffn: Ffn::Experts,
                post_ffn_norm: false,
                residual_scale: None,
            },
        }
    }

    /// The weights of a layer.
    pub fn load(cfg: &MiniMaxM3Config, layer: usize) -> (plan: Vec<LoadStep>)
        requires
            cfg.fits(),
        ensures
            plan@ == minimax_m3_layer_plan(cfg, layer),
    {
        let q: usize = cfg.num_attention_heads * cfg.head_dim;
        let kv: usize = cfg.num_key_value_heads * cfg.head_dim;
        let hidden: usize = cfg.hidden_size;
        let mut plan = vec![
            linear_shape(in_layer("model.layers", layer, "self_attn", "q_proj"), hidden, q),
            linear_shape(in_layer("model.layers", layer, "self_attn", "k_proj"), hidden, kv),
            linear_shape(in_layer("model.layers", layer, "self_attn", "v_proj"), hidden, kv),
            linear_shape(in_layer("model.layers", layer, "self_attn", "o_proj"), q, hidden),
            rms_norm(in_layer("model.layers", layer, "", "input_layernorm"), hidden),
            rms_norm(in_layer("model.layers", layer, "", "post_attention_layernorm"), hidden),
        ];
        let mut moe = MiniMaxM3BlockSparseMoe::load(cfg, layer);
        plan.append(&mut moe);
        assert(plan@ =~= minimax_m3_layer_plan(cfg, layer));
        plan
    }

    /// The operations of a block.
    pub fn forward(&self) -> (ops: Vec<BlockOp>)
        requires
            self.design.fits(),
        ensures
            ops@ == self.design.ops(),
    {
        self.design.program()
    }
}

/// A model.
#[derive(Debug, Clone, Copy)]
pub struct MiniMaxM3 {
    pub cfg: MiniMaxM3Config,
}

/// The plan names every weight of a model.
pub open spec fn minimax_m3_planned(cfg: &MiniMaxM3Config, plan: &ModelPlan) -> bool {
    &&& plan.tok_embeddings == linear_shape(plain("model", "embed_tokens"), cfg.vocab_size, cfg.hidden_size)
    &&& plan.layers@.len() == cfg.num_hidden_layers
    &&& forall|i: int|
        0 <= i < cfg.num_hidden_layers ==> (#[trigger] plan.layers@[i])@ == minimax_m3_layer_plan(cfg, i as usize)
    &&& plan.norm == rms_norm(plain("model", "norm"), cfg.hidden_size)
    &&& plan.output == Some(
        optional(
            plain("", "lm_head"),
            Weight::LinearShape { d0: cfg.hidden_size, d1: cfg.vocab_size },
            Fallback::TiedEmbedding,
        ),
    )
    &&& plan.positions is None
}

impl MiniMaxM3 {
    /// The weights that a model asks for.
    pub fn load(cfg: &MiniMaxM3Config) -> (plan: ModelPlan)
        requires
            cfg.fits(),
        ensures
            minimax_m3_planned(cfg, &plan),
    {
        Self::load_tp(cfg)
    }

    /// The weights that a model asks for, each device holding them all.
    pub fn load_tp(cfg: &MiniMaxM3Config) -> (plan: ModelPlan)
        requires
            cfg.fits(),
        ensures
            minimax_m3_planned(cfg, &plan),
    {
        let mut layers: Vec<Vec<LoadStep>> = Vec::new();
        let mut i: usize = 0;
        while i < cfg.num_hidden_layers
            invariant
                i <= cfg.num_hidden_layers,
                cfg.fits(),
                layers@.len() == i,
                forall|j: int|
                    0 <= j < i ==> (#[trigger] layers@[j])@ == minimax_m3_layer_plan(cfg, j as usize),
            decreases cfg.num_hidden_layers - i,
        {
            layers.push(MiniMaxM3Block::load(cfg, i));
            i = i + 1;
        }
        ModelPlan {
            tok_embeddings: linear_shape(plain("model", "embed_tokens"), cfg.vocab_size, cfg.hidden_size),
            positions: None,
            layers,
            norm: rms_norm(plain("model", "norm"), cfg.hidden_size),
            output: Some(
        optional(
            plain("", "lm_head"),
            Weight::LinearShape { d0: cfg.hidden_size, d1: cfg.vocab_size },
            Fallback::TiedEmbedding,
        ),
    ),
        }
    }

    /// The stages of a pass over `tokens` tokens. The histories of the
    /// layers are the session's.
    pub fn forward(&self, tokens: usize) -> (stages: Vec<Stage>)
        ensures
            stages@ == (PassDesign {
                layers: self.cfg.num_hidden_layers,
                positions: false,
                sqrt_scale: None,
                keeps_hidden: false,
                softcap: None,
                advances: true
            }).stages(tokens),
    {
        let design = PassDesign {
            layers: self.cfg.num_hidden_layers,
            positions: false,
            sqrt_scale: None,
            keeps_hidden: false,
            softcap: None,
            advances: true
        };
        design.pass(tokens)
    }
}

} // verus!
