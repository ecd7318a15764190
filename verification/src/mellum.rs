//! Mellum 2: a mixture without a shared expert in every layer of the backbone.

use crate::json::{
    nested_setting, number, number_setting, read_nested, read_number, read_unsigned, real_of, size,
    size_of, unsigned_setting,
};
use crate::layer_specs::{LlamaConfig, MoESpec, RouterKind};
use crate::modality::ModalityHint;
use crate::numeric::{standard_yarn, Real, YarnParams, ONE};
use crate::rows::filled;
use vstd::prelude::*;

verus! {

/// The settings of a Mellum model.
#[derive(Debug, Clone, Copy)]
pub struct MellumConfig {
    pub vocab_size: usize,
    pub hidden_size: usize,
    pub num_heads: usize,
    pub num_kv_heads: usize,
    pub head_dim: usize,
    pub num_layers: usize,
    pub intermediate_size: usize,
    pub moe_intermediate_size: usize,
    pub num_experts: usize,
    pub num_experts_per_tok: usize,
    pub rms_norm_eps: Real,
    pub rope_theta: Real,
    pub max_seq_len: usize,
    pub sliding_window: usize,
}

/// What a settings file says, as far as this model reads it.
#[derive(Debug, Clone, Copy)]
pub struct MellumSettings {
    pub vocab_size: Option<u64>,
    pub hidden_size: Option<u64>,
    pub num_heads: Option<u64>,
    pub num_kv_heads: Option<u64>,
    pub head_dim: Option<u64>,
    pub num_layers: Option<u64>,
    pub intermediate_size: Option<u64>,
    pub moe_intermediate_size: Option<u64>,
    pub num_experts: Option<u64>,
    pub num_experts_per_tok: Option<u64>,
    pub rms_norm_eps: Option<u64>,
    pub rope_theta: Option<u64>,
    /// The rotation base that stands with the full-attention layers.
    pub full_rope_theta: Option<u64>,
    pub max_seq_len: Option<u64>,
    pub sliding_window: Option<u64>,
}

impl MellumSettings {
    /// The settings under their keys in a file.
    pub open spec fn of(value: serde_json::Value) -> MellumSettings {
        MellumSettings {
            vocab_size: unsigned_setting(value, "vocab_size"@),
            hidden_size: unsigned_setting(value, "hidden_size"@),
            num_heads: unsigned_setting(value, "num_attention_heads"@),
            num_kv_heads: unsigned_setting(value, "num_key_value_heads"@),
            head_dim: unsigned_setting(value, "head_dim"@),
            num_layers: unsigned_setting(value, "num_hidden_layers"@),
            intermediate_size: unsigned_setting(value, "intermediate_size"@),
            moe_intermediate_size: unsigned_setting(value, "moe_intermediate_size"@),
            num_experts: unsigned_setting(value, "num_experts"@),
            num_experts_per_tok: unsigned_setting(value, "num_experts_per_tok"@),
            rms_norm_eps: number_setting(value, "rms_norm_eps"@),
            rope_theta: number_setting(value, "rope_theta"@),
            full_rope_theta: nested_setting(
                value,
                "/rope_parameters/full_attention/rope_theta"@,
            ),
            max_seq_len: unsigned_setting(value, "max_position_embeddings"@),
            sliding_window: unsigned_setting(value, "sliding_window"@),
        }
    }

    /// The configuration that the settings give: what is absent is zero. A
    /// rotation base that is not given by itself is that of the full-attention
    /// layers.
    pub open spec fn spec_config(self) -> MellumConfig {
        MellumConfig {
            vocab_size: size_of(self.vocab_size),
            hidden_size: size_of(self.hidden_size),
            num_heads: size_of(self.num_heads),
            num_kv_heads: size_of(self.num_kv_heads),
            head_dim: size_of(self.head_dim),
            num_layers: size_of(self.num_layers),
            intermediate_size: size_of(self.intermediate_size),
            moe_intermediate_size: match self.moe_intermediate_size {
                Some(n) => n as usize,
                None => size_of(self.intermediate_size),
            },
            num_experts: size_of(self.num_experts),
            num_experts_per_tok: size_of(self.num_experts_per_tok),
            rms_norm_eps: real_of(self.rms_norm_eps),
            rope_theta: match self.rope_theta {
                Some(bits) => Real { bits },
                None => real_of(self.full_rope_theta),
            },
            max_seq_len: size_of(self.max_seq_len),
            sliding_window: size_of(self.sliding_window),
        }
    }

    /// The configuration that the settings give.
    pub fn config(&self) -> (cfg: MellumConfig)
        ensures
            cfg == self.spec_config(),
    {
        MellumConfig {
            vocab_size: size(self.vocab_size),
            hidden_size: size(self.hidden_size),
            num_heads: size(self.num_heads),
            num_kv_heads: size(self.num_kv_heads),
            head_dim: size(self.head_dim),
            num_layers: size(self.num_layers),
            intermediate_size: size(self.intermediate_size),
            moe_intermediate_size: match self.moe_intermediate_size {
                Some(n) => n as usize,
                None => size(self.intermediate_size),
            },
            num_experts: size(self.num_experts),
            num_experts_per_tok: size(self.num_experts_per_tok),
            rms_norm_eps: number(self.rms_norm_eps),
            rope_theta: match self.rope_theta {
                Some(bits) => Real { bits },
                None => number(self.full_rope_theta),
            },
            max_seq_len: size(self.max_seq_len),
            sliding_window: size(self.sliding_window),
        }
    }
}

impl MellumConfig {
    /// The family's name.
    pub fn name(&self) -> (name: &'static str)
        ensures
            name@ == "mellum"@,
    {
        "mellum"
    }

    /// Text in, text out.
    pub fn modality(&self) -> (m: ModalityHint)
        ensures
            m == ModalityHint::TextInTextOut,
    {
        ModalityHint::TextInTextOut
    }

    /// Reads the configuration out of a settings file.
    pub fn from_hf(value: &serde_json::Value) -> (cfg: MellumConfig)
        ensures
            cfg == MellumSettings::of(*value).spec_config(),
    {
        let settings = MellumSettings {
            vocab_size: read_unsigned(value, "vocab_size"),
            hidden_size: read_unsigned(value, "hidden_size"),
            num_heads: read_unsigned(value, "num_attention_heads"),
            num_kv_heads: read_unsigned(value, "num_key_value_heads"),
            head_dim: read_unsigned(value, "head_dim"),
            num_layers: read_unsigned(value, "num_hidden_layers"),
            intermediate_size: read_unsigned(value, "intermediate_size"),
            moe_intermediate_size: read_unsigned(value, "moe_intermediate_size"),
            num_experts: read_unsigned(value, "num_experts"),
            num_experts_per_tok: read_unsigned(value, "num_experts_per_tok"),
            rms_norm_eps: read_number(value, "rms_norm_eps"),
            rope_theta: read_number(value, "rope_theta"),
            full_rope_theta: read_nested(value, "/rope_parameters/full_attention/rope_theta"),
            max_seq_len: read_unsigned(value, "max_position_embeddings"),
            sliding_window: read_unsigned(value, "sliding_window"),
        };
        settings.config()
    }

    /// Whether the model routes to experts.
    pub fn is_moe(&self) -> (r: bool)
        ensures
            r == (self.num_experts > 0),
    {
        self.num_experts > 0
    }

    /// The name under which the family is registered.
    pub fn architecture_name(&self) -> (name: &'static str)
        ensures
            name@ == "mellum"@,
    {
        "mellum"
    }

    /// The settings of the backbone.
    pub open spec fn llama(&self) -> LlamaConfig {
        LlamaConfig {
            vocab_size: self.vocab_size,
            hidden_size: self.hidden_size,
            num_heads: self.num_heads,
            num_kv_heads: self.num_kv_heads,
            head_dim: self.head_dim,
            num_layers: self.num_layers,
            intermediate_size: self.intermediate_size,
            rms_norm_eps: self.rms_norm_eps,
            rope_theta: self.rope_theta,
            max_seq_len: self.max_seq_len,
            partial_rotary_factor: Real { bits: ONE },
            yarn: Some(standard_yarn(self.max_seq_len)),
        }
    }

    /// The mixture of every layer.
    pub open spec fn mixture(&self) -> MoESpec {
        MoESpec {
            num_experts: self.num_experts,
            top_k: self.num_experts_per_tok,
            router_kind: RouterKind::SoftmaxTopK,
            routed_scaling_factor: Real { bits: ONE },
            has_shared_expert: false,
            moe_intermediate_size: Some(self.moe_intermediate_size),
            shared_expert_intermediate_size: None,
            transposed_expert_layout: false,
        }
    }
}

/// How a model is put together.
pub struct MellumPlan {
    pub llama: LlamaConfig,
    pub moe: Vec<Option<MoESpec>>,
}

/// A model.
#[derive(Debug, Clone, Copy)]
pub struct Mellum {
    pub cfg: MellumConfig,
}

impl Mellum {
    /// How a model is put together on its backbone.
    pub fn load(cfg: &MellumConfig) -> (plan: MellumPlan)
        ensures
            plan.llama == cfg.llama(),
            plan.moe@ == Seq::new(cfg.num_layers as nat, |i: int| Some(cfg.mixture())),
    {
        Self::load_tp(cfg)
    }

    /// How a model is put together on its backbone.
    pub fn load_tp(cfg: &MellumConfig) -> (plan: MellumPlan)
        ensures
            plan.llama == cfg.llama(),
            plan.moe@ == Seq::new(cfg.num_layers as nat, |i: int| Some(cfg.mixture())),
    {
        let llama = LlamaConfig {
            vocab_size: cfg.vocab_size,
            hidden_size: cfg.hidden_size,
            num_heads: cfg.num_heads,
            num_kv_heads: cfg.num_kv_heads,
            head_dim: cfg.head_dim,
            num_layers: cfg.num_layers,
            intermediate_size: cfg.intermediate_size,
            rms_norm_eps: cfg.rms_norm_eps,
            rope_theta: cfg.rope_theta,
            max_seq_len: cfg.max_seq_len,
            partial_rotary_factor: Real { bits: ONE },
            yarn: Some(YarnParams::standard(cfg.max_seq_len)),
        };
        let spec = MoESpec {
            num_experts: cfg.num_experts,
            top_k: cfg.num_experts_per_tok,
            router_kind: RouterKind::SoftmaxTopK,
            routed_scaling_factor: Real { bits: ONE },
            has_shared_expert: false,
            moe_intermediate_size: Some(cfg.moe_intermediate_size),
            shared_expert_intermediate_size: None,
            transposed_expert_layout: false,
        };
        let moe = filled(Some(spec), cfg.num_layers);
        MellumPlan { llama, moe }
    }
}

} // verus!
