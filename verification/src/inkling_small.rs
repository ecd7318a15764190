//! Inkling-Small: its settings and the names of its weights. The forward pass is
//! not there.

use crate::device::Device;
use crate::error::Error;
use crate::json::{
    number, number_setting, read_number, read_unsigned, real_of, size, size_of, unsigned_setting,
};
use crate::modality::ModalityHint;
use crate::numeric::Real;
use crate::stages::Stage;
use vstd::prelude::*;

verus! {

/// The settings of an Inkling-Small model.
#[derive(Debug, Clone, Copy)]
pub struct InklingSmallConfig {
    pub vocab_size: usize,
    pub hidden_size: usize,
    pub num_attention_heads: usize,
    pub num_key_value_heads: usize,
    pub head_dim: usize,
    pub num_hidden_layers: usize,
    pub intermediate_size: usize,
    pub rms_norm_eps: Real,
    pub rope_theta: Real,
    pub max_position_embeddings: usize,
}

/// What a settings file says, as far as this model reads it.
#[derive(Debug, Clone, Copy)]
pub struct InklingSmallSettings {
    pub vocab_size: Option<u64>,
    pub hidden_size: Option<u64>,
    pub num_attention_heads: Option<u64>,
    pub num_key_value_heads: Option<u64>,
    pub head_dim: Option<u64>,
    pub num_hidden_layers: Option<u64>,
    pub intermediate_size: Option<u64>,
    pub rms_norm_eps: Option<u64>,
    pub rope_theta: Option<u64>,
    pub max_position_embeddings: Option<u64>,
}

impl InklingSmallSettings {
    /// The settings under their keys in a file.
    pub open spec fn of(value: serde_json::Value) -> InklingSmallSettings {
        InklingSmallSettings {
            vocab_size: unsigned_setting(value, "vocab_size"@),
            hidden_size: unsigned_setting(value, "hidden_size"@),
            num_attention_heads: unsigned_setting(value, "num_attention_heads"@),
            num_key_value_heads: unsigned_setting(value, "num_key_value_heads"@),
            head_dim: unsigned_setting(value, "head_dim"@),
            num_hidden_layers: unsigned_setting(value, "num_hidden_layers"@),
            intermediate_size: unsigned_setting(value, "intermediate_size"@),
            rms_norm_eps: number_setting(value, "rms_norm_eps"@),
            rope_theta: number_setting(value, "rope_theta"@),
            max_position_embeddings: unsigned_setting(value, "max_position_embeddings"@),
        }
    }

    /// The configuration that the settings give: what is absent is zero.
    pub open spec fn spec_config(self) -> InklingSmallConfig {
        InklingSmallConfig {
            vocab_size: size_of(self.vocab_size),
            hidden_size: size_of(self.hidden_size),
            num_attention_heads: size_of(self.num_attention_heads),
            num_key_value_heads: size_of(self.num_key_value_heads),
            head_dim: size_of(self.head_dim),
            num_hidden_layers: size_of(self.num_hidden_layers),
            intermediate_size: size_of(self.intermediate_size),
            rms_norm_eps: real_of(self.rms_norm_eps),
            rope_theta: real_of(self.rope_theta),
            max_position_embeddings: size_of(self.max_position_embeddings),
        }
    }

    /// The configuration that the settings give.
    pub fn config(&self) -> (cfg: InklingSmallConfig)
        ensures
            cfg == self.spec_config(),
    {
        InklingSmallConfig {
            vocab_size: size(self.vocab_size),
            hidden_size: size(self.hidden_size),
            num_attention_heads: size(self.num_attention_heads),
            num_key_value_heads: size(self.num_key_value_heads),
            head_dim: size(self.head_dim),
            num_hidden_layers: size(self.num_hidden_layers),
            intermediate_size: size(self.intermediate_size),
            rms_norm_eps: number(self.rms_norm_eps),
            rope_theta: number(self.rope_theta),
            max_position_embeddings: size(self.max_position_embeddings),
        }
    }
}

impl InklingSmallConfig {
    /// The family's name.
    pub fn name(&self) -> (name: &'static str)
        ensures
            name@ == "inkling_small"@,
    {
        "inkling_small"
    }

    /// Text in, text out.
    pub fn modality(&self) -> (m: ModalityHint)
        ensures
            m == ModalityHint::TextInTextOut,
    {
        ModalityHint::TextInTextOut
    }

    /// Reads the configuration out of a settings file.
    pub fn from_hf(value: &serde_json::Value) -> (cfg: InklingSmallConfig)
        ensures
            cfg == InklingSmallSettings::of(*value).spec_config(),
    {
        let settings = InklingSmallSettings {
            vocab_size: read_unsigned(value, "vocab_size"),
            hidden_size: read_unsigned(value, "hidden_size"),
            num_attention_heads: read_unsigned(value, "num_attention_heads"),
            num_key_value_heads: read_unsigned(value, "num_key_value_heads"),
            head_dim: read_unsigned(value, "head_dim"),
            num_hidden_layers: read_unsigned(value, "num_hidden_layers"),
            intermediate_size: read_unsigned(value, "intermediate_size"),
            rms_norm_eps: read_number(value, "rms_norm_eps"),
            rope_theta: read_number(value, "rope_theta"),
            max_position_embeddings: read_unsigned(value, "max_position_embeddings"),
        };
        settings.config()
    }
}

/// The names of the weights; `{i}` stands for the index of a layer.
pub const INKLING_SMALL_TENSOR_KEYS: [&'static str; 12] = [
    "model.embed_tokens.weight",
    "model.norm.weight",
    "lm_head.weight",
    "model.layers.{i}.input_layernorm.weight",
    "model.layers.{i}.post_attention_layernorm.weight",
    "model.layers.{i}.self_attn.q_proj.weight",
    "model.layers.{i}.self_attn.k_proj.weight",
    "model.layers.{i}.self_attn.v_proj.weight",
    "model.layers.{i}.self_attn.o_proj.weight",
    "model.layers.{i}.mlp.gate_proj.weight",
    "model.layers.{i}.mlp.up_proj.weight",
    "model.layers.{i}.mlp.down_proj.weight",
];

/// A model.
#[derive(Debug, Clone, Copy)]
pub struct InklingSmall {
    pub cfg: InklingSmallConfig,
    pub device: Device,
}

impl InklingSmall {
    /// A model on a device. No weight is asked for.
    pub fn load(device: Device, cfg: InklingSmallConfig) -> (model: InklingSmall)
        ensures
            model.cfg == cfg,
            model.device == device,
    {
        Self::load_tp(device, cfg)
    }

    /// A model on a device. No weight is asked for.
    pub fn load_tp(device: Device, cfg: InklingSmallConfig) -> (model: InklingSmall)
        ensures
            model.cfg == cfg,
            model.device == device,
    {
        InklingSmall { cfg, device }
    }

    /// Refused: the pass is not there.
    pub fn forward(&self) -> (result: Result<Vec<Stage>, Error>)
        ensures
            result == Err::<Vec<Stage>, Error>(
                Error::Unimplemented { what: "InklingSmall forward pass" },
            ),
    {
        Err(Error::Unimplemented { what: "InklingSmall forward pass" })
    }
}

} // verus!
