//! GLM-DSA: a dense backbone, with a selection core for sparse attention where
//! the settings name one.

use crate::layer_specs::LlamaConfig;
use crate::modality::ModalityHint;
use crate::numeric::{Real, MILLIONTH, ONE, TEN_THOUSAND};
use vstd::prelude::*;

verus! {

/// The settings of a GLM-DSA model.
#[derive(Debug, Clone, Copy)]
pub struct GlmDsaConfig {
    pub vocab_size: usize,
    pub hidden_size: usize,
    pub num_heads: usize,
    pub num_kv_heads: usize,
    pub head_dim: usize,
    pub num_layers: usize,
    pub intermediate_size: usize,
    pub rms_norm_eps: Real,
    pub rope_theta: Real,
    pub max_seq_len: usize,
    /// The width of an indexer head.
    pub index_head_dim: usize,
    /// Heads of the indexer.
    pub index_n_heads: usize,
    /// Tokens that the indexer keeps.
    pub index_topk: usize,
}

impl Default for GlmDsaConfig {
    fn default() -> (cfg: Self)
        ensures
            cfg == (GlmDsaConfig {
                vocab_size: 0,
                hidden_size: 0,
                num_heads: 0,
                num_kv_heads: 0,
                head_dim: 0,
                num_layers: 0,
                intermediate_size: 0,
                rms_norm_eps: Real { bits: MILLIONTH },
                rope_theta: Real { bits: TEN_THOUSAND },
                max_seq_len: 0,
                index_head_dim: 0,
                index_n_heads: 0,
                index_topk: 0,
            }),
    {
        GlmDsaConfig {
            vocab_size: 0,
            hidden_size: 0,
            num_heads: 0,
            num_kv_heads: 0,
            head_dim: 0,
            num_layers: 0,
            intermediate_size: 0,
            rms_norm_eps: Real { bits: MILLIONTH },
            rope_theta: Real { bits: TEN_THOUSAND },
            max_seq_len: 0,
            index_head_dim: 0,
            index_n_heads: 0,
            index_topk: 0,
        }
    }
}

/// The sizes of a selection core.
#[derive(Debug, Clone, Copy, PartialEq, Eq, Structural)]
pub struct SparseAttentionConfig {
    pub index_head_dim: usize,
    pub index_n_heads: usize,
    pub index_topk: usize,
}

/// How a model is put together.
#[derive(Debug, Clone, Copy)]
pub struct GlmDsaPlan {
    pub llama: LlamaConfig,
    /// The selection core to make, where there is one. Serving stays dense
    /// without one.
    pub selector: Option<SparseAttentionConfig>,
}

impl GlmDsaConfig {
    /// The family's name.
    pub fn name(&self) -> (name: &'static str)
        ensures
            name@ == "glmdsa"@,
    {
        "glmdsa"
    }

    /// Text in, text out.
    pub fn modality(&self) -> (m: ModalityHint)
        ensures
            m == ModalityHint::TextInTextOut,
    {
        ModalityHint::TextInTextOut
    }

    /// The settings name a selection core: any of its sizes is not zero.
    pub open spec fn sparse(&self) -> bool {
        self.index_head_dim > 0 || self.index_n_heads > 0 || self.index_topk > 0
    }
}

/// A model.
#[derive(Debug, Clone, Copy)]
pub struct GlmDsa {
    pub cfg: GlmDsaConfig,
}

impl GlmDsa {
    /// How a configuration is put together.
    pub open spec fn plan(cfg: &GlmDsaConfig) -> GlmDsaPlan {
        GlmDsaPlan {
            llama: LlamaConfig {
                vocab_size: cfg.vocab_size,
                hidden_size: cfg.hidden_size,
                num_heads: cfg.num_heads,
                num_kv_heads: cfg.num_kv_heads,
                head_dim: cfg.head_dim,
                num_layers: cfg.num_layers,
                intermediate_size: cfg.intermediate_size,
                rms_norm_eps: cfg.rms_norm_eps,
                rope_theta: cfg.rope_theta,
                max_seq_len: cfg.max_seq_len,
                partial_rotary_factor: Real { bits: ONE },
                yarn: None,
            },
            selector: if cfg.sparse() {
                Some(
                    SparseAttentionConfig {
                        index_head_dim: cfg.index_head_dim,
                        index_n_heads: cfg.index_n_heads,
                        index_topk: cfg.index_topk,
                    },
                )
            } else {
                None
            },
        }
    }

    /// How a model is put together on its backbone.
    pub fn load(cfg: &GlmDsaConfig) -> (plan: GlmDsaPlan)
        ensures
            plan == Self::plan(cfg),
    {
        Self::load_tp(cfg)
    }

    /// How a model is put together on its backbone.
    pub fn load_tp(cfg: &GlmDsaConfig) -> (plan: GlmDsaPlan)
        ensures
            plan == Self::plan(cfg),
    {
        let llama = LlamaConfig {
            vocab_size: cfg.vocab_size,
            hidden_size: cfg.hidden_size,
            num_heads: cfg.num_heads,
            num_kv_heads: cfg.num_kv_heads,
            head_dim: cfg.head_dim,
            num_layers: cfg.num_layers,
            intermediate_size: cfg.intermediate_size,
            rms_norm_eps: cfg.rms_norm_eps,
            rope_theta: cfg.rope_theta,
            max_seq_len: cfg.max_seq_len,
            partial_rotary_factor: Real { bits: ONE },
            yarn: None,
        };
        let selector = if cfg.index_head_dim > 0 || cfg.index_n_heads > 0 || cfg.index_topk > 0 {
            Some(
                SparseAttentionConfig {
                    index_head_dim: cfg.index_head_dim,
                    index_n_heads: cfg.index_n_heads,
                    index_topk: cfg.index_topk,
                },
            )
        } else {
            None
        };
        GlmDsaPlan { llama, selector }
    }
}

} // verus!
