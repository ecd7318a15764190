//! Maple: three sliding layers to one full layer, and a mixture with a shared
//! expert.

use crate::flags::same_text;
use crate::layer_specs::{
    mix_layers, mixed_layers, BackbonePlan, HybridAttention, LlamaConfig, MoESpec, RopeConfig,
    RouterKind,
};
use crate::modality::ModalityHint;
use crate::numeric::{Real, YarnParams, HALF_MILLION, HUNDRED_THOUSANDTH, ONE, TEN_THOUSAND};
use vstd::prelude::*;

verus! {

/// The settings of a Maple model.
#[derive(Debug)]
pub struct MapleConfig {
    pub vocab_size: usize,
    pub hidden_size: usize,
    pub num_heads: usize,
    pub num_kv_heads: usize,
    pub head_dim: usize,
    pub num_layers: usize,
    pub intermediate_size: usize,
    pub moe_intermediate_size: usize,
    pub shared_expert_intermediate_size: usize,
    pub num_experts: usize,
    pub num_experts_per_tok: usize,
    pub routed_scaling_factor: Real,
    pub rms_norm_eps: Real,
    pub rope_theta: Real,
    pub max_seq_len: usize,
    pub mlp_only_layers: Vec<usize>,
    pub layer_types: Vec<String>,
    pub sliding_window: usize,
    pub num_attention_heads_per_layer: Vec<usize>,
    pub full_rope_theta: Real,
    pub sliding_rope_theta: Real,
    pub full_partial_rotary_factor: Real,
    pub sliding_partial_rotary_factor: Real,
    pub gating: String,
    pub full_yarn: Option<YarnParams>,
}

/// The kind of layer `i` of the usual stack.
pub open spec fn usual_type(i: int) -> Seq<char> {
    if i % 4 == 3 {
        "full_attention"@
    } else {
        "sliding_attention"@
    }
}

impl Default for MapleConfig {
    fn default() -> (cfg: Self)
        ensures
            cfg.vocab_size == 128000,
            cfg.hidden_size == 2048,
            cfg.num_heads == 32,
            cfg.num_kv_heads == 8,
            cfg.head_dim == 64,
            cfg.num_layers == 24,
            cfg.intermediate_size == 8192,
            cfg.moe_intermediate_size == 512,
            cfg.shared_expert_intermediate_size == 512,
            cfg.num_experts == 256,
            cfg.num_experts_per_tok == 8,
            cfg.routed_scaling_factor == (Real { bits: ONE }),
            cfg.rms_norm_eps == (Real { bits: HUNDRED_THOUSANDTH }),
            cfg.rope_theta == (Real { bits: TEN_THOUSAND }),
            cfg.max_seq_len == 131072,
            cfg.sliding_window == 512,
            cfg.full_rope_theta == (Real { bits: HALF_MILLION }),
            cfg.sliding_rope_theta == (Real { bits: TEN_THOUSAND }),
            cfg.full_partial_rotary_factor == (Real { bits: ONE }),
            cfg.sliding_partial_rotary_factor == (Real { bits: ONE }),
            cfg.full_yarn == None::<YarnParams>,
            cfg.mlp_only_layers@ == Seq::<usize>::empty(),
            cfg.layer_types@.len() == 24,
            forall|i: int|
                0 <= i < 24 ==> (#[trigger] cfg.layer_types@[i])@ == usual_type(i),
            cfg.num_attention_heads_per_layer@ == Seq::new(24, |i: int| 32usize),
            cfg.gating@ == "per-head"@,
    {
        let mut layer_types: Vec<String> = Vec::new();
        let mut num_attention_heads_per_layer: Vec<usize> = Vec::new();
        let mut i: usize = 0;
        while i < 24
            invariant
                i <= 24,
                layer_types@.len() == i,
                forall|j: int| 0 <= j < i ==> (#[trigger] layer_types@[j])@ == usual_type(j),
                num_attention_heads_per_layer@ == Seq::new(i as nat, |i: int| 32usize),
            decreases 24 - i,
        {
            if i % 4 == 3 {
                layer_types.push("full_attention".to_owned());
            } else {
                layer_types.push("sliding_attention".to_owned());
            }
            num_attention_heads_per_layer.push(32);
            i = i + 1;
        }
        let mlp_only_layers: Vec<usize> = vec![];
        let gating = "per-head".to_owned();
        MapleConfig {
            vocab_size: 128000,
            hidden_size: 2048,
            num_heads: 32,
            num_kv_heads: 8,
            head_dim: 64,
            num_layers: 24,
            intermediate_size: 8192,
            moe_intermediate_size: 512,
            shared_expert_intermediate_size: 512,
            num_experts: 256,
            num_experts_per_tok: 8,
            routed_scaling_factor: (Real { bits: ONE }),
            rms_norm_eps: (Real { bits: HUNDRED_THOUSANDTH }),
            rope_theta: (Real { bits: TEN_THOUSAND }),
            max_seq_len: 131072,
            mlp_only_layers,
            layer_types,
            sliding_window: 512,
            num_attention_heads_per_layer,
            full_rope_theta: (Real { bits: HALF_MILLION }),
            sliding_rope_theta: (Real { bits: TEN_THOUSAND }),
            full_partial_rotary_factor: (Real { bits: ONE }),
            sliding_partial_rotary_factor: (Real { bits: ONE }),
            gating,
            full_yarn: None::<YarnParams>,
        }
    }
}

impl MapleConfig {
    /// The family's name.
    pub fn name(&self) -> (name: &'static str)
        ensures
            name@ == "maple"@,
    {
        "maple"
    }

    /// Text in, text out.
    pub fn modality(&self) -> (m: ModalityHint)
        ensures
            m == ModalityHint::TextInTextOut,
    {
        ModalityHint::TextInTextOut
    }

    /// The settings of the backbone.
    pub open spec fn llama(&self) -> LlamaConfig {
        LlamaConfig {
            vocab_size: self.vocab_size,
            hidden_size: self.hidden_size,
            num_heads: self.num_heads,
            num_kv_heads: self.num_kv_heads,
            head_dim: self.head_dim,
            num_layers: self.num_layers,
            intermediate_size: self.intermediate_size,
            rms_norm_eps: self.rms_norm_eps,
            rope_theta: self.rope_theta,
            max_seq_len: self.max_seq_len,
            partial_rotary_factor: Real { bits: ONE },
            yarn: None,
        }
    }

    /// The mixture of the routed layers.
    pub open spec fn mixture(&self) -> MoESpec {
        MoESpec {
            num_experts: self.num_experts,
            top_k: self.num_experts_per_tok,
            router_kind: RouterKind::SigmoidTopKWithBias,
            routed_scaling_factor: self.routed_scaling_factor,
            has_shared_expert: true,
            moe_intermediate_size: Some(self.moe_intermediate_size),
            shared_expert_intermediate_size: Some(self.shared_expert_intermediate_size),
            transposed_expert_layout: false,
        }
    }

    /// What the layers have in common, with this many rotated columns in full
    /// and in sliding layers.
    pub open spec fn hybrid(&self, full_rotary: usize, sliding_rotary: usize) -> HybridAttention {
        HybridAttention {
            num_heads: self.num_heads,
            num_kv_heads: self.num_kv_heads,
            full_rope: RopeConfig {
                dim: self.head_dim,
                base: self.full_rope_theta,
                rotary_dim: full_rotary,
                yarn: self.full_yarn,
            },
            sliding_rope: RopeConfig {
                dim: self.head_dim,
                base: self.sliding_rope_theta,
                rotary_dim: sliding_rotary,
                yarn: None,
            },
            sliding_window: self.sliding_window,
            has_attn_gate: self.gating@ == "per-head"@,
        }
    }
}

/// The plan gives the backbone its settings, every layer its mixture and every
/// layer its attention.
pub open spec fn maple_planned(
    cfg: &MapleConfig,
    full_rotary: usize,
    sliding_rotary: usize,
    plan: &BackbonePlan,
) -> bool {
    &&& plan.llama == cfg.llama()
    &&& plan.moe@ == mixed_layers(cfg.num_layers as nat, cfg.mlp_only_layers@, cfg.mixture())
    &&& plan.attention@ == Seq::new(
        cfg.num_layers as nat,
        |i: int|
            cfg.hybrid(full_rotary, sliding_rotary).layer(
                cfg.layer_types@,
                cfg.num_attention_heads_per_layer@,
                i,
            ),
    )
}

/// A model.
pub struct Maple {
    pub cfg: MapleConfig,
}

impl Maple {
    /// How a model is put together on its backbone.
    pub fn load<F: Fn(usize, Real) -> usize>(cfg: &MapleConfig, rounded: F) -> (plan: BackbonePlan)
        requires
            forall|n: usize, factor: Real| #[trigger] call_requires(rounded, (n, factor)),
        ensures
            exists|full: usize, sliding: usize| #[trigger]
                call_ensures(rounded, (cfg.head_dim, cfg.full_partial_rotary_factor), full)
                    && #[trigger] call_ensures(
                    rounded,
                    (cfg.head_dim, cfg.sliding_partial_rotary_factor),
                    sliding,
                ) && maple_planned(cfg, full, sliding, &plan),
    {
        Self::load_tp(cfg, rounded)
    }

    /// How a model is put together on its backbone.
    ///
    /// `rounded` gives the whole number of columns nearest to a fraction of a
    /// head.
    pub fn load_tp<F: Fn(usize, Real) -> usize>(cfg: &MapleConfig, rounded: F) -> (plan: BackbonePlan)
        requires
            forall|n: usize, factor: Real| #[trigger] call_requires(rounded, (n, factor)),
        ensures
            exists|full: usize, sliding: usize| #[trigger]
                call_ensures(rounded, (cfg.head_dim, cfg.full_partial_rotary_factor), full)
                    && #[trigger] call_ensures(
                    rounded,
                    (cfg.head_dim, cfg.sliding_partial_rotary_factor),
                    sliding,
                ) && maple_planned(cfg, full, sliding, &plan),
    {
        let full: usize = rounded(cfg.head_dim, cfg.full_partial_rotary_factor);
        let sliding: usize = rounded(cfg.head_dim, cfg.sliding_partial_rotary_factor);
        let per_head: bool = same_text(cfg.gating.as_str(), "per-head");
        let llama = LlamaConfig {
            vocab_size: cfg.vocab_size,
            hidden_size: cfg.hidden_size,
            num_heads: cfg.num_heads,
            num_kv_heads: cfg.num_kv_heads,
            head_dim: cfg.head_dim,
            num_layers: cfg.num_layers,
            intermediate_size: cfg.intermediate_size,
            rms_norm_eps: cfg.rms_norm_eps,
            rope_theta: cfg.rope_theta,
            max_seq_len: cfg.max_seq_len,
            partial_rotary_factor: Real { bits: ONE },
            yarn: None,
        };
        let spec = MoESpec {
            num_experts: cfg.num_experts,
            top_k: cfg.num_experts_per_tok,
            router_kind: RouterKind::SigmoidTopKWithBias,
            routed_scaling_factor: cfg.routed_scaling_factor,
            has_shared_expert: true,
            moe_intermediate_size: Some(cfg.moe_intermediate_size),
            shared_expert_intermediate_size: Some(cfg.shared_expert_intermediate_size),
            transposed_expert_layout: false,
        };
        let hybrid = HybridAttention {
            num_heads: cfg.num_heads,
            num_kv_heads: cfg.num_kv_heads,
            full_rope: RopeConfig {
                dim: cfg.head_dim,
                base: cfg.full_rope_theta,
                rotary_dim: full,
                yarn: cfg.full_yarn,
            },
            sliding_rope: RopeConfig {
                dim: cfg.head_dim,
                base: cfg.sliding_rope_theta,
                rotary_dim: sliding,
                yarn: None,
            },
            sliding_window: cfg.sliding_window,
            has_attn_gate: per_head,
        };
        let moe = mix_layers(cfg.num_layers, &cfg.mlp_only_layers, spec);
        let attention = hybrid.layers(
            cfg.num_layers,
            &cfg.layer_types,
            &cfg.num_attention_heads_per_layer,
        );
        let plan = BackbonePlan { llama, moe, attention };
        assert(maple_planned(cfg, full, sliding, &plan));
        plan
    }
}

} // verus!
