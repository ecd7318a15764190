//! Settings of the model families: defaults and what is read out of a
//! configuration document.

use grim_transformer::falcon_h1::FalconH1Config;
use grim_transformer::gemma2::Gemma2Config;
use grim_transformer::gemma3n::Gemma3nConfig;
use grim_transformer::glm5_2::Glm52Config;
use grim_transformer::gptj::GptJConfig;
use grim_transformer::granite_moe_hybrid::GraniteMoeHybridConfig;
use grim_transformer::hunyuan_vl::HunyuanVlConfig;
use grim_transformer::hyv3::HyV3Config;
use grim_transformer::inkling_small::InklingSmallConfig;
use grim_transformer::interns2_mobius::InternS2MobiusConfig;
use grim_transformer::json::{read_number, read_unsigned};
use grim_transformer::kimi_k3::KimiK3Config;
use grim_transformer::laguna::{Laguna, LagunaConfig};
use grim_transformer::maple::MapleConfig;
use grim_transformer::mellum::{Mellum, MellumConfig};
use grim_transformer::minimax_m3::MiniMaxM3Config;
use grim_transformer::numeric::Real;

fn parsed(text: &str) -> serde_json::Value {
    serde_json::from_str(text).unwrap()
}

fn single(x: Real) -> f32 {
    f64::from_bits(x.bits) as f32
}

#[test]
fn test_gemma2_config_defaults() {
    let cfg = Gemma2Config::default();
    assert_eq!(cfg.name(), "gemma2");
    assert_eq!(cfg.vocab_size, 256000);
    assert_eq!(cfg.hidden_size, 3584);
    assert_eq!(cfg.attn_logit_softcapping.map(single), Some(50.0));
    assert_eq!(cfg.final_logit_softcapping.map(single), Some(30.0));
}

#[test]
fn test_gemma3n_config() {
    let cfg = Gemma3nConfig::default();
    assert_eq!(cfg.hidden_size, 2048);
    assert_eq!(cfg.head_dim, 256);
}

#[test]
fn test_gptj_config_defaults() {
    let cfg = GptJConfig::default();
    assert_eq!(cfg.name(), "gptj");
    assert_eq!(cfg.vocab_size, 50400);
    assert_eq!(cfg.hidden_size, 4096);
    assert_eq!(cfg.rotary_dim, 64);
}

#[test]
fn test_granite_moe_config_defaults() {
    let cfg = GraniteMoeHybridConfig::default();
    assert_eq!(cfg.name(), "granite_moe_hybrid");
    assert_eq!(cfg.vocab_size, 49152);
    assert_eq!(cfg.hidden_size, 2048);
    assert_eq!(cfg.num_local_experts, 32);
    assert_eq!(cfg.num_experts_per_tok, 8);
    assert_eq!(single(cfg.residual_multiplier), 0.22);
}

#[test]
fn test_hunyuan_vl_config() {
    let cfg = HunyuanVlConfig::default();
    assert_eq!(cfg.hidden_size, 64);
    assert_eq!(cfg.mrope_section, [2, 2, 2, 2]);
}

#[test]
fn test_hy_v3_config_defaults() {
    let cfg = HyV3Config::default();
    assert_eq!(cfg.name(), "hyv3");
    assert_eq!(cfg.vocab_size, 131072);
    assert_eq!(cfg.hidden_size, 4096);
    assert_eq!(cfg.num_experts, 64);
    assert_eq!(cfg.num_experts_per_tok, 8);
}

#[test]
fn parses_inkling_small_config() {
    let v = parsed(
        r#"{
        "architectures": ["InklingSmallForCausalLM"],
        "hidden_size": 1024,
        "num_hidden_layers": 16,
        "num_attention_heads": 16,
        "num_key_value_heads": 4,
        "head_dim": 64,
        "intermediate_size": 3072,
        "rms_norm_eps": 1e-05,
        "rope_theta": 10000.0,
        "vocab_size": 32000
    }"#,
    );
    let cfg = InklingSmallConfig::from_hf(&v);
    assert_eq!(cfg.hidden_size, 1024);
    assert_eq!(cfg.num_hidden_layers, 16);
    assert_eq!(cfg.name(), "inkling_small");
}

#[test]
fn parses_intern_s2_mobius_config() {
    let v = parsed(
        r#"{
        "architectures": ["InternS2MobiusForCausalLM"],
        "hidden_size": 4096,
        "num_hidden_layers": 32,
        "num_attention_heads": 32,
        "num_key_value_heads": 8,
        "head_dim": 128,
        "intermediate_size": 14336,
        "rms_norm_eps": 1e-05,
        "rope_theta": 1000000.0,
        "vocab_size": 92544
    }"#,
    );
    let cfg = InternS2MobiusConfig::from_hf(&v);
    assert_eq!(cfg.hidden_size, 4096);
    assert_eq!(cfg.num_hidden_layers, 32);
    assert_eq!(cfg.name(), "interns2_mobius");
}

#[test]
fn parses_glm5_2_config() {
    let v = parsed(
        r#"{
        "architectures": ["Glm52ForCausalLM"],
        "hidden_size": 4096,
        "num_hidden_layers": 40,
        "num_attention_heads": 32,
        "num_key_value_heads": 8,
        "head_dim": 128,
        "intermediate_size": 13824,
        "num_experts": 64,
        "num_experts_per_tok": 8,
        "rms_norm_eps": 1e-05,
        "rope_theta": 10000.0,
        "vocab_size": 151552
    }"#,
    );
    let cfg = Glm52Config::from_hf(&v);
    assert_eq!(cfg.hidden_size, 4096);
    assert_eq!(cfg.num_hidden_layers, 40);
    assert_eq!(cfg.num_experts, 64);
    assert_eq!(cfg.name(), "glm5_2");
}

const KIMI_K3_CONFIG: &str = r#"{
        "architectures": ["KimiK3ForCausalLM"],
        "hidden_size": 2048,
        "num_hidden_layers": 28,
        "num_attention_heads": 16,
        "num_key_value_heads": 16,
        "head_dim": 128,
        "q_lora_rank": 256,
        "kv_lora_rank": 512,
        "qk_nope_head_dim": 128,
        "qk_rope_head_dim": 64,
        "v_head_dim": 128,
        "num_experts": 64,
        "num_experts_per_tok": 6,
        "routed_scaling_factor": 2.0,
        "rms_norm_eps": 1e-06,
        "vocab_size": 163840
    }"#;

#[test]
fn parses_kimi_k3_config() {
    let cfg = KimiK3Config::from_hf(&parsed(KIMI_K3_CONFIG));
    assert_eq!(cfg.hidden_size, 2048);
    assert_eq!(cfg.num_hidden_layers, 28);
    assert_eq!(cfg.num_experts, 64);
    assert_eq!(cfg.name(), "kimi_k3");
}

#[test]
fn kimi_experts_have_eight_thirds_of_the_width() {
    let cfg = KimiK3Config::from_hf(&parsed(KIMI_K3_CONFIG));
    assert_eq!(cfg.expert_width(), (2048 * 8 / 3) / 8 * 8);
    assert_eq!(cfg.expert_width(), 5456);
    assert_eq!(single(cfg.routed_scaling_factor), 2.0);
}

#[test]
fn parses_minimax_m3_config() {
    let v = parsed(
        r#"{
        "architectures": ["MiniMaxM3ForCausalLM"],
        "hidden_size": 3072,
        "num_hidden_layers": 36,
        "num_attention_heads": 24,
        "num_key_value_heads": 8,
        "head_dim": 128,
        "intermediate_size": 8192,
        "num_experts": 32,
        "num_experts_per_tok": 4,
        "rms_norm_eps": 1e-05,
        "rope_theta": 100000.0,
        "vocab_size": 128000
    }"#,
    );
    let cfg = MiniMaxM3Config::from_hf(&v);
    assert_eq!(cfg.hidden_size, 3072);
    assert_eq!(cfg.num_hidden_layers, 36);
    assert_eq!(cfg.num_experts, 32);
    assert_eq!(cfg.name(), "minimax_m3");
}

const MELLUM2_CONFIG: &str = r#"{
        "architectures": ["MellumForCausalLM"],
        "attention_bias": false,
        "attention_dropout": 0.0,
        "bos_token_id": 0,
        "dtype": "bfloat16",
        "eos_token_id": 28,
        "head_dim": 128,
        "hidden_act": "silu",
        "hidden_size": 2304,
        "initializer_range": 0.02,
        "intermediate_size": 7168,
        "max_position_embeddings": 131072,
        "max_window_layers": 0,
        "model_type": "mellum",
        "moe_intermediate_size": 896,
        "norm_topk_prob": true,
        "num_attention_heads": 32,
        "num_experts": 64,
        "num_experts_per_tok": 8,
        "num_hidden_layers": 28,
        "num_key_value_heads": 4,
        "output_router_logits": false,
        "rms_norm_eps": 1e-06,
        "rope_parameters": {
            "full_attention": {
                "rope_type": "yarn",
                "rope_theta": 500000.0,
                "factor": 16.0,
                "original_max_position_embeddings": 8192,
                "beta_fast": 32.0,
                "beta_slow": 1.0,
                "attention_factor": 1.2772588722239782
            },
            "sliding_attention": {
                "rope_type": "default",
                "rope_theta": 500000.0
            }
        },
        "router_aux_loss_coef": 0.001,
        "sliding_window": 1024,
        "tie_word_embeddings": false,
        "use_cache": true,
        "vocab_size": 98304,
        "use_sliding_window": true
    }"#;

#[test]
fn parses_mellum2_config() {
    let cfg = MellumConfig::from_hf(&parsed(MELLUM2_CONFIG));
    assert_eq!(cfg.vocab_size, 98304);
    assert_eq!(cfg.hidden_size, 2304);
    assert_eq!(cfg.num_heads, 32);
    assert_eq!(cfg.num_kv_heads, 4);
    assert_eq!(cfg.head_dim, 128);
    assert_eq!(cfg.num_layers, 28);
    assert_eq!(cfg.intermediate_size, 7168);
    assert_eq!(cfg.moe_intermediate_size, 896);
    assert_eq!(cfg.num_experts, 64);
    assert_eq!(cfg.num_experts_per_tok, 8);
    assert!((single(cfg.rms_norm_eps) - 1e-6).abs() < 1e-9);
    assert!((single(cfg.rope_theta) - 500000.0).abs() < 1e-6);
    assert_eq!(cfg.max_seq_len, 131072);
    assert_eq!(cfg.sliding_window, 1024);
}

#[test]
fn mellum2_config_is_moe() {
    let cfg = MellumConfig::from_hf(&parsed(MELLUM2_CONFIG));
    assert!(cfg.is_moe());
    assert_eq!(cfg.num_experts, 64);
    assert_eq!(cfg.num_experts_per_tok, 8);
}

#[test]
fn mellum_rotates_with_the_standard_stretch() {
    let cfg = MellumConfig::from_hf(&parsed(MELLUM2_CONFIG));
    let plan = Mellum::load(&cfg);
    let yarn = plan.llama.yarn.unwrap();
    assert_eq!(yarn.original_max_pos, 131072);
    assert_eq!((single(yarn.factor), single(yarn.attention_factor)), (1.0, 1.0));
    assert_eq!((single(yarn.beta_fast), single(yarn.beta_slow)), (32.0, 1.0));
    assert_eq!(plan.llama.rope_theta, cfg.rope_theta);
    assert_eq!(plan.moe.len(), 28);
}

#[test]
fn mellum_config_name_matches_registry() {
    let cfg = MellumConfig::from_hf(&parsed(MELLUM2_CONFIG));
    assert_eq!(cfg.name(), "mellum");
    assert_eq!(cfg.architecture_name(), "mellum");
}

#[test]
fn test_maple_config_default_structure() {
    let cfg = MapleConfig::default();
    assert_eq!(cfg.num_experts, 256);
    assert_eq!(cfg.num_experts_per_tok, 8);
    assert_eq!(cfg.num_layers, 24);
    assert_eq!(cfg.sliding_window, 512);
    assert_eq!(cfg.layer_types[0], "sliding_attention");
    assert_eq!(cfg.layer_types[1], "sliding_attention");
    assert_eq!(cfg.layer_types[2], "sliding_attention");
    assert_eq!(cfg.layer_types[3], "full_attention");
}

#[test]
fn test_laguna_s_2_1_layer_attention_specs() {
    let cfg = LagunaConfig::default();
    assert_eq!(cfg.num_layers, 48);
    let rounded =
        |dim: usize, factor: Real| (dim as f32 * f64::from_bits(factor.bits) as f32).round() as usize;
    let specs = Laguna::load(&cfg, rounded).attention;

    assert_eq!(specs[0].num_heads, 48);
    assert_eq!(single(specs[0].rope.base), 500000.0);
    assert_eq!(specs[0].rope.rotary_dim, 64);
    assert!(specs[0].rope.yarn.is_some());
    assert_eq!(specs[0].sliding_window, None);
    assert!(specs[0].has_attn_gate);

    assert_eq!(specs[1].num_heads, 72);
    assert_eq!(single(specs[1].rope.base), 10000.0);
    assert_eq!(specs[1].rope.rotary_dim, 128);
    assert!(specs[1].rope.yarn.is_none());
    assert_eq!(specs[1].sliding_window, Some(512));
    assert!(specs[1].has_attn_gate);
}

#[test]
fn every_fourth_layer_of_laguna_sees_everything() {
    let cfg = LagunaConfig::default();
    let plan = Laguna::load(&cfg, |dim, _| dim);
    for (i, spec) in plan.attention.iter().enumerate() {
        assert_eq!(spec.sliding_window.is_none(), i % 4 == 0);
    }
}

#[test]
fn missing_settings_are_zero() {
    let cfg = MiniMaxM3Config::from_hf(&parsed("{}"));
    assert_eq!(cfg.vocab_size, 0);
    assert_eq!(cfg.num_experts, 0);
}

#[test]
fn settings_of_another_kind_are_not_read() {
    let v = parsed(r#"{"a": 7, "b": -7, "c": 2.5, "d": "7", "e": null}"#);
    assert_eq!(read_unsigned(&v, "a"), Some(7));
    assert_eq!(read_unsigned(&v, "b"), None);
    assert_eq!(read_unsigned(&v, "c"), None);
    assert_eq!(read_unsigned(&v, "d"), None);
    assert_eq!(read_unsigned(&v, "f"), None);
    assert_eq!(read_number(&v, "a"), Some(7.0f64.to_bits()));
    assert_eq!(read_number(&v, "b"), Some((-7.0f64).to_bits()));
    assert_eq!(read_number(&v, "c"), Some(2.5f64.to_bits()));
    assert_eq!(read_number(&v, "d"), None);
    assert_eq!(read_number(&v, "e"), None);
    assert_eq!(read_unsigned(&parsed("[1]"), "a"), None);
}

#[test]
fn falcon_projects_gates_inputs_and_rates_side_by_side() {
    let cfg = FalconH1Config {
        vocab_size: 64,
        hidden_size: 16,
        num_heads: 4,
        num_kv_heads: 2,
        head_dim: 4,
        num_layers: 1,
        intermediate_size: 32,
        rms_norm_eps: Real { bits: 1e-6f64.to_bits() },
        rope_theta: Real { bits: 10000.0f64.to_bits() },
        ssm_d_state: 8,
        ssm_d_inner: 16,
        ssm_d_conv: 4,
        ssm_dt_rank: 4,
        ssm_n_group: 1,
    };
    assert_eq!(cfg.ssm_conv_dim(), 16 + 2 * 8);
    assert_eq!(cfg.ssm_in_dim(), 16 + (16 + 2 * 8) + 4);
}
