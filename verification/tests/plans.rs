//! The weights that models ask for, and the rows that they start from.

use grim_transformer::device::Device;
use grim_transformer::error::Error;
use grim_transformer::falcon_h1::{load_block, FalconH1Config, FalconH1Model};
use grim_transformer::gemma::{Gemma, GemmaConfig};
use grim_transformer::gemma2::{Gemma2, Gemma2Config};
use grim_transformer::gemma3n::{Gemma3n, Gemma3nConfig};
use grim_transformer::glm5_2::{Glm52, Glm52Config, Glm52Root};
use grim_transformer::glmdsa::{GlmDsa, GlmDsaConfig};
use grim_transformer::gpt2::{Gpt2, Gpt2Config};
use grim_transformer::gptj::{GptJ, GptJConfig};
use grim_transformer::granite_moe_hybrid::{GraniteMoeHybrid, GraniteMoeHybridConfig};
use grim_transformer::hunyuan_vl::{HunyuanVl, HunyuanVlConfig};
use grim_transformer::hyv3::{HyV3, HyV3Config};
use grim_transformer::inkling_small::{
    InklingSmall, InklingSmallConfig, INKLING_SMALL_TENSOR_KEYS,
};
use grim_transformer::interns2_mobius::{InternS2Mobius, InternS2MobiusConfig};
use grim_transformer::kimi_k3::{KimiK3, KimiK3Config};
use grim_transformer::minicpm::{MiniCpmConfig, MiniCpmModel};
use grim_transformer::minimax_m3::{MiniMaxM3, MiniMaxM3Config};
use grim_transformer::modality::ModalityHint;
use grim_transformer::numeric::Real;
use grim_transformer::stages::Stage;
use grim_transformer::weights::{
    either, in_expert, in_layer, optional, plain, required, Attempt, Fallback, LoadAction, LoadStep,
    ModelPlan, Weight,
};

fn setting(x: f64) -> Real {
    Real { bits: x.to_bits() }
}

fn shape(weight: &Weight) -> String {
    match *weight {
        Weight::Linear { inputs, outputs, bias } => format!("linear {inputs}x{outputs} {bias}"),
        Weight::ColumnParallel { inputs, outputs, bias } => {
            format!("columns {inputs}x{outputs} {bias}")
        }
        Weight::RowParallel { inputs, outputs, bias } => format!("rows {inputs}x{outputs} {bias}"),
        Weight::LinearShape { d0, d1 } => format!("{d0}x{d1}"),
        Weight::RmsNorm { dim } => format!("rms {dim}"),
        Weight::LayerNorm { dim } => format!("norm {dim}"),
        Weight::Embedding { rows, dim } => format!("table {rows}x{dim}"),
        Weight::Tensor1 { d0 } => format!("tensor {d0}"),
        Weight::Tensor2 { d0, d1 } => format!("tensor {d0}x{d1}"),
        Weight::Tensor3 { d0, d1, d2 } => format!("tensor {d0}x{d1}x{d2}"),
    }
}

fn attempt(a: &Attempt) -> String {
    format!("{} {}", a.path.name(), shape(&a.weight))
}

fn shown(step: &LoadStep) -> String {
    let mut s = attempt(&step.first);
    if let Some(other) = &step.second {
        s = format!("{s} | {}", attempt(other));
    }
    match step.fallback {
        Fallback::Fail => s,
        Fallback::Skip => format!("{s} or nothing"),
        Fallback::TiedEmbedding => format!("{s} or the table"),
        Fallback::TiedTransposed => format!("{s} or the table turned"),
    }
}

fn listed(steps: &[LoadStep]) -> Vec<String> {
    steps.iter().map(shown).collect()
}

fn ends(plan: &ModelPlan) -> (String, String, Option<String>) {
    (shown(&plan.tok_embeddings), shown(&plan.norm), plan.output.as_ref().map(shown))
}

// Names.

#[test]
fn names_join_their_parts_by_dots() {
    assert_eq!(plain("model", "norm").name(), "model.norm");
    assert_eq!(plain("", "lm_head").name(), "lm_head");
    assert_eq!(in_layer("blk", 12, "", "ssm_dt.bias").name(), "blk.12.ssm_dt.bias");
    assert_eq!(in_layer("h", 0, "attn", "q_proj").name(), "h.0.attn.q_proj");
    assert_eq!(
        in_expert("model.layers", 3, "mlp.experts", 10, "w1").name(),
        "model.layers.3.mlp.experts.10.w1"
    );
}

#[test]
fn loading_falls_back_step_by_step() {
    let norm = Weight::RmsNorm { dim: 4 };
    let must = required(plain("", "norm"), norm);
    assert_eq!(must.after_first(true), LoadAction::Use);
    assert_eq!(must.after_first(false), LoadAction::Fail);
    let two = either(plain("", "a"), norm, plain("", "b"), norm);
    assert_eq!(two.after_first(false), LoadAction::TrySecond);
    assert_eq!(two.after_second(true), LoadAction::Use);
    assert_eq!(two.after_second(false), LoadAction::Fail);
    let may = |fallback| optional(plain("", "head"), norm, fallback).after_first(false);
    assert_eq!(may(Fallback::Skip), LoadAction::Skip);
    assert_eq!(may(Fallback::TiedEmbedding), LoadAction::TieEmbedding);
    assert_eq!(may(Fallback::TiedTransposed), LoadAction::TieTransposed);
}

// Models whose shapes name the dimensions of a matrix.

fn gemma2_config() -> Gemma2Config {
    Gemma2Config {
        vocab_size: 5,
        hidden_size: 4,
        intermediate_size: 6,
        num_hidden_layers: 2,
        num_attention_heads: 2,
        num_key_value_heads: 1,
        head_dim: 3,
        ..Gemma2Config::default()
    }
}

#[test]
fn gemma2_asks_for_its_weights() {
    let cfg = gemma2_config();
    let plan = Gemma2::load_tp(&cfg);
    assert_eq!(plan.layers.len(), 2);
    assert_eq!(
        listed(&plan.layers[1]),
        vec![
            "model.layers.1.self_attn.q_proj 4x6",
            "model.layers.1.self_attn.k_proj 4x3",
            "model.layers.1.self_attn.v_proj 4x3",
            "model.layers.1.self_attn.o_proj 6x4",
            "model.layers.1.input_layernorm rms 4",
            "model.layers.1.post_attention_layernorm rms 4",
            "model.layers.1.pre_feedforward_layernorm rms 4",
            "model.layers.1.post_feedforward_layernorm rms 4",
            "model.layers.1.mlp.gate_proj 4x6",
            "model.layers.1.mlp.up_proj 4x6",
            "model.layers.1.mlp.down_proj 6x4",
        ]
    );
    assert_eq!(
        ends(&plan),
        (
            "model.embed_tokens 5x4".to_string(),
            "model.norm rms 4".to_string(),
            Some("lm_head 4x5 or the table turned".to_string()),
        )
    );
    assert_eq!(cfg.modality(), ModalityHint::TextInTextOut);
}

#[test]
fn gemma3n_asks_for_its_weights() {
    let cfg = Gemma3nConfig {
        vocab_size: 5,
        hidden_size: 4,
        num_heads: 2,
        num_kv_heads: 1,
        head_dim: 3,
        num_layers: 1,
        intermediate_size: 6,
        ..Gemma3nConfig::default()
    };
    let plan = Gemma3n::load_tp(&cfg);
    assert_eq!(
        listed(&plan.layers[0]),
        vec![
            "model.layers.0.self_attn.q_proj 4x6",
            "model.layers.0.self_attn.k_proj 4x3",
            "model.layers.0.self_attn.v_proj 4x3",
            "model.layers.0.self_attn.o_proj 6x4",
            "model.layers.0.input_layernorm rms 4",
            "model.layers.0.post_attention_layernorm rms 4",
            "model.layers.0.post_feedforward_layernorm rms 4 | \
             model.layers.0.post_attention_layernorm rms 4",
            "model.layers.0.mlp.gate_proj 4x6",
            "model.layers.0.mlp.up_proj 4x6",
            "model.layers.0.mlp.down_proj 6x4",
        ]
    );
    assert_eq!(listed(&Gemma3n::load(&cfg).layers[0]), listed(&plan.layers[0]));
    assert_eq!(cfg.modality(), ModalityHint::TextInTextOut);
}

#[test]
fn gptj_asks_for_its_weights() {
    let cfg = GptJConfig {
        vocab_size: 5,
        hidden_size: 4,
        num_attention_heads: 2,
        head_dim: 3,
        rotary_dim: 2,
        num_hidden_layers: 1,
        ..GptJConfig::default()
    };
    let plan = GptJ::load_tp(&cfg);
    assert_eq!(
        listed(&plan.layers[0]),
        vec![
            "transformer.h.0.attn.q_proj 4x6",
            "transformer.h.0.attn.k_proj 4x6",
            "transformer.h.0.attn.v_proj 4x6",
            "transformer.h.0.attn.out_proj 6x4",
            "transformer.h.0.ln_1 norm 4",
            "transformer.h.0.mlp.fc_in 4x16",
            "transformer.h.0.mlp.fc_out 16x4",
        ]
    );
    assert_eq!(shown(&plan.tok_embeddings), "transformer.wte 5x4");
    assert_eq!(shown(&plan.norm), "transformer.ln_f norm 4");
    assert_eq!(cfg.modality(), ModalityHint::TextInTextOut);
}

#[test]
fn granite_asks_for_a_shared_expert_where_it_has_one() {
    let mut cfg = GraniteMoeHybridConfig {
        vocab_size: 5,
        hidden_size: 4,
        intermediate_size: 6,
        num_hidden_layers: 1,
        num_attention_heads: 2,
        num_key_value_heads: 1,
        head_dim: 3,
        num_local_experts: 2,
        shared_intermediate_size: Some(7),
        ..GraniteMoeHybridConfig::default()
    };
    let with = listed(&GraniteMoeHybrid::load_tp(&cfg).layers[0]);
    let moe = |leaf: &str| format!("model.layers.0.block_sparse_moe.{leaf}");
    for line in [
        "model.layers.0.self_attn.o_proj 6x4".to_string(),
        moe("gate 4x2"),
        moe("experts.0.gate_proj 4x6"),
        moe("experts.1.down_proj 6x4"),
        moe("shared_expert.up_proj 4x7"),
        moe("shared_expert.down_proj 7x4"),
    ] {
        assert!(with.contains(&line), "{line} not in {with:?}");
    }
    cfg.shared_intermediate_size = None;
    let without = listed(&GraniteMoeHybrid::load_tp(&cfg).layers[0]);
    assert_eq!(with.len(), without.len() + 3);
    assert!(without.iter().all(|l| !l.contains("shared_expert")));
    assert_eq!(cfg.modality(), ModalityHint::TextInTextOut);
}

#[test]
fn hyv3_asks_for_norms_per_head_under_two_names() {
    let cfg = HyV3Config {
        vocab_size: 5,
        hidden_size: 4,
        intermediate_size: 6,
        num_hidden_layers: 1,
        num_attention_heads: 2,
        num_key_value_heads: 1,
        head_dim: 3,
        num_experts: 2,
        shared_expert_intermediate_size: Some(7),
        ..HyV3Config::default()
    };
    let layer = listed(&HyV3::load_tp(&cfg).layers[0]);
    for line in [
        "model.layers.0.self_attn.q_norm rms 3 | model.layers.0.self_attn.q_layernorm rms 3",
        "model.layers.0.self_attn.k_norm rms 3 | model.layers.0.self_attn.k_layernorm rms 3",
        "model.layers.0.mlp.gate 4x2",
        "model.layers.0.mlp.experts.1.up_proj 4x6",
        "model.layers.0.mlp.shared_expert.gate_proj 4x7",
    ] {
        assert!(layer.contains(&line.to_string()), "{line} not in {layer:?}");
    }
    assert_eq!(cfg.modality(), ModalityHint::TextInTextOut);
}

#[test]
fn glm52_takes_its_names_from_either_root() {
    let cfg = Glm52Config {
        vocab_size: 5,
        hidden_size: 4,
        num_attention_heads: 2,
        num_key_value_heads: 1,
        head_dim: 3,
        num_hidden_layers: 1,
        intermediate_size: 6,
        num_experts: 2,
        ..Glm52Config::default()
    };
    let plan = Glm52::load_tp(&cfg, Glm52Root::Transformer);
    let layer = listed(&plan.layers[0]);
    for line in [
        "transformer.layers.0.self_attention.query_key_value 4x12",
        "transformer.layers.0.self_attention.dense 6x4",
        "transformer.layers.0.input_layernorm rms 4",
        "transformer.layers.0.post_attention_layernorm rms 4",
        "transformer.layers.0.mlp.gate 4x2",
        "transformer.layers.0.mlp.experts.1.dense_4h_to_h 6x4",
    ] {
        assert!(layer.contains(&line.to_string()), "{line} not in {layer:?}");
    }
    assert_eq!(
        shown(&plan.tok_embeddings),
        "transformer.word_embeddings 5x4 | transformer.embed_tokens 5x4"
    );
    assert_eq!(
        shown(&plan.norm),
        "transformer.final_layernorm rms 4 | transformer.norm rms 4"
    );
    let other = Glm52::load(&cfg, Glm52Root::Model);
    assert!(listed(&other.layers[0]).iter().all(|l| l.starts_with("model.layers.0.")));
    assert!(shown(other.output.as_ref().unwrap())
        .starts_with("model.output_layer 4x5 | lm_head 4x5"));
    assert_eq!(cfg.modality(), ModalityHint::TextInTextOut);
}

#[test]
fn glmdsa_loads_a_selector_beside_the_backbone() {
    let cfg = GlmDsaConfig { index_topk: 9, ..GlmDsaConfig::default() };
    let plan = GlmDsa::load_tp(&cfg);
    assert_eq!(plan.llama.hidden_size, cfg.hidden_size);
    assert_eq!(plan.selector.as_ref().map(|s| s.index_topk), Some(9));
    assert_eq!(cfg.modality(), ModalityHint::TextInTextOut);
}

#[test]
fn interns2_asks_for_its_weights() {
    let cfg = InternS2MobiusConfig {
        vocab_size: 5,
        hidden_size: 4,
        num_attention_heads: 2,
        num_key_value_heads: 1,
        head_dim: 3,
        num_hidden_layers: 1,
        intermediate_size: 6,
        ..InternS2MobiusConfig::default()
    };
    let plan = InternS2Mobius::load_tp(&cfg);
    assert_eq!(
        listed(&plan.layers[0]),
        vec![
            "model.layers.0.attention.wqkv 4x12 | model.layers.0.attention.wqkv_proj 4x12",
            "model.layers.0.attention.wo 6x4",
            "model.layers.0.attention_norm rms 4",
            "model.layers.0.ffn_norm rms 4",
            "model.layers.0.feed_forward.w1 4x6",
            "model.layers.0.feed_forward.w3 4x6",
            "model.layers.0.feed_forward.w2 6x4",
        ]
    );
    assert_eq!(shown(&plan.tok_embeddings), "model.tok_embeddings 5x4");
    assert!(shown(plan.output.as_ref().unwrap()).starts_with("output 4x5"));
    assert_eq!(cfg.modality(), ModalityHint::TextInTextOut);
}

#[test]
fn minimax_asks_for_its_weights() {
    let cfg = MiniMaxM3Config {
        vocab_size: 5,
        hidden_size: 4,
        num_attention_heads: 2,
        num_key_value_heads: 1,
        head_dim: 3,
        num_hidden_layers: 1,
        intermediate_size: 6,
        num_experts: 2,
        ..MiniMaxM3Config::default()
    };
    let layer = listed(&MiniMaxM3::load_tp(&cfg).layers[0]);
    for line in [
        "model.layers.0.self_attn.q_proj 4x6",
        "model.layers.0.self_attn.k_proj 4x3",
        "model.layers.0.block_sparse_moe.gate 4x2",
        "model.layers.0.block_sparse_moe.experts.0.w1 4x6",
        "model.layers.0.block_sparse_moe.experts.0.w3 4x6",
        "model.layers.0.block_sparse_moe.experts.1.w2 6x4",
    ] {
        assert!(layer.contains(&line.to_string()), "{line} not in {layer:?}");
    }
    assert_eq!(cfg.modality(), ModalityHint::TextInTextOut);
}

#[test]
fn hunyuan_asks_for_its_vision_part_at_either_place() {
    let mut cfg = HunyuanVlConfig {
        vocab_size: 5,
        hidden_size: 4,
        num_heads: 2,
        num_kv_heads: 1,
        head_dim: 3,
        num_layers: 1,
        intermediate_size: 6,
        ..HunyuanVlConfig::default()
    };
    cfg.vision_config.hidden_size = 8;
    cfg.vision_config.patch_size = 2;
    cfg.vision_config.num_channels = 3;
    cfg.vision_config.out_hidden_size = 4;
    assert_eq!(
        listed(&HunyuanVl::load_tp(&cfg, true).vision),
        vec!["visual.patch_embed 12x8", "visual.norm rms 8", "visual.proj 8x4"]
    );
    let inner = HunyuanVl::load(&cfg, false);
    assert_eq!(
        listed(&inner.vision),
        vec!["model.visual.patch_embed 12x8", "model.visual.norm rms 8", "model.visual.proj 8x4"]
    );
    assert!(listed(&inner.decoder.layers[0])
        .contains(&"model.layers.0.self_attn.v_proj 4x3".to_string()));
    assert_eq!(cfg.modality(), ModalityHint::MultimodalInTextOut);
}

fn kimi_config() -> KimiK3Config {
    KimiK3Config {
        vocab_size: 5,
        hidden_size: 4,
        num_attention_heads: 2,
        num_hidden_layers: 1,
        q_lora_rank: 6,
        kv_lora_rank: 3,
        qk_nope_head_dim: 4,
        qk_rope_head_dim: 2,
        v_head_dim: 5,
        num_experts: 2,
        intermediate_size: 8,
        ..KimiK3Config::default()
    }
}

#[test]
fn kimi_asks_for_its_attention_weights() {
    let cfg = kimi_config();
    let layer = listed(&KimiK3::load_tp(&cfg).layers[0]);
    for line in [
        "model.layers.0.input_layernorm rms 4",
        "model.layers.0.self_attn.q_a_proj 4x6",
        "model.layers.0.self_attn.q_b_proj 6x12",
        "model.layers.0.self_attn.kv_a_proj_with_mqa 4x5",
        "model.layers.0.self_attn.kv_b_proj 3x18",
        "model.layers.0.self_attn.o_proj 10x4",
        "model.layers.0.block_sparse_moe.gate 4x2",
    ] {
        assert!(layer.contains(&line.to_string()), "{line} not in {layer:?}");
    }
    assert_eq!(cfg.modality(), ModalityHint::TextInTextOut);
}

// Models whose shapes name inputs and outputs.

fn gemma_config() -> GemmaConfig {
    GemmaConfig {
        vocab_size: 5,
        hidden_size: 4,
        num_heads: 2,
        num_kv_heads: 1,
        head_dim: 3,
        num_layers: 1,
        intermediate_size: 6,
        rms_norm_eps: setting(1e-6),
    }
}

#[test]
fn gemma_asks_for_its_weights() {
    let cfg = gemma_config();
    let plan = Gemma::load(&cfg);
    let layer = listed(&plan.layers[0]);
    assert_eq!(layer[0], "blk.0.attn_norm rms 4");
    assert!(layer.iter().any(|l| l.ends_with("linear 4x6 false")));
    assert_eq!(layer.iter().filter(|l| l.ends_with("linear 4x3 false")).count(), 2);
    assert_eq!(shown(&plan.tok_embeddings), "token_embd table 5x4");
    assert_eq!(shown(&plan.norm), "output_norm rms 4");
    assert!(Gemma::load_tp(&cfg, 1).is_ok());
    assert!(matches!(Gemma::load_tp(&cfg, 2), Err(Error::SingleDevice { .. })));
    assert_eq!(cfg.modality(), ModalityHint::TextInTextOut);
}

#[test]
fn gpt2_asks_for_a_table_of_positions() {
    let cfg = Gpt2Config {
        vocab_size: 5,
        hidden_size: 4,
        num_heads: 2,
        num_layers: 1,
        intermediate_size: 16,
        layer_norm_epsilon: setting(1e-5),
        max_seq_len: 7,
    };
    let plan = Gpt2::load(&cfg);
    assert_eq!(shown(&plan.tok_embeddings), "wte table 5x4");
    assert_eq!(plan.positions.as_ref().map(shown), Some("wpe table 7x4".to_string()));
    assert_eq!(shown(&plan.norm), "ln_f norm 4");
    assert_eq!(plan.output.as_ref().map(shown), Some("lm_head linear 4x5 false".to_string()));
    let layer = listed(&plan.layers[0]);
    assert_eq!(layer[0], "h.0.ln_1 norm 4");
    assert!(layer.iter().any(|l| l.contains("linear 4x12")));
    assert!(matches!(Gpt2::load_tp(&cfg, 2), Err(Error::SingleDevice { .. })));
    assert_eq!(cfg.modality(), ModalityHint::TextInTextOut);
}

#[test]
fn minicpm_splits_its_weights_over_devices() {
    let cfg = MiniCpmConfig {
        vocab_size: 5,
        hidden_size: 4,
        num_heads: 2,
        num_kv_heads: 1,
        head_dim: 3,
        num_layers: 1,
        intermediate_size: 6,
        rms_norm_eps: setting(1e-5),
        rope_theta: setting(10000.0),
        scale_emb: None,
        scale_depth: None,
        dim_model_base: None,
    };
    let plan = MiniCpmModel::load(&cfg);
    assert_eq!(
        listed(&plan.layers[0]),
        vec![
            "layers.0.attn_norm rms 4",
            "layers.0.attn.wq columns 4x6 false",
            "layers.0.attn.wk columns 4x3 false",
            "layers.0.attn.wv columns 4x3 false",
            "layers.0.attn.wo rows 6x4 false",
            "layers.0.ffn_norm rms 4",
            "layers.0.ffn.w_gate columns 4x6 false",
            "layers.0.ffn.w_up columns 4x6 false",
            "layers.0.ffn.w_down rows 6x4 false",
        ]
    );
    assert_eq!(
        ends(&plan),
        (
            "tok_embeddings table 5x4".to_string(),
            "norm rms 4".to_string(),
            Some("output linear 4x5 false | tok_embeddings linear 4x5 false".to_string()),
        )
    );
    assert_eq!(cfg.modality(), ModalityHint::TextInTextOut);
}

#[test]
fn falcon_asks_for_its_weights() {
    let cfg = FalconH1Config {
        vocab_size: 5,
        hidden_size: 4,
        num_heads: 2,
        num_kv_heads: 1,
        head_dim: 3,
        num_layers: 2,
        intermediate_size: 6,
        rms_norm_eps: setting(1e-5),
        rope_theta: setting(10000.0),
        ssm_d_state: 3,
        ssm_d_inner: 8,
        ssm_d_conv: 4,
        ssm_dt_rank: 2,
        ssm_n_group: 1,
    };
    assert_eq!(cfg.head_group(), 2);
    let want = vec![
        "blk.1.attn_norm rms 4",
        "blk.1.attn_q linear 4x6 false",
        "blk.1.attn_k linear 4x3 false",
        "blk.1.attn_v linear 4x3 false",
        "blk.1.attn_output linear 4x4 false",
        "blk.1.ffn_norm tensor 4",
        "blk.1.ffn_gate linear 4x6 false",
        "blk.1.ffn_up linear 4x6 false",
        "blk.1.ffn_down linear 6x4 false",
        "blk.1.ssm_in linear 4x24 false",
        "blk.1.ssm_out linear 8x4 false",
        "blk.1.ssm_conv1d.weight tensor 14x4",
        "blk.1.ssm_conv1d.bias tensor 14",
        "blk.1.ssm_a tensor 2x1",
        "blk.1.ssm_d tensor 2x1",
        "blk.1.ssm_dt.bias tensor 2",
    ];
    assert_eq!(listed(&load_block(&cfg, 1)), want);
    let plan = FalconH1Model::load_tp(&cfg, 1).unwrap();
    assert_eq!(listed(&plan.blocks[1]), want);
    assert_eq!(shown(&plan.embedding), "token_embd table 5x4");
    assert_eq!(
        FalconH1Model { cfg }.forward_cpu(),
        vec![Stage::Embed, Stage::Layer(0), Stage::Layer(1), Stage::Norm, Stage::Head]
    );
    assert_eq!(shown(&plan.output_norm), "output_norm rms 4");
    assert!(matches!(FalconH1Model::load_tp(&cfg, 2), Err(Error::SingleDevice { .. })));
    assert_eq!(cfg.modality(), ModalityHint::TextInTextOut);
}

#[test]
fn inkling_names_its_weights_and_runs_no_pass() {
    assert_eq!(INKLING_SMALL_TENSOR_KEYS.len(), 12);
    assert!(INKLING_SMALL_TENSOR_KEYS.contains(&"model.layers.{i}.mlp.down_proj.weight"));
    let cfg = InklingSmallConfig {
        vocab_size: 5,
        hidden_size: 4,
        num_attention_heads: 2,
        num_key_value_heads: 1,
        head_dim: 2,
        num_hidden_layers: 1,
        intermediate_size: 6,
        rms_norm_eps: setting(1e-5),
        rope_theta: setting(10000.0),
        max_position_embeddings: 16,
    };
    let model = InklingSmall::load_tp(Device::Rocm(1), cfg);
    assert_eq!(model.device, Device::Rocm(1));
    assert!(model.device.is_rocm());
    assert_eq!(model.device.ordinal(), 1);
    assert_eq!(model.cfg.modality(), ModalityHint::TextInTextOut);
    assert!(matches!(model.forward(), Err(Error::Unimplemented { .. })));
}

// Rows.

#[test]
fn ids_outside_the_vocabulary_give_zeros() {
    let mut cfg = gemma2_config();
    cfg.vocab_size = 3;
    cfg.hidden_size = 2;
    let table = [1.0f32, 2.0, 3.0, 4.0, 5.0];
    let model = Gemma2 { cfg, layers: 2 };
    assert_eq!(
        model.embed(&table, &[1, 0, 7, 2], 0.0),
        vec![3.0, 4.0, 1.0, 2.0, 0.0, 0.0, 0.0, 0.0]
    );
    let granite = GraniteMoeHybrid {
        cfg: GraniteMoeHybridConfig {
            vocab_size: 2,
            hidden_size: 2,
            ..GraniteMoeHybridConfig::default()
        },
        layers: 1,
    };
    assert_eq!(granite.embed(&table, &[2, 1], 0.0), vec![0.0, 0.0, 3.0, 4.0]);
    let mut kimi = kimi_config();
    kimi.vocab_size = 2;
    kimi.hidden_size = 2;
    let model = KimiK3 { cfg: kimi };
    assert_eq!(model.embed(&table, &[1, 2, 0], 0.0), vec![3.0, 4.0, 0.0, 0.0, 1.0, 2.0]);
    assert_eq!(model.embed(&table, &[], 0.0), Vec::<f32>::new());
}
