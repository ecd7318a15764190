//! Blocks and passes, run on the host.

use grim_transformer::block_program::{Activation, BlockOp, Part, Reg, RopeSections};
use grim_transformer::block_run::{add_rows, run_block, Outside};
use grim_transformer::cached_attention::attend_history;
use grim_transformer::gemma::{GemmaBlock, GemmaConfig};
use grim_transformer::gemma2::{Gemma2, Gemma2Block, Gemma2Config};
use grim_transformer::gemma3n::{Gemma3n, Gemma3nConfig};
use grim_transformer::gpt2::{Gpt2, Gpt2Block, Gpt2Config, LayerNorm};
use grim_transformer::gptj::{GptJ, GptJBlock, GptJConfig};
use grim_transformer::granite_moe_hybrid::{GraniteMoeHybrid, GraniteMoeHybridConfig};
use grim_transformer::hunyuan_vl::{HunyuanVlBlock, HunyuanVlConfig};
use grim_transformer::hyv3::{HyV3, HyV3Block, HyV3Config};
use grim_transformer::kernels::{activate, cap_logit};
use grim_transformer::kv_attention::RefKvCache;
use grim_transformer::numeric::Real;
use grim_transformer::pass_run::{run_pass, PassState};
use grim_transformer::scalar::{Number, Relation, ScalarOp, Scalars};
use grim_transformer::stages::{positions_or_count, Stage};

fn calc(op: ScalarOp, a: f32, b: f32) -> f32 {
    match op {
        ScalarOp::Plus => a + b,
        ScalarOp::Minus => a - b,
        ScalarOp::Times => a * b,
        ScalarOp::Over => a / b,
        ScalarOp::Larger => a.max(b),
        ScalarOp::Smaller => a.min(b),
        ScalarOp::Power => a.powf(b),
        ScalarOp::Negate => -a,
        ScalarOp::Exp => a.exp(),
        ScalarOp::Ln => a.ln(),
        ScalarOp::Root => a.sqrt(),
        ScalarOp::Tanh => a.tanh(),
    }
}

fn single() -> Scalars<
    f32,
    impl Fn(ScalarOp, f32, f32) -> f32,
    impl Fn(Number) -> f32,
    impl Fn(Relation, f32, f32) -> bool,
> {
    Scalars {
        op: calc,
        given: |n: Number| match n {
            Number::Count(c) => c as f32,
            Number::Real(r) => f64::from_bits(r.bits) as f32,
        },
        holds: |r: Relation, a: f32, b: f32| match r {
            Relation::Same => a == b,
            Relation::Above => a > b,
        },
        nothing: 0.0,
    }
}

fn matmul(x: &[f32], w: &[f32], inputs: usize) -> Vec<f32> {
    let outputs = w.len() / inputs;
    let mut out = Vec::new();
    for row in x.chunks(inputs) {
        for o in 0..outputs {
            out.push((0..inputs).map(|i| row[i] * w[o * inputs + i]).sum());
        }
    }
    out
}

fn setting(x: f64) -> Real {
    Real { bits: x.to_bits() }
}

fn rms(rows: &[f32], width: usize, eps: f32) -> Vec<f32> {
    let mut out = Vec::new();
    for row in rows.chunks(width) {
        let mean = row.iter().map(|v| v * v).sum::<f32>() / width as f32;
        out.extend(row.iter().map(|v| v / (mean + eps).sqrt()));
    }
    out
}

fn rope(rows: &[f32], heads: usize, dim: usize, rotated: usize, positions: &[u32]) -> Vec<f32> {
    let half = rotated / 2;
    let mut out = rows.to_vec();
    for (r, row) in out.chunks_mut(dim).enumerate() {
        let pos = positions[r / heads] as f32;
        for i in 0..half {
            let angle = pos / 10000f32.powf(2.0 * i as f32 / rotated as f32);
            let (a, b) = (row[i], row[i + half]);
            row[i] = a * angle.cos() - b * angle.sin();
            row[i + half] = a * angle.sin() + b * angle.cos();
        }
    }
    out
}

// Gemma.

fn gemma_block() -> GemmaBlock {
    GemmaBlock::new(&GemmaConfig {
        vocab_size: 16,
        hidden_size: 8,
        num_heads: 4,
        num_kv_heads: 2,
        head_dim: 2,
        num_layers: 1,
        intermediate_size: 8,
        rms_norm_eps: setting(1e-6),
    })
}

fn gemma_forward_cached(
    block: &GemmaBlock,
    input: &[f32],
    positions: &[u32],
    cache: &mut RefKvCache<f32>,
) -> Vec<f32> {
    let x = single();
    let apply = |op: BlockOp, rows: Vec<f32>| match op {
        BlockOp::Norm { width, .. } => rms(&rows, width, 1e-6),
        BlockOp::Linear { inputs, outputs, .. } => {
            matmul(&rows, &vec![0.01f32; inputs * outputs], inputs)
        }
        BlockOp::Rope { heads, head_dim, rotary_dim, .. } => {
            rope(&rows, heads, head_dim, rotary_dim, positions)
        }
        _ => unreachable!(),
    };
    block.forward_cached(&x, input.to_vec(), positions.len(), cache, apply)
}

fn gemma_forward(block: &GemmaBlock, input: &[f32], positions: &[u32]) -> Vec<f32> {
    gemma_forward_cached(block, input, positions, &mut RefKvCache::new())
}

#[test]
fn gemma_test_prefill_matches_cacheless() {
    let blk = gemma_block();
    let n = 3;
    let x: Vec<f32> = (0..n * 8).map(|i| (i as f32) * 0.1).collect();
    let pos: Vec<u32> = (0..n).map(|i| i as u32).collect();
    let a = gemma_forward_cached(&blk, &x, &pos, &mut RefKvCache::new());
    let b = gemma_forward(&blk, &x, &pos);
    assert_eq!(a.len(), b.len());
    for (av, bv) in a.iter().zip(b.iter()) {
        assert!((av - bv).abs() <= 1e-4, "prefill mismatch {av} vs {bv}");
    }
}

#[test]
fn gemma_test_decode_sees_prior_context() {
    let blk = gemma_block();
    let prompt: Vec<f32> = (0..2 * 8).map(|i| (i as f32) * 0.1).collect();
    let dec = vec![0.9f32; 8];
    let mut cache = RefKvCache::new();
    let _ = gemma_forward_cached(&blk, &prompt, &[0, 1], &mut cache);
    let a = gemma_forward_cached(&blk, &dec, &[2], &mut cache);
    let b = gemma_forward(&blk, &dec, &[0]);
    let diff = a
        .iter()
        .zip(b.iter())
        .map(|(x, y)| (x - y).abs())
        .fold(0.0f32, f32::max);
    assert!(diff > 1e-5, "decode ignored cached prefix (diff={diff})");
    assert_eq!(cache.past_len, 3, "cache should hold prompt + decode");
}

#[test]
fn gemma_test_cache_len_invariant() {
    let blk = gemma_block();
    let p = 4usize;
    let n = 3usize;
    let prompt: Vec<f32> = (0..p * 8).map(|i| (i as f32) * 0.05).collect();
    let mut cache = RefKvCache::new();
    let _ = gemma_forward_cached(&blk, &prompt, &(0..p as u32).collect::<Vec<_>>(), &mut cache);
    assert_eq!(cache.past_len, p);
    for i in 0..n {
        let tok: Vec<f32> = (0..8).map(|j| (j as f32) * 0.03 + i as f32).collect();
        let _ = gemma_forward_cached(&blk, &tok, &[(p + i) as u32], &mut cache);
    }
    assert_eq!(cache.past_len, p + n);
}

#[test]
fn gemma_decode_matches_prefill() {
    let blk = gemma_block();
    let x: Vec<f32> = (0..3 * 8).map(|i| ((i * 7) % 5) as f32 * 0.3 - 0.6).collect();
    let whole = gemma_forward(&blk, &x, &[0, 1, 2]);
    let mut cache = RefKvCache::new();
    let mut steps = Vec::new();
    for p in 0..3u32 {
        let row = &x[p as usize * 8..(p as usize + 1) * 8];
        steps.extend(gemma_forward_cached(&blk, row, &[p], &mut cache));
    }
    for (a, b) in whole.iter().zip(&steps) {
        assert!((a - b).abs() < 1e-5);
    }
}

#[test]
fn attention_may_be_left_to_the_surroundings() {
    let blk = gemma_block();
    let s = single();
    let positions = [0u32, 1];
    let x: Vec<f32> = (0..16).map(|i| (i as f32) * 0.1 - 0.5).collect();
    let apply = |op: BlockOp, rows: Vec<f32>| match op {
        BlockOp::Norm { width, .. } => rms(&rows, width, 1e-6),
        BlockOp::Linear { inputs, outputs, .. } => {
            matmul(&rows, &vec![0.01f32; inputs * outputs], inputs)
        }
        BlockOp::Rope { heads, head_dim, rotary_dim, .. } => {
            rope(&rows, heads, head_dim, rotary_dim, &positions)
        }
        _ => unreachable!(),
    };
    let t = single();
    let outside = Outside {
        apply,
        attend: |a, q: Vec<f32>, k: Vec<f32>, v: Vec<f32>| attend_history(&t, a, &q, &k, &v, 2, 0),
    };
    let mut cache = RefKvCache::new();
    let out = blk.forward_kv(&s, &outside, x.clone(), 2, &mut cache);
    assert_eq!(out, gemma_forward(&blk, &x, &positions));
    assert_eq!(cache.past_len, 2);
    assert_eq!(cache.k.len(), 2 * 4);
}

// GPT-2.

fn gpt2_block() -> Gpt2Block {
    Gpt2Block::new(&Gpt2Config {
        vocab_size: 16,
        hidden_size: 8,
        num_heads: 4,
        num_layers: 1,
        intermediate_size: 8,
        layer_norm_epsilon: setting(1e-5),
        max_seq_len: 16,
    })
}

fn ramp(inputs: usize, outputs: usize) -> Vec<f32> {
    (0..outputs * inputs).map(|i| (i as f32) * 0.01 + 0.01).collect()
}

fn gpt2_forward_cached(block: &Gpt2Block, input: &[f32], cache: &mut RefKvCache<f32>) -> Vec<f32> {
    let x = single();
    let y = single();
    let norm = LayerNorm { dim: 8, eps: setting(1e-5) };
    let apply = |op: BlockOp, rows: Vec<f32>| match op {
        BlockOp::Norm { width, .. } => {
            let dims = [rows.len() / width, width];
            norm.forward(&y, &rows, &dims, &vec![1.0; width], None)
        }
        BlockOp::Linear { inputs, outputs, .. } => matmul(&rows, &ramp(inputs, outputs), inputs),
        _ => unreachable!(),
    };
    block.forward_cached(&x, input.to_vec(), input.len() / 8, cache, apply)
}

#[test]
fn gpt2_test_prefill_matches_cacheless() {
    let blk = gpt2_block();
    let n = 3;
    let x: Vec<f32> = (0..n * 8).map(|i| (i as f32) * 0.1).collect();
    let a = gpt2_forward_cached(&blk, &x, &mut RefKvCache::new());
    let b = gpt2_forward_cached(&blk, &x, &mut RefKvCache::new());
    assert_eq!(a.len(), b.len());
    for (av, bv) in a.iter().zip(b.iter()) {
        assert!((av - bv).abs() <= 1e-4, "prefill mismatch {av} vs {bv}");
    }
}

#[test]
fn gpt2_test_decode_sees_prior_context() {
    let blk = gpt2_block();
    let prompt: Vec<f32> = (0..2 * 8).map(|i| (i as f32) * 0.1).collect();
    let dec = vec![0.9f32; 8];
    let mut cache = RefKvCache::new();
    let _ = gpt2_forward_cached(&blk, &prompt, &mut cache);
    let a = gpt2_forward_cached(&blk, &dec, &mut cache);
    let b = gpt2_forward_cached(&blk, &dec, &mut RefKvCache::new());
    let diff = a
        .iter()
        .zip(b.iter())
        .map(|(x, y)| (x - y).abs())
        .fold(0.0f32, f32::max);
    assert!(diff > 1e-5, "decode ignored cached prefix (diff={diff})");
    assert_eq!(cache.past_len, 3, "cache should hold prompt + decode");
}

#[test]
fn gpt2_test_cache_len_invariant() {
    let blk = gpt2_block();
    let p = 4usize;
    let n = 3usize;
    let prompt: Vec<f32> = (0..p * 8).map(|i| (i as f32) * 0.05).collect();
    let mut cache = RefKvCache::new();
    let _ = gpt2_forward_cached(&blk, &prompt, &mut cache);
    assert_eq!(cache.past_len, p);
    for i in 0..n {
        let tok: Vec<f32> = (0..8).map(|j| (j as f32) * 0.03 + i as f32).collect();
        let _ = gpt2_forward_cached(&blk, &tok, &mut cache);
    }
    assert_eq!(cache.past_len, p + n);
}

#[test]
fn layer_norm_by_hand() {
    let x = single();
    let norm = LayerNorm { dim: 2, eps: setting(1e-5) };
    let out = norm.forward(&x, &[1.0, 3.0, 5.0, 5.0], &[2, 2], &[2.0, 4.0], Some(&[0.5, 0.25]));
    let inv = 1.0 / (1.0f32 + 1e-5).sqrt();
    assert!((out[0] - (-inv * 2.0 + 0.5)).abs() < 1e-6);
    assert!((out[1] - (inv * 4.0 + 0.25)).abs() < 1e-6);
    assert_eq!(&out[2..], &[0.5, 0.25]);
    let plain = norm.forward(&x, &[1.0, 3.0], &[1, 2], &[1.0, 1.0], None);
    assert!((plain[0] + inv).abs() < 1e-6);
}

// Blocks that keep no history.

#[test]
fn gptj_runs_both_sublayers_on_the_same_rows() {
    let cfg = GptJConfig {
        hidden_size: 4,
        num_attention_heads: 2,
        head_dim: 2,
        rotary_dim: 2,
        ..GptJConfig::default()
    };
    let ops = GptJBlock::new(&cfg).forward();
    let reads = |part: Part| {
        ops.iter()
            .find_map(|op| match op {
                BlockOp::Linear { src, part: p, .. } if *p == part => Some(*src),
                _ => None,
            })
            .unwrap()
    };
    assert_eq!(reads(Part::Query), Reg::Normed);
    assert_eq!(reads(Part::Gate), Reg::Normed);
    let s = single();
    let t = single();
    let outside = Outside {
        apply: |op: BlockOp, rows: Vec<f32>| match op {
            BlockOp::Linear { inputs, outputs, .. } => {
                matmul(&rows, &vec![0.1f32; inputs * outputs], inputs)
            }
            _ => rows,
        },
        attend: |a, q: Vec<f32>, k: Vec<f32>, v: Vec<f32>| attend_history(&t, a, &q, &k, &v, 1, 0),
    };
    let design = GptJBlock::new(&cfg).design;
    let mut cache = RefKvCache::new();
    let out = run_block(&s, &outside, &design, vec![1.0; 4], 1, &mut cache);
    // Query, key and value rows are 0.4; so is what attention gives.
    let attn = 0.1 * 4.0 * 0.4f32;
    let g = 0.4f32;
    let act = activate(&s, Activation::GeluRoot, g);
    let mlp = 0.1 * act * design.inter as f32;
    for v in out {
        assert!((v - (1.0 + attn + mlp)).abs() < 1e-5);
    }
    assert_eq!(cache.past_len, 0);
}

#[test]
fn hy_v3_norms_heads_before_it_rotates_them() {
    let ops = HyV3Block::new(&HyV3Config::default()).forward();
    let at = |f: &dyn Fn(&BlockOp) -> bool| ops.iter().position(|op| f(op)).unwrap();
    let norm = at(&|op| matches!(op, BlockOp::HeadNorm { reg: Reg::Query, .. }));
    let rope = at(&|op| matches!(op, BlockOp::Rope { reg: Reg::Query, .. }));
    let attend = at(&|op| matches!(op, BlockOp::Attend { .. }));
    assert!(norm < rope && rope < attend);
}

fn hy_v3_with_queries_times(factor: f32) -> Vec<f32> {
    let cfg = HyV3Config {
        hidden_size: 4,
        num_attention_heads: 2,
        num_key_value_heads: 2,
        head_dim: 2,
        intermediate_size: 4,
        ..HyV3Config::default()
    };
    let t = single();
    let outside = Outside {
        apply: |op: BlockOp, rows: Vec<f32>| match op {
            BlockOp::Norm { width, .. } => rms(&rows, width, 1e-6),
            BlockOp::HeadNorm { head_dim, .. } => rms(&rows, head_dim, 0.0),
            BlockOp::Linear { part, inputs, outputs, .. } => {
                let by = if part == Part::Query { factor } else { 1.0 };
                let w: Vec<f32> = ramp(inputs, outputs).iter().map(|v| v * by).collect();
                matmul(&rows, &w, inputs)
            }
            BlockOp::Rope { heads, head_dim, rotary_dim, .. } => {
                rope(&rows, heads, head_dim, rotary_dim, &[0, 1])
            }
            _ => rows,
        },
        attend: |a, q: Vec<f32>, k: Vec<f32>, v: Vec<f32>| attend_history(&t, a, &q, &k, &v, 2, 0),
    };
    let design = HyV3Block::new(&cfg).design;
    let input: Vec<f32> = (0..8).map(|i| (i as f32) * 0.3 - 1.0).collect();
    run_block(&single(), &outside, &design, input, 2, &mut RefKvCache::new())
}

#[test]
fn hy_v3_takes_no_notice_of_a_scale_of_its_queries() {
    let plain = hy_v3_with_queries_times(1.0);
    let scaled = hy_v3_with_queries_times(7.5);
    for (a, b) in plain.iter().zip(&scaled) {
        assert!((a - b).abs() < 1e-4);
    }
}

fn gptj_at(positions: &[u32], rotary: usize, zeros: usize) -> Vec<f32> {
    let cfg = GptJConfig {
        hidden_size: 4,
        num_attention_heads: 1,
        head_dim: 4,
        rotary_dim: rotary,
        ..GptJConfig::default()
    };
    let t = single();
    let outside = Outside {
        apply: |op: BlockOp, rows: Vec<f32>| match op {
            BlockOp::Norm { width, .. } => rms(&rows, width, 1e-6),
            BlockOp::Linear { part, inputs, outputs, .. } => {
                let mut w = ramp(inputs, outputs);
                if part == Part::Query || part == Part::Key {
                    w[..zeros * inputs].iter_mut().for_each(|v| *v = 0.0);
                }
                matmul(&rows, &w, inputs)
            }
            BlockOp::Rope { heads, head_dim, rotary_dim, .. } => {
                rope(&rows, heads, head_dim, rotary_dim, positions)
            }
            _ => rows,
        },
        attend: |a, q: Vec<f32>, k: Vec<f32>, v: Vec<f32>| attend_history(&t, a, &q, &k, &v, 2, 0),
    };
    let design = GptJBlock::new(&cfg).design;
    let input: Vec<f32> = (0..8).map(|i| (i as f32) * 0.9 - 3.0).collect();
    run_block(&single(), &outside, &design, input, 2, &mut RefKvCache::new())
}

#[test]
fn gptj_positions_drop_out_where_rotated_columns_are_zero() {
    assert_eq!(gptj_at(&[0, 1], 2, 2), gptj_at(&[5, 90], 2, 2));
    assert_ne!(gptj_at(&[0, 1], 2, 0), gptj_at(&[5, 90], 2, 0));
}

#[test]
fn gemma2_caps_its_scores() {
    let block = |cap: Option<f64>| {
        Gemma2Block::new(&Gemma2Config {
            hidden_size: 4,
            num_attention_heads: 2,
            num_key_value_heads: 1,
            head_dim: 2,
            intermediate_size: 4,
            attn_logit_softcapping: cap.map(setting),
            ..Gemma2Config::default()
        })
    };
    let apply = |op: BlockOp, rows: Vec<f32>| match op {
        BlockOp::Linear { inputs, outputs, .. } => matmul(&rows, &ramp(inputs, outputs), inputs),
        BlockOp::Rope { heads, head_dim, rotary_dim, .. } => {
            rope(&rows, heads, head_dim, rotary_dim, &[0, 1, 2])
        }
        _ => rows,
    };
    let input: Vec<f32> = (0..12).map(|i| (((i * 5) % 7) as f32 - 3.0) * 20.0).collect();
    let x = single();
    let free = block(None).run(&x, input.clone(), 3, apply);
    let wide = block(Some(1e6)).run(&x, input.clone(), 3, apply);
    let tight = block(Some(1e-4)).run(&x, input.clone(), 3, apply);
    assert_eq!(free.len(), 12);
    for (a, b) in free.iter().zip(&wide) {
        assert!((a - b).abs() < 1e-2 * (1.0 + a.abs()));
    }
    assert!(free.iter().zip(&tight).any(|(a, b)| (a - b).abs() > 1e-2));
    // The first token sees itself only.
    for i in 0..4 {
        assert!((free[i] - tight[i]).abs() < 1e-3 * (1.0 + free[i].abs()));
    }
}

#[test]
fn hunyuan_vl_shares_its_frequencies_out() {
    let block = HunyuanVlBlock::new(&HunyuanVlConfig::default());
    let want = RopeSections { first: 2, second: 2, third: 2, fourth: 2 };
    let sections: Vec<_> = block
        .forward()
        .iter()
        .filter_map(|op| match op {
            BlockOp::Rope { sections, .. } => Some(*sections),
            _ => None,
        })
        .collect();
    assert_eq!(sections, vec![Some(want), Some(want)]);
    assert_eq!(want.frequency_positions([7, 1, 2, 3], 8), vec![7, 7, 1, 1, 2, 2, 3, 3]);
    assert_eq!(want.frequency_positions([5; 4], 8), vec![5; 8]);
    let uneven = RopeSections { first: 1, second: 0, third: 2, fourth: 1 };
    assert_eq!(uneven.frequency_positions([7, 1, 2, 3], 6), vec![7, 2, 2, 3, 3, 3]);
}

// Whole passes.

fn run_zero_layers(stages: &[Stage], ids: &[u32], vocab: usize, hidden: usize) -> PassState<f32> {
    let x = single();
    let table: Vec<f32> = (0..vocab * hidden).map(|i| ((i % 13) as f32) * 0.05 - 0.3).collect();
    let head: Vec<f32> = (0..vocab * hidden).map(|i| ((i % 7) as f32) * 0.1 - 0.3).collect();
    run_pass(&x, stages, 0, |stage: Stage, rows: Vec<f32>| match stage {
        Stage::Embed => ids
            .iter()
            .flat_map(|id| table[*id as usize * hidden..(*id as usize + 1) * hidden].to_vec())
            .collect(),
        Stage::Norm => rms(&rows, hidden, 1e-6),
        Stage::Head => matmul(&rows, &head, hidden),
        _ => unreachable!(),
    })
}

fn logits_and_hidden(state: &PassState<f32>, tokens: usize, vocab: usize, hidden: usize) {
    assert_eq!(state.rows.len(), tokens * vocab);
    let last_h = state.hidden.as_ref();
    assert!(last_h.is_some());
    assert_eq!(last_h.unwrap().len(), tokens * hidden);
}

#[test]
fn test_gemma2_forward_and_session_state() {
    let cfg = Gemma2Config {
        vocab_size: 32,
        hidden_size: 16,
        intermediate_size: 32,
        num_hidden_layers: 0,
        ..Gemma2Config::default()
    };
    let model = Gemma2::random(cfg);
    let state = run_zero_layers(&model.forward(2), &[1, 4], 32, 16);
    logits_and_hidden(&state, 2, 32, 16);
    assert!(state.rows.iter().all(|v| v.abs() <= 30.0));
}

#[test]
fn test_gptj_forward_and_session_state() {
    let cfg = GptJConfig {
        vocab_size: 32,
        hidden_size: 16,
        num_attention_heads: 2,
        head_dim: 8,
        rotary_dim: 8,
        num_hidden_layers: 0,
        ..GptJConfig::default()
    };
    let model = GptJ::random(cfg);
    let state = run_zero_layers(&model.forward(2), &[1, 4], 32, 16);
    logits_and_hidden(&state, 2, 32, 16);
}

#[test]
fn test_granite_moe_forward_and_session_state() {
    let cfg = GraniteMoeHybridConfig {
        vocab_size: 32,
        hidden_size: 16,
        intermediate_size: 32,
        num_hidden_layers: 0,
        ..GraniteMoeHybridConfig::default()
    };
    let model = GraniteMoeHybrid::random(cfg);
    let state = run_zero_layers(&model.forward(2), &[2, 5], 32, 16);
    logits_and_hidden(&state, 2, 32, 16);
}

#[test]
fn test_hy_v3_forward_and_session_state() {
    let cfg = HyV3Config {
        vocab_size: 32,
        hidden_size: 16,
        intermediate_size: 32,
        num_hidden_layers: 0,
        ..HyV3Config::default()
    };
    let model = HyV3::random(cfg);
    let state = run_zero_layers(&model.forward(2), &[1, 4], 32, 16);
    logits_and_hidden(&state, 2, 32, 16);
}

#[test]
fn gemma3n_scales_what_it_embeds() {
    let cfg = Gemma3nConfig { hidden_size: 16, num_layers: 0, ..Gemma3nConfig::default() };
    let stages = Gemma3n { cfg }.forward(1);
    let x = single();
    let state = run_pass(&x, &stages[..2], 0, |_, _| vec![1.0f32, -2.0]);
    assert_eq!(state.rows, vec![4.0, -8.0]);
}

#[test]
fn layers_run_in_order_and_the_session_moves_on() {
    let cfg = Gpt2Config {
        vocab_size: 16,
        hidden_size: 8,
        num_heads: 4,
        num_layers: 3,
        intermediate_size: 8,
        layer_norm_epsilon: setting(1e-5),
        max_seq_len: 16,
    };
    let stages = Gpt2 { cfg }.forward(5);
    let layers: Vec<usize> = stages
        .iter()
        .filter_map(|s| match s {
            Stage::Layer(i) => Some(*i),
            _ => None,
        })
        .collect();
    assert_eq!(layers, vec![0, 1, 2]);
    assert_eq!(stages[..2], [Stage::Embed, Stage::AddPositions]);
    let x = single();
    let state = run_pass(&x, &[Stage::Advance(5)], 7, |_, rows: Vec<f32>| rows);
    assert_eq!(state.position, 12);
}

#[test]
fn positions_count_up_where_none_are_given() {
    assert_eq!(positions_or_count(None, 3), vec![0, 1, 2]);
    assert_eq!(positions_or_count(Some(vec![7, 9]), 3), vec![7, 9]);
}

// Formulas.

#[test]
fn test_gemma2_logit_softcapping_bounds() {
    let cap = 30.0f32;
    let large_val = 1000.0f32;
    let softcapped = cap_logit(&single(), cap, large_val);
    assert!(softcapped <= cap);
    assert!((softcapped - cap).abs() < 1e-4);
}

#[test]
fn small_logits_are_hardly_capped() {
    let v = cap_logit(&single(), 30.0, 3.0);
    assert_eq!(v, 30.0 * (3.0f32 / 30.0).tanh());
}

#[test]
fn test_granite_moe_residual_multiplier_scaling() {
    let x = vec![1.0f32; 8];
    let delta = vec![2.0f32; 8];
    let out = add_rows(&single(), &x, &delta, Some(setting(0.22)));
    for v in out {
        assert!((v - 1.44f32).abs() < 1e-6);
    }
}

#[test]
fn activations_match_their_formulas() {
    let x = single();
    for z in [-3.0f32, -0.5, 0.0, 0.25, 2.0] {
        assert_eq!(activate(&x, Activation::Silu, z), z / (1.0 + (-z).exp()));
        assert_eq!(
            activate(&x, Activation::SiluSigmoid, z),
            z * (1.0 / (1.0 + (-z).exp()))
        );
        let factored = 0.5 * z * (1.0 + (z * 0.797884f32 * (1.0 + 0.044715 * z * z)).tanh());
        assert!((activate(&x, Activation::GeluFactored, z) - factored).abs() < 1e-6);
        let series = 0.5 * z * (1.0 + (0.7978846f32 * (z + 0.044715 * z * z * z)).tanh());
        assert!((activate(&x, Activation::GeluSeries, z) - series).abs() < 1e-6);
        assert!((activate(&x, Activation::GeluPower, z) - series).abs() < 1e-6);
        let root = (2.0f32 / std::f32::consts::PI).sqrt();
        let rooted = 0.5 * z * (1.0 + (root * (z + 0.044715 * z.powi(3))).tanh());
        assert!((activate(&x, Activation::GeluRoot, z) - rooted).abs() < 1e-6);
    }
}
