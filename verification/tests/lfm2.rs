//! LFM2: layers, the short convolution, schedules and captured decoding.

use grim_transformer::device::{Device, DeviceBuffer};
use grim_transformer::error::Error;
use grim_transformer::flags::{only_on, only_one, unless_off, unless_zero};
use grim_transformer::gla_mega::{GlaOpType, MegaSchedule};
use grim_transformer::lfm2::{
    build_fused_qkv_pack, fuse_qkv_weights, fused_qkv_dot4_decode, ConvKernel, FusedQkvInfo, Lfm2,
    Lfm2AttentionMode, Lfm2Block, Lfm2Config, LinearInfo, Q80Weights,
};
use grim_transformer::lfm2_cache::{
    append_history, cache_offset, ensure_attention, ensure_shortconv, install_arenas,
    AttentionCache, Lfm2LayerCache,
};
use grim_transformer::lfm2_moe::ExpertStacks;
use grim_transformer::lfm2_run::{Lfm2HostWeights, Lfm2Part};
use grim_transformer::surroundings::{HeadShape, Surroundings};
use grim_transformer::lfm2_graph::{graph_dims, DecodeGraph, ReplayOp};
use grim_transformer::lfm2_step::{
    after_device_step, rope_positions, AfterDeviceStep, DeviceStep, ForwardOp, StepEnv,
};
use grim_transformer::kernels::activate_gated;
use grim_transformer::block_program::{Activation, AttentionDesign};
use grim_transformer::cached_attention::attend_history;
use grim_transformer::numeric::Real;
use grim_transformer::scalar::{Number, Relation, ScalarOp, Scalars};
use grim_transformer::shortconv::shortconv_host;

fn calc(op: ScalarOp, a: f32, b: f32) -> f32 {
    match op {
        ScalarOp::Plus => a + b,
        ScalarOp::Minus => a - b,
        ScalarOp::Times => a * b,
        ScalarOp::Over => a / b,
        ScalarOp::Larger => a.max(b),
        ScalarOp::Smaller => a.min(b),
        ScalarOp::Power => a.powf(b),
        ScalarOp::Negate => -a,
        ScalarOp::Exp => a.exp(),
        ScalarOp::Ln => a.ln(),
        ScalarOp::Root => a.sqrt(),
        ScalarOp::Tanh => a.tanh(),
    }
}

fn single() -> Scalars<
    f32,
    impl Fn(ScalarOp, f32, f32) -> f32,
    impl Fn(Number) -> f32,
    impl Fn(Relation, f32, f32) -> bool,
> {
    Scalars {
        op: calc,
        given: |n: Number| match n {
            Number::Count(c) => c as f32,
            Number::Real(r) => f64::from_bits(r.bits) as f32,
        },
        holds: |r: Relation, a: f32, b: f32| match r {
            Relation::Same => a == b,
            Relation::Above => a > b,
        },
        nothing: 0.0,
    }
}

fn matmul(x: &[f32], w: &[f32], inputs: usize) -> Vec<f32> {
    let outputs = w.len() / inputs;
    let mut out = Vec::new();
    for row in x.chunks(inputs) {
        for o in 0..outputs {
            out.push((0..inputs).map(|i| row[i] * w[o * inputs + i]).sum());
        }
    }
    out
}

fn setting(x: f64) -> Real {
    Real { bits: x.to_bits() }
}

fn square(n: usize) -> LinearInfo {
    LinearInfo { inputs: n, outputs: n }
}

fn bare_block(hidden: usize) -> Lfm2Block {
    Lfm2Block {
        wq: None,
        wk: None,
        wv: None,
        wo: None,
        attn_q_norm: None,
        attn_k_norm: None,
        wqkv_codes: None,
        wqkv_exps: None,
        gamma_q: None,
        gamma_k: None,
        wqkv_q80_fused: None,
        w_gate_up_q80_fused: None,
        shortconv_in_proj: None,
        shortconv_conv: None,
        shortconv_conv_vec: None,
        shortconv_out_proj: None,
        ffn_gate: square(hidden),
        ffn_up: square(hidden),
        ffn_down: square(hidden),
        ffn_gate_inp: None,
        ffn_gate_exps: None,
        ffn_up_exps: None,
        ffn_down_exps: None,
        ffn_exp_probs_b: None,
        q80: Q80Weights {
            wq: false,
            wk: false,
            wv: false,
            in_proj: false,
            gate: false,
            up: false,
            down: false,
        },
        attention_mode: Lfm2AttentionMode::Softmax,
        is_moe: false,
        n_expert: 0,
        n_expert_used: 0,
        num_heads: 1,
        num_kv_heads: 1,
        head_dim: hidden,
        rope_theta: setting(10000.0),
        eps: setting(1e-5),
    }
}

#[test]
fn lfm2_validate_names_missing_variant_fields() {
    let block = Lfm2Block {
        wq: Some(square(8)),
        wk: Some(square(8)),
        wv: Some(square(8)),
        ..bare_block(8)
    };
    let err = block.validate(3).expect_err("incoherent block must fail");
    let msg = err.message();
    assert!(
        msg.contains("layer 3") && (msg.contains("wo") || msg.contains("wq")),
        "validate must name the layer and missing field: {msg}"
    );

    let mut conv_block = Lfm2Block {
        shortconv_in_proj: Some(LinearInfo { inputs: 8, outputs: 24 }),
        ..bare_block(8)
    };
    let err = conv_block
        .validate(5)
        .expect_err("shortconv without kernel must fail");
    let msg = err.message();
    assert!(
        msg.contains("shortconv_conv"),
        "validate must name the missing shortconv field: {msg}"
    );
    conv_block.shortconv_conv = Some(ConvKernel { taps: Some(2) });
    conv_block.shortconv_conv_vec = Some(12);
    conv_block.shortconv_out_proj = Some(square(8));
    assert!(
        conv_block.validate(5).is_ok(),
        "coherent ShortConv block must pass"
    );
}

fn weights(seed: u64, n: usize) -> Vec<f32> {
    let mut st = seed;
    (0..n)
        .map(|_| {
            st = st
                .wrapping_mul(6364136223846793005)
                .wrapping_add(1442695040888963407);
            (((st >> 33) % 2000) as f32 - 1000.0) / 1000.0 * 0.4
        })
        .collect()
}

const HIDDEN: usize = 4;
const L_CACHE: usize = 3;

fn conv_block() -> Lfm2Block {
    Lfm2Block {
        shortconv_in_proj: Some(LinearInfo { inputs: HIDDEN, outputs: 3 * HIDDEN }),
        shortconv_conv: Some(ConvKernel { taps: Some(L_CACHE) }),
        shortconv_conv_vec: Some(HIDDEN * L_CACHE),
        shortconv_out_proj: Some(square(HIDDEN)),
        ..bare_block(HIDDEN)
    }
}

fn rms(rows: &[f32]) -> Vec<f32> {
    let mut out = Vec::new();
    for row in rows.chunks(HIDDEN) {
        let mean = row.iter().map(|v| v * v).sum::<f32>() / HIDDEN as f32;
        out.extend(row.iter().map(|v| v / (mean + 1e-5).sqrt()));
    }
    out
}

/// Runs the operations of a convolution layer one by one; no kernel of the
/// device is there.
fn run_ops(block: &Lfm2Block, input: &[f32], cache: &mut Option<Lfm2LayerCache<f32>>) -> Vec<f32> {
    let x = single();
    let steps = input.len() / HIDDEN;
    let env = StepEnv {
        device: Device::Cpu,
        steps,
        capture: false,
        rope_dev_base: false,
    };
    let mut residual = input.to_vec();
    let mut rows = Vec::new();
    let mut on_host = true;
    for op in block.forward(&env) {
        match op {
            ForwardOp::AttnNorm | ForwardOp::FfnNorm => rows = rms(&residual),
            ForwardOp::ShortConvInProj => {
                rows = matmul(&rows, &weights(1, 3 * HIDDEN * HIDDEN), HIDDEN)
            }
            ForwardOp::ShortConvState => {
                ensure_shortconv(cache, HIDDEN, block.l_cache(), 0.0).unwrap()
            }
            ForwardOp::ShortConvDevice { .. } => {
                on_host =
                    after_device_step(DeviceStep::Unimplemented) == AfterDeviceStep::RunOnHost;
            }
            ForwardOp::ShortConvHost => {
                assert!(on_host);
                let state = match cache {
                    Some(Lfm2LayerCache::ShortConv(st)) => st,
                    _ => panic!("a convolution keeps inputs"),
                };
                let taps = block.l_cache();
                let kernel = weights(2, HIDDEN * L_CACHE);
                rows = shortconv_host(&x, &rows, &kernel, steps, HIDDEN, taps, state);
            }
            ForwardOp::ShortConvOutProj => {
                rows = matmul(&rows, &weights(3, HIDDEN * HIDDEN), HIDDEN)
            }
            ForwardOp::ResidualAdd => {
                for (r, v) in residual.iter_mut().zip(&rows) {
                    *r += v;
                }
            }
            ForwardOp::DenseFfn => {
                let gate = matmul(&rows, &weights(4, HIDDEN * HIDDEN), HIDDEN);
                let up = matmul(&rows, &weights(5, HIDDEN * HIDDEN), HIDDEN);
                let act = activate_gated(&x, Activation::Silu, &gate, &up);
                rows = matmul(&act, &weights(6, HIDDEN * HIDDEN), HIDDEN);
            }
            _ => unreachable!(),
        }
    }
    residual
}

fn turn(rows: Vec<f32>, positions: Vec<u32>) -> Vec<f32> {
    let dim = rows.len() / positions.len();
    let half = dim / 2;
    let mut out = rows.clone();
    for (r, row) in rows.chunks(dim).enumerate() {
        for i in 0..half {
            let angle = positions[r] as f32 / 10000f32.powf(2.0 * i as f32 / dim as f32);
            let (a, b) = (row[i], row[i + half]);
            out[r * dim + i] = a * angle.cos() - b * angle.sin();
            out[r * dim + i + half] = a * angle.sin() + b * angle.cos();
        }
    }
    out
}

/// Runs a layer of one head on the host.
fn run_layer(block: &Lfm2Block, input: &[f32], cache: &mut Option<Lfm2LayerCache<f32>>) -> Vec<f32> {
    try_layer(block, input, cache).unwrap()
}

fn try_layer(
    block: &Lfm2Block,
    input: &[f32],
    cache: &mut Option<Lfm2LayerCache<f32>>,
) -> Result<Vec<f32>, Error> {
    let x = single();
    let steps = input.len() / HIDDEN;
    let square = HIDDEN * HIDDEN;
    let apply = |part: Lfm2Part, rows: Vec<f32>| match part {
        Lfm2Part::AttnNorm | Lfm2Part::FfnNorm | Lfm2Part::QueryNorm | Lfm2Part::KeyNorm => {
            rms(&rows)
        }
        Lfm2Part::ShortConvIn => matmul(&rows, &weights(1, 3 * square), HIDDEN),
        Lfm2Part::ShortConvOut => matmul(&rows, &weights(3, square), HIDDEN),
        Lfm2Part::Gate => matmul(&rows, &weights(4, square), HIDDEN),
        Lfm2Part::Up => matmul(&rows, &weights(5, square), HIDDEN),
        Lfm2Part::Down => matmul(&rows, &weights(6, square), HIDDEN),
        Lfm2Part::Query => matmul(&rows, &weights(7, square), HIDDEN),
        Lfm2Part::Key => matmul(&rows, &weights(8, square), HIDDEN),
        Lfm2Part::Value => matmul(&rows, &weights(9, square), HIDDEN),
        Lfm2Part::AttnOut => matmul(&rows, &weights(10, square), HIDDEN),
        Lfm2Part::Router => matmul(&rows, &weights(11, 2 * HIDDEN), HIDDEN),
    };
    let attend = |shape: HeadShape, q: Vec<f32>, k: Vec<f32>, v: Vec<f32>| {
        assert_eq!(shape, HeadShape { heads: 1, kv_heads: 1, head_dim: HIDDEN });
        let design = AttentionDesign {
            heads: shape.heads,
            kv_heads: shape.kv_heads,
            head_dim: shape.head_dim,
            cached: true,
            window: None,
            softcap: None,
        };
        let past = (k.len() - q.len()) / HIDDEN;
        attend_history(&x, design, &q, &k, &v, q.len() / HIDDEN, past)
    };
    let outside = Surroundings { apply, rotate: turn, attend };
    let held = Lfm2HostWeights {
        conv: weights(2, HIDDEN * L_CACHE),
        stacks: ExpertStacks {
            gate: weights(12, 2 * square),
            up: weights(13, 2 * square),
            down: weights(14, 2 * square),
        },
        bias: Some(vec![0.1, -0.1]),
    };
    block.forward_host(&x, &held, &outside, &input.to_vec(), HIDDEN, steps, cache)
}

const X_DATA: [f32; 12] = [
    0.3, -0.5, 0.7, 0.1, -0.2, 0.4, 0.6, -0.1, 0.25, 0.05, -0.35, 0.45,
];

#[test]
fn shortconv_causal_conv_matches_f64_reference() {
    let hidden = HIDDEN;
    let l_cache = L_CACHE;
    let steps = 3usize;
    let block = conv_block();
    let mut cache = None;
    let out = run_layer(&block, &X_DATA, &mut cache);
    assert_eq!(out.len(), steps * hidden);

    let w_in = weights(1, 3 * hidden * hidden);
    let conv = weights(2, hidden * l_cache);
    let w_out = weights(3, hidden * hidden);
    let eps = 1e-5f64;
    let mut state = vec![0.0f64; hidden * (l_cache - 1)];
    let mut ref_out = Vec::with_capacity(steps * hidden);
    for step in 0..steps {
        let xr: Vec<f64> = X_DATA[step * hidden..(step + 1) * hidden]
            .iter()
            .map(|&v| v as f64)
            .collect();
        let mean_sq = xr.iter().map(|v| v * v).sum::<f64>() / hidden as f64;
        let inv = 1.0 / (mean_sq + eps).sqrt();
        let normed: Vec<f64> = xr.iter().map(|&v| v * inv).collect();
        let mut proj = vec![0.0f64; 3 * hidden];
        for o in 0..3 * hidden {
            proj[o] = (0..hidden).map(|i| w_in[o * hidden + i] as f64 * normed[i]).sum();
        }
        let b = &proj[..hidden];
        let c = &proj[hidden..2 * hidden];
        let xv = &proj[2 * hidden..3 * hidden];
        for d in 0..hidden {
            let bx = b[d] * xv[d];
            let mut sum = conv[d * l_cache + l_cache - 1] as f64 * bx;
            for k in 0..l_cache - 1 {
                sum += conv[d * l_cache + k] as f64 * state[k * hidden + d];
            }
            ref_out.push(c[d] * sum);
        }
        for k in 0..l_cache - 2 {
            for d in 0..hidden {
                state[k * hidden + d] = state[(k + 1) * hidden + d];
            }
        }
        for d in 0..hidden {
            state[(l_cache - 2) * hidden + d] = b[d] * xv[d];
        }
    }
    let w_g = weights(4, hidden * hidden);
    let w_u = weights(5, hidden * hidden);
    let w_d = weights(6, hidden * hidden);
    let mut full_ref: Vec<f64> = Vec::with_capacity(steps * hidden);
    for step in 0..steps {
        let y = &ref_out[step * hidden..(step + 1) * hidden];
        let conv_out: Vec<f64> = (0..hidden)
            .map(|o| (0..hidden).map(|i| w_out[o * hidden + i] as f64 * y[i]).sum())
            .collect();
        let x_added: Vec<f64> = X_DATA[step * hidden..(step + 1) * hidden]
            .iter()
            .zip(&conv_out)
            .map(|(&a, &b)| a as f64 + b)
            .collect();
        let mean_sq = x_added.iter().map(|v| v * v).sum::<f64>() / hidden as f64;
        let inv = 1.0 / (mean_sq + eps).sqrt();
        let n2: Vec<f64> = x_added.iter().map(|v| v * inv).collect();
        let project = |w: &[f32]| -> Vec<f64> {
            (0..hidden)
                .map(|o| (0..hidden).map(|i| w[o * hidden + i] as f64 * n2[i]).sum())
                .collect()
        };
        let (gate, up) = (project(&w_g), project(&w_u));
        let act: Vec<f64> = gate
            .iter()
            .zip(&up)
            .map(|(&g, &u)| (g / (1.0 + (-g).exp())) * u)
            .collect();
        for o in 0..hidden {
            let down: f64 = (0..hidden).map(|i| w_d[o * hidden + i] as f64 * act[i]).sum();
            full_ref.push(x_added[o] + down);
        }
    }
    for (i, (r, g)) in full_ref.iter().zip(&out).enumerate() {
        assert!(
            (r - *g as f64).abs() < 1e-4,
            "elem {i}: reference {r} vs impl {g}"
        );
    }
    match &cache {
        Some(Lfm2LayerCache::ShortConv(st)) => {
            assert!(
                st.iter().any(|&v| v != 0.0),
                "shortconv cache must hold shifted bx history"
            );
        }
        _ => panic!("shortconv forward must populate a ShortConv cache"),
    }
}

#[test]
fn shortconv_decode_matches_prefill() {
    let block = conv_block();
    let steps = 3usize;
    let mut cache_a = None;
    let out_a = run_layer(&block, &X_DATA, &mut cache_a);
    let mut out_b = Vec::new();
    let mut cache_b = None;
    for t in 0..steps {
        out_b.extend(run_layer(&block, &X_DATA[t * HIDDEN..(t + 1) * HIDDEN], &mut cache_b));
    }
    assert_eq!(out_a.len(), out_b.len());
    for (i, (a, b)) in out_a.iter().zip(&out_b).enumerate() {
        assert!((a - b).abs() < 1e-5, "token {i}: prefill {a} vs decode {b}");
    }
}

#[test]
fn a_step_runs_its_operations() {
    let block = conv_block();
    let (mut one, mut two) = (None, None);
    let out = run_layer(&block, &X_DATA, &mut one);
    assert_eq!(out, run_ops(&block, &X_DATA, &mut two));
    match (one, two) {
        (Some(Lfm2LayerCache::ShortConv(a)), Some(Lfm2LayerCache::ShortConv(b))) => {
            assert_eq!(a, b)
        }
        _ => panic!("a convolution keeps inputs"),
    }
}

#[test]
fn other_layers_decode_as_they_prefill() {
    let attention = bare_block(HIDDEN);
    let experts = Lfm2Block { is_moe: true, n_expert: 2, ..bare_block(HIDDEN) };
    for block in [attention, experts] {
        let mut whole = None;
        let out = run_layer(&block, &X_DATA, &mut whole);
        let mut parts = None;
        let mut rows = run_layer(&block, &X_DATA[..HIDDEN], &mut parts);
        rows.extend(run_layer(&block, &X_DATA[HIDDEN..], &mut parts));
        for (a, b) in out.iter().zip(&rows) {
            assert!((a - b).abs() < 1e-5);
        }
        assert_ne!(out, X_DATA.to_vec());
        match (whole, parts) {
            (Some(Lfm2LayerCache::Attention(a)), Some(Lfm2LayerCache::Attention(b))) => {
                assert_eq!(a.k.len(), 3 * HIDDEN);
                assert_eq!((a.k, a.v), (b.k, b.v));
            }
            _ => panic!("a cache of the layer's kind"),
        }
    }
}

#[test]
fn layers_refuse_the_cache_of_another_kind() {
    let mut kept = Some(Lfm2LayerCache::ShortConv(vec![0.0; 8]));
    assert!(matches!(
        try_layer(&bare_block(HIDDEN), &X_DATA, &mut kept),
        Err(Error::AttentionCache)
    ));
    let mut history = Some(Lfm2LayerCache::Attention(AttentionCache::empty()));
    assert!(matches!(
        try_layer(&conv_block(), &X_DATA, &mut history),
        Err(Error::ShortConvCache)
    ));
}

#[test]
fn fused_qkv_load_matches_split() {
    let hidden = 128usize;
    let row_bytes = (hidden / 32) * 34;
    let q_blob = vec![1u8; 256 * row_bytes];
    let k_blob = vec![2u8; 128 * row_bytes];
    let v_blob = vec![3u8; 128 * row_bytes];
    let fused = fuse_qkv_weights(&q_blob, &k_blob, &v_blob);
    let n_total = 256 + 128 + 128;
    assert_eq!(fused.len(), n_total * row_bytes, "byte count mismatch");
    assert_eq!(fused[..q_blob.len()], q_blob[..], "Q rows misplaced");
    assert_eq!(
        fused[q_blob.len()..q_blob.len() + k_blob.len()],
        k_blob[..],
        "K rows misplaced"
    );
    assert_eq!(
        fused[q_blob.len() + k_blob.len()..],
        v_blob[..],
        "V rows misplaced"
    );
}

#[test]
fn one_blob_is_read_in_three_views() {
    let layout = fused_qkv_dot4_decode(128, FusedQkvInfo { n_q: 256, n_k: 128 });
    assert_eq!(layout.q.offset, 0);
    assert_eq!(layout.k.offset, layout.q.offset + layout.q.len);
    assert_eq!(layout.v.offset, layout.k.offset + layout.k.len);
    assert_eq!(layout.k.len, layout.v.len);
    assert_eq!(layout.q.len, 2 * layout.k.len);
}

fn config(layers: usize) -> Lfm2Config {
    Lfm2Config {
        vocab_size: 0,
        hidden_size: 64,
        num_heads: 1,
        num_kv_heads: 1,
        head_dim: 64,
        num_layers: layers,
        intermediate_size: 128,
        rms_norm_eps: setting(1e-5),
        rope_theta: setting(10000.0),
        n_shortconv_l_cache: 3,
        is_recr: vec![false; layers],
        n_layer_dense_lead: layers,
        n_expert: 0,
        n_expert_used: 0,
        n_ff_exp: 0,
        expert_weights_scale: setting(1.0),
        expert_gating_func: 0,
        n_swa: 0,
        swa_type: 0,
        n_embd_out: 0,
        mxfp4_qkv_attention: false,
    }
}

fn model(blocks: Vec<Lfm2Block>) -> Lfm2 {
    Lfm2 {
        cfg: config(blocks.len()),
        device: Device::Cpu,
        layers: blocks,
        output: square(64),
        output_q80: false,
        dense_2_out: None,
        dense_2_out_bias: false,
    }
}

fn attention_block() -> Lfm2Block {
    Lfm2Block {
        wq: Some(square(64)),
        wk: Some(square(64)),
        wv: Some(square(64)),
        wo: Some(square(64)),
        attn_q_norm: Some(64),
        attn_k_norm: Some(64),
        ..bare_block(64)
    }
}

#[test]
fn test_mega_schedule_satisfies_m6_gate() {
    let types = [
        GlaOpType::RmsNorm,
        GlaOpType::Dot4Gemv,
        GlaOpType::Gdn2Recurrent,
        GlaOpType::ShortConvFused,
        GlaOpType::FfnGateUpSilu,
        GlaOpType::ResidualAdd,
    ];
    assert!(types.len() >= 5, "must have >= 5 instruction types");

    let gdl = Lfm2Block { attention_mode: Lfm2AttentionMode::Gdl, ..attention_block() };
    let schedule = MegaSchedule::compile(&model(vec![gdl, attention_block()]), 64).unwrap();
    let mut kinds: Vec<i32> = schedule.tasks.iter().map(|t| t.op_type).collect();
    kinds.sort();
    kinds.dedup();
    assert!(kinds.len() >= 5);
    assert!(schedule.tasks.len() >= 2 * 6);
}

#[test]
fn a_schedule_is_a_chain() {
    let schedule = MegaSchedule::compile(&model(vec![attention_block(); 2]), 64).unwrap();
    assert_eq!(schedule.tasks.len(), 15);
    assert_eq!(schedule.num_counters, 15);
    assert_eq!(schedule.staging_pool_size, 16 * 64);
    for pair in schedule.tasks.windows(2) {
        assert_eq!(pair[1].dep_counter_idx, pair[0].post_counter_idx);
    }
    assert!(matches!(MegaSchedule::compile(&model(vec![]), 64), Err(Error::ZeroLayers)));
}

#[test]
fn graph_dims_sane() {
    assert!("GRIM_DECODE_GRAPH".is_ascii());
    let dims = graph_dims(&model(vec![]), 0);
    assert_eq!((dims.vocab, dims.ctx), (1, 1));
    assert_eq!((dims.hidden, dims.n_q, dims.n_k, dims.inter), (64, 64, 64, 128));
}

#[test]
fn captures_need_a_device_and_come_before_replays() {
    let lfm = model(vec![attention_block()]);
    assert!(matches!(
        lfm.get_or_create_decode_graph(128, 1, false),
        Err(Error::GraphDisabled)
    ));
    assert!(matches!(
        lfm.get_or_create_decode_graph(128, 1, true),
        Err(Error::GraphDevice)
    ));
    let rocm = Lfm2 { device: Device::Rocm(0), ..model(vec![attention_block()]) };
    let allocation = rocm.get_or_create_decode_graph(128, 2, true).unwrap();
    assert_eq!((allocation.layers, allocation.batch), (1, 2));
    let graph = DecodeGraph { capturing: false, is_captured: false, batch: 2, current_pos: 4 };
    assert!(matches!(
        rocm.forward_replay(&graph),
        Err(Error::ReplayBeforeCapture { batched: false })
    ));
    let graph = DecodeGraph { is_captured: true, ..graph };
    assert!(matches!(
        rocm.forward_replay_batch(&graph, 3),
        Err(Error::ReplayBatch { tokens: 3, batch: 2 })
    ));
    let ops = rocm.forward_replay_batch(&graph, 2).unwrap();
    assert_eq!(ops.last(), Some(&ReplayOp::Launch));
    assert!(ops.contains(&ReplayOp::WriteTokens));
    assert!(matches!(
        rocm.forward_capture(&graph, false),
        Err(Error::CaptureDisabled)
    ));
}

fn buffer(id: u64, rows: usize, cols: usize, ptr: Option<u64>) -> DeviceBuffer {
    DeviceBuffer { id, rows, cols, rocm: true, ptr }
}

#[test]
fn seeding_fails_closed() {
    let lfm = model(vec![attention_block()]);
    let none: Vec<Option<Lfm2LayerCache<f32>>> = Vec::new();
    assert!(matches!(
        lfm.eager_kv_seed_sources(&none, 3),
        Err(Error::SeedCaches { caches: 0, layers: 1 })
    ));
    let bare = vec![Some(Lfm2LayerCache::Attention(AttentionCache::<f32>::empty()))];
    assert!(matches!(
        lfm.eager_kv_seed_sources(&bare, 3),
        Err(Error::SeedSource { .. })
    ));
    let empty = lfm.eager_kv_seed_sources(&bare, 0).unwrap();
    assert!(empty.iter().all(|s| s.is_none()));
    let mut held = AttentionCache::<f32>::empty();
    held.k_dev = Some(buffer(1, 8, 64, Some(0x1000)));
    held.v_dev = Some(buffer(2, 8, 64, Some(0x2000)));
    let sources = lfm
        .eager_kv_seed_sources(&[Some(Lfm2LayerCache::Attention(held))], 3)
        .unwrap();
    let source = sources[0].as_ref().unwrap();
    assert_eq!((source.k_dev, source.v_dev, source.prefill_len), (0x1000, 0x2000, 3));
    assert_eq!(source.kv_stride, 64);
}

#[test]
fn histories_grow_row_by_row() {
    let mut cache: Option<Lfm2LayerCache<f32>> = None;
    assert_eq!(cache_offset(&cache, 2), 0);
    ensure_attention(&mut cache);
    let first = append_history(&mut cache, &[1.0, 2.0], &[5.0, 6.0], 2, 1).unwrap();
    assert_eq!((first.past, first.allocate), (0, true));
    assert_eq!(cache_offset(&cache, 2), 1);
    install_arenas(&mut cache, buffer(1, 4096, 2, None), buffer(2, 4096, 2, None)).unwrap();
    let second = append_history(&mut cache, &[3.0, 4.0], &[7.0, 8.0], 2, 1).unwrap();
    assert_eq!((second.past, second.allocate), (1, false));
    match &cache {
        Some(Lfm2LayerCache::Attention(a)) => {
            assert_eq!(a.k, vec![1.0, 2.0, 3.0, 4.0]);
            assert_eq!(a.v, vec![5.0, 6.0, 7.0, 8.0]);
        }
        _ => panic!("an attention layer"),
    }
    let mut other = Some(Lfm2LayerCache::ShortConv(vec![0.0f32; 4]));
    assert!(matches!(
        append_history(&mut other, &[1.0], &[1.0], 1, 1),
        Err(Error::AttentionCache)
    ));
    let mut wrong = cache;
    assert!(matches!(
        ensure_shortconv(&mut wrong, 2, 3, 0.0),
        Err(Error::ShortConvCache)
    ));
}

#[test]
fn fused_steps_count_from_the_history() {
    let mut cache: Option<Lfm2LayerCache<f32>> = None;
    let block = Lfm2Block { num_heads: 2, ..bare_block(64) };
    let step = block.fused_qkv(&mut cache, 2, 64).unwrap();
    assert_eq!(step.cache_offset, 0);
    assert_eq!(step.positions, vec![0, 1]);
    assert_eq!((step.grow_to, step.make, step.launch.max_seq), (Some(8192), None, 8192));
    assert_eq!((step.query_width, step.launch.heads, step.launch.steps), (128, 2, 2));
    let none = block.fused_qkv(&mut cache, 0, 64).unwrap();
    assert_eq!((none.grow_to, none.make, none.launch.max_seq), (None, Some(4096), 4096));
    let long = block.fused_qkv(&mut cache, 9000, 64).unwrap();
    assert_eq!((long.grow_to, long.launch.max_seq), (Some(9000), 9000));
    assert_eq!(rope_positions(5, 2, 3), vec![5, 5, 5, 6, 6, 6]);
    if let Some(Lfm2LayerCache::Attention(a)) = cache.as_mut() {
        a.k_dev = Some(DeviceBuffer { id: 1, rows: 8192, cols: 64, rocm: true, ptr: None });
    }
    let grown = block.fused_qkv(&mut cache, 1, 64).unwrap();
    assert_eq!((grown.grow_to, grown.make, grown.launch.max_seq), (None, None, 8192));
}

#[test]
fn an_attention_layer_with_experts_attends() {
    let block = Lfm2Block { is_moe: true, n_expert: 2, ..bare_block(HIDDEN) };
    let env = StepEnv {
        device: Device::Cpu,
        steps: 1,
        capture: false,
        rope_dev_base: false,
    };
    let ops = block.forward(&env);
    let at = |op: ForwardOp| ops.iter().position(|o| *o == op);
    let attend = ForwardOp::Attend { heads: block.head_shape() };
    assert!(at(attend).unwrap() < at(ForwardOp::MoeFfn).unwrap());
    assert_eq!(ops.iter().filter(|o| **o == ForwardOp::MoeFfn).count(), 1);
    assert_eq!(at(ForwardOp::DenseFfn), None);
}

#[test]
fn packs_have_a_row_per_output() {
    let shapes = build_fused_qkv_pack(&config(1));
    assert_eq!((shapes.rows, shapes.cols), (3 * 64, 64));
    assert_eq!(shapes.gamma, 64);
}

#[test]
fn switches() {
    assert!(unless_zero(None) && unless_zero(Some("1")) && !unless_zero(Some("0")));
    assert!(only_one(Some("1")) && !only_one(None) && !only_one(Some("on")));
    assert!(unless_off(None) && !unless_off(Some("off")));
    assert!(only_on(Some("on")) && !only_on(None));
}
