//! Falcon-H1: attention over a device history, and the state-space part.

use grim_transformer::block_program::AttentionDesign;
use grim_transformer::cached_attention::attend_history;
use grim_transformer::device::DeviceBuffer;
use grim_transformer::error::Error;
use grim_transformer::falcon_block::{
    forward_block_cpu, gqa_attn_with_cache, Arena, ArenaRows, FalconH1Part,
};
use grim_transformer::falcon_h1::{
    after_append, after_device_conv, after_device_scan, conv_state_for_device,
    expand_positions, ssm_runner, ArenaAppend, AttendNext, FalconH1Config,
    FalconH1LayerCache, FalconH1Model, SsmRunner,
};
use grim_transformer::mamba::FalconH1Block;
use grim_transformer::mamba_device::{
    activate_sums, mamba2_layer_cpu, scan_inputs, ssm_conv_step_device, ssm_scan_step_device,
    ConvInputs, DeviceRun, ScanInputs, ScanOutputs, SsmKernels,
};
use grim_transformer::numeric::Real;
use grim_transformer::scalar::{Number, Relation, ScalarOp, Scalars};
use grim_transformer::surroundings::{HeadShape, Surroundings};
use std::cell::RefCell;

fn calc(op: ScalarOp, a: f32, b: f32) -> f32 {
    match op {
        ScalarOp::Plus => a + b,
        ScalarOp::Minus => a - b,
        ScalarOp::Times => a * b,
        ScalarOp::Over => a / b,
        ScalarOp::Larger => a.max(b),
        ScalarOp::Smaller => a.min(b),
        ScalarOp::Power => a.powf(b),
        ScalarOp::Negate => -a,
        ScalarOp::Exp => a.exp(),
        ScalarOp::Ln => a.ln(),
        ScalarOp::Root => a.sqrt(),
        ScalarOp::Tanh => a.tanh(),
    }
}

fn single() -> Scalars<
    f32,
    impl Fn(ScalarOp, f32, f32) -> f32,
    impl Fn(Number) -> f32,
    impl Fn(Relation, f32, f32) -> bool,
> {
    Scalars {
        op: calc,
        given: |n: Number| match n {
            Number::Count(c) => c as f32,
            Number::Real(r) => f64::from_bits(r.bits) as f32,
        },
        holds: |r: Relation, a: f32, b: f32| match r {
            Relation::Same => a == b,
            Relation::Above => a > b,
        },
        nothing: 0.0,
    }
}

struct Lcg(u64);

impl Lcg {
    fn next_f32(&mut self) -> f32 {
        self.0 = self
            .0
            .wrapping_mul(6364136223846793005)
            .wrapping_add(1442695040888963407);
        ((self.0 >> 33) as f32 / (u32::MAX >> 1) as f32) - 1.0
    }

    fn vec(&mut self, n: usize, scale: f32) -> Vec<f32> {
        (0..n)
            .map(|i| self.next_f32() * scale + i as f32 * 1e-3)
            .collect()
    }
}

fn tiny_cfg() -> FalconH1Config {
    FalconH1Config {
        vocab_size: 64,
        hidden_size: 32,
        num_heads: 4,
        num_kv_heads: 2,
        head_dim: 8,
        num_layers: 1,
        intermediate_size: 48,
        rms_norm_eps: Real { bits: 1e-5f64.to_bits() },
        rope_theta: Real { bits: 10000.0f64.to_bits() },
        ssm_d_state: 8,
        ssm_d_inner: 24,
        ssm_d_conv: 4,
        ssm_dt_rank: 4,
        ssm_n_group: 1,
    }
}

struct Weights {
    attn_norm: Vec<f32>,
    wq: Vec<f32>,
    wk: Vec<f32>,
    wv: Vec<f32>,
    ssm_in: Vec<f32>,
    ssm_out: Vec<f32>,
    ffn_norm: Vec<f32>,
    gate: Vec<f32>,
    up: Vec<f32>,
    down: Vec<f32>,
    mamba: FalconH1Block<f32>,
}

fn small_block() -> (Weights, FalconH1Config) {
    let cfg = tiny_cfg();
    let mut rng = Lcg(0xF00D);
    let hs = cfg.hidden_size;
    let mut put = |n: usize| rng.vec(n, 0.3);
    let attn_norm = put(hs);
    let ffn_norm = put(hs);
    let wq = put(cfg.num_heads * cfg.head_dim * hs);
    let wk = put(cfg.num_kv_heads * cfg.head_dim * hs);
    let wv = put(cfg.num_kv_heads * cfg.head_dim * hs);
    let _wo = put(hs * hs);
    let gate = put(cfg.intermediate_size * hs);
    let up = put(cfg.intermediate_size * hs);
    let down = put(hs * cfg.intermediate_size);
    let ssm_in = put(cfg.ssm_in_dim() * hs);
    let ssm_out = put(hs * cfg.ssm_d_inner);
    let conv_dim = cfg.ssm_conv_dim();
    let mamba = FalconH1Block {
        ssm_conv_w: put(conv_dim * cfg.ssm_d_conv),
        ssm_conv_b: put(conv_dim),
        ssm_a: put(cfg.ssm_dt_rank),
        ssm_d: put(cfg.ssm_dt_rank),
        ssm_dt_b: put(cfg.ssm_dt_rank),
    };
    (
        Weights {
            attn_norm,
            wq,
            wk,
            wv,
            ssm_in,
            ssm_out,
            ffn_norm,
            gate,
            up,
            down,
            mamba,
        },
        cfg,
    )
}

fn matmul(x: &[f32], w: &[f32], inputs: usize) -> Vec<f32> {
    let outputs = w.len() / inputs;
    let mut out = Vec::new();
    for row in x.chunks(inputs) {
        for o in 0..outputs {
            out.push((0..inputs).map(|i| row[i] * w[o * inputs + i]).sum());
        }
    }
    out
}

fn rms(x: &[f32], w: &[f32], eps: f32) -> Vec<f32> {
    let mean = x.iter().map(|v| v * v).sum::<f32>() / x.len() as f32;
    let inv = 1.0 / (mean + eps).sqrt();
    x.iter().zip(w).map(|(v, w)| v * inv * w).collect()
}

fn rope(rows: &[f32], dim: usize, positions: &[u32]) -> Vec<f32> {
    let half = dim / 2;
    let mut out = rows.to_vec();
    for (r, row) in rows.chunks(dim).enumerate() {
        for i in 0..half {
            let angle = positions[r] as f32 / 10000f32.powf(2.0 * i as f32 / dim as f32);
            let (a, b) = (row[i], row[i + half]);
            out[r * dim + i] = a * angle.cos() - b * angle.sin();
            out[r * dim + i + half] = a * angle.sin() + b * angle.cos();
        }
    }
    out
}

struct Projected {
    q: Vec<f32>,
    k: Vec<f32>,
    v: Vec<f32>,
}

fn project(w: &Weights, cfg: &FalconH1Config, h: &[f32], step: u32) -> Projected {
    let normed = rms(h, &w.attn_norm, 1e-5);
    let hs = cfg.hidden_size;
    let q = matmul(&normed, &w.wq, hs);
    let k = matmul(&normed, &w.wk, hs);
    Projected {
        q: rope(&q, cfg.head_dim, &expand_positions(&[step], cfg.num_heads)),
        k: rope(&k, cfg.head_dim, &expand_positions(&[step], cfg.num_kv_heads)),
        v: matmul(&normed, &w.wv, hs),
    }
}

fn reference(q: &[f32], k: &[f32], v: &[f32], cfg: &FalconH1Config) -> Vec<f32> {
    let (nh, nkv, hd) = (cfg.num_heads, cfg.num_kv_heads, cfg.head_dim);
    let n = k.len() / (nkv * hd);
    let mut out = Vec::new();
    for h in 0..nh {
        let g = h / (nh / nkv);
        let scores: Vec<f32> = (0..n)
            .map(|t| {
                (0..hd)
                    .map(|d| q[h * hd + d] * k[(t * nkv + g) * hd + d])
                    .sum::<f32>()
                    / (hd as f32).sqrt()
            })
            .collect();
        let top = scores.iter().cloned().fold(f32::NEG_INFINITY, f32::max);
        let e: Vec<f32> = scores.iter().map(|s| (s - top).exp()).collect();
        let sum: f32 = e.iter().sum();
        for d in 0..hd {
            out.push(
                (0..n)
                    .map(|t| e[t] / sum * v[(t * nkv + g) * hd + d])
                    .sum(),
            );
        }
    }
    out
}

/// A device history: rows behind the last valid one hold what was there.
struct History {
    k: RefCell<Vec<f32>>,
    v: RefCell<Vec<f32>>,
    width: usize,
}

impl History {
    fn new(width: usize) -> Self {
        History {
            k: RefCell::new(vec![9.0; 16 * width]),
            v: RefCell::new(vec![9.0; 16 * width]),
            width,
        }
    }

    fn append(&self, k: Vec<f32>, v: Vec<f32>, pos: usize, tokens: usize) -> ArenaAppend {
        let at = pos * self.width;
        self.k.borrow_mut()[at..at + k.len()].copy_from_slice(&k);
        self.v.borrow_mut()[at..at + v.len()].copy_from_slice(&v);
        let buffer = |id: u64| DeviceBuffer {
            id,
            rows: 16,
            cols: self.width,
            rocm: false,
            ptr: None,
        };
        ArenaAppend::Done {
            k: buffer(1),
            v: buffer(2),
            total: pos + tokens,
        }
    }

    fn attend(&self, cfg: &FalconH1Config, q: &[f32], total: usize, offset: usize) -> Vec<f32> {
        let n = total * self.width;
        attend_history(
            &single(),
            attention(cfg.head_shape()),
            q,
            &self.k.borrow()[..n],
            &self.v.borrow()[..n],
            total - offset,
            offset,
        )
    }
}

fn attention(shape: HeadShape) -> AttentionDesign {
    AttentionDesign {
        heads: shape.heads,
        kv_heads: shape.kv_heads,
        head_dim: shape.head_dim,
        cached: true,
        window: None,
        softcap: None,
    }
}

/// How a device keeps its history.
#[derive(Clone, Copy, PartialEq)]
enum Keeps {
    /// It attends over the history too.
    AndAttends,
    /// The host attends over what it fetches.
    ForTheHost,
    /// It gives nothing back.
    ForItself,
    /// It cannot.
    Nothing,
    /// It fails.
    Fails,
}

fn apply_part(w: &Weights, cfg: &FalconH1Config, part: FalconH1Part, rows: &[f32]) -> Vec<f32> {
    let hs = cfg.hidden_size;
    let norm = |rows: &[f32], weight: &[f32]| -> Vec<f32> {
        rows.chunks(hs).flat_map(|row| rms(row, weight, 1e-5)).collect()
    };
    match part {
        FalconH1Part::AttnNorm => norm(rows, &w.attn_norm),
        FalconH1Part::Query => matmul(rows, &w.wq, hs),
        FalconH1Part::Key => matmul(rows, &w.wk, hs),
        FalconH1Part::Value => matmul(rows, &w.wv, hs),
        FalconH1Part::SsmIn => matmul(rows, &w.ssm_in, hs),
        FalconH1Part::SsmOut => matmul(rows, &w.ssm_out, cfg.ssm_d_inner),
        FalconH1Part::FfnNorm => norm(rows, &w.ffn_norm),
        FalconH1Part::Gate => matmul(rows, &w.gate, hs),
        FalconH1Part::Up => matmul(rows, &w.up, hs),
        FalconH1Part::Down => matmul(rows, &w.down, cfg.intermediate_size),
    }
}

fn host_attention(heads: HeadShape, q: &[f32], k: &[f32], v: &[f32]) -> Vec<f32> {
    let tokens = q.len() / (heads.heads * heads.head_dim);
    let held = k.len() / (heads.kv_heads * heads.head_dim);
    attend_history(&single(), attention(heads), q, k, v, tokens, held - tokens)
}

fn arena_of<'a>(
    cfg: &'a FalconH1Config,
    history: &'a History,
    keeps: Keeps,
) -> Arena<
    impl Fn(ArenaRows<f32>) -> ArenaAppend + 'a,
    impl Fn(HeadShape, Vec<f32>, DeviceBuffer, DeviceBuffer, usize, usize) -> Option<Vec<f32>> + 'a,
    impl Fn(DeviceBuffer, DeviceBuffer) -> Option<(Vec<f32>, Vec<f32>)> + 'a,
> {
    Arena {
        append: move |rows: ArenaRows<f32>| {
            assert_eq!(rows.row, cfg.num_kv_heads * cfg.head_dim);
            match keeps {
                Keeps::Nothing => ArenaAppend::Unimplemented,
                Keeps::Fails => ArenaAppend::Failed,
                _ => {
                    let held = rows.k_held.map(|b| b.id).zip(rows.v_held.map(|b| b.id));
                    assert_eq!(held, if rows.pos == 0 { None } else { Some((1, 2)) });
                    history.append(rows.k, rows.v, rows.pos, rows.tokens)
                }
            }
        },
        attend: move |heads: HeadShape, q: Vec<f32>, _: DeviceBuffer, _: DeviceBuffer, total, offset| {
            assert_eq!(heads, cfg.head_shape());
            if keeps == Keeps::AndAttends {
                Some(history.attend(cfg, &q, total, offset))
            } else {
                None
            }
        },
        fetch: move |k: DeviceBuffer, v: DeviceBuffer| {
            assert_eq!((k.id, v.id), (1, 2));
            if keeps == Keeps::ForTheHost {
                Some((history.k.borrow().clone(), history.v.borrow().clone()))
            } else {
                None
            }
        },
    }
}

fn gqa(
    w: &Weights,
    cfg: &FalconH1Config,
    history: &History,
    keeps: Keeps,
    h: &[f32],
    step: u32,
    cache: &mut FalconH1LayerCache<f32>,
) -> Result<Vec<f32>, Error> {
    let outside = Surroundings {
        apply: |part: FalconH1Part, rows: Vec<f32>| apply_part(w, cfg, part, &rows),
        rotate: |rows: Vec<f32>, at: Vec<u32>| rope(&rows, cfg.head_dim, &at),
        attend: |heads: HeadShape, q: Vec<f32>, k: Vec<f32>, v: Vec<f32>| {
            host_attention(heads, &q, &k, &v)
        },
    };
    let arena = arena_of(cfg, history, keeps);
    let normed = rms(h, &w.attn_norm, 1e-5);
    gqa_attn_with_cache(cfg, &arena, &outside, cache, &normed, &[step])
}

#[test]
fn test_gqa_arena_matches_host_reference() {
    for keeps in [Keeps::AndAttends, Keeps::ForTheHost] {
        let (w, cfg) = small_block();
        let mut rng = Lcg(0xBEEF);
        let mut cache = FalconH1LayerCache::new(&cfg, 0.0f32);
        let history = History::new(cfg.num_kv_heads * cfg.head_dim);
        let (mut ref_k, mut ref_v) = (Vec::new(), Vec::new());
        for step in 0..8u32 {
            let h = rng.vec(cfg.hidden_size, 0.5);
            let device_out = gqa(&w, &cfg, &history, keeps, &h, step, &mut cache).unwrap();
            let p = project(&w, &cfg, &h, step);
            ref_k.extend_from_slice(&p.k);
            ref_v.extend_from_slice(&p.v);
            let ref_out = reference(&p.q, &ref_k, &ref_v, &cfg);
            assert_eq!(device_out.len(), ref_out.len());
            for (i, (a, b)) in device_out.iter().zip(&ref_out).enumerate() {
                assert!(
                    (a - b).abs() < 1e-5,
                    "step {step} elem {i}: device {a} vs ref {b}"
                );
            }
        }
        assert!(cache.k_device.is_some());
        assert!(cache.v_device.is_some());
        assert_eq!(cache.current_pos, 8);
        assert_eq!(ref_k.len(), 8 * cfg.num_kv_heads * cfg.head_dim);
    }
}

#[test]
fn test_gqa_device_path_leaves_mirrors_empty() {
    let (w, cfg) = small_block();
    let mut rng = Lcg(0xCAFE);
    let mut cache = FalconH1LayerCache::new(&cfg, 0.0f32);
    let history = History::new(cfg.num_kv_heads * cfg.head_dim);
    for step in 0..4u32 {
        let h = rng.vec(cfg.hidden_size, 0.5);
        gqa(&w, &cfg, &history, Keeps::AndAttends, &h, step, &mut cache).unwrap();
    }
    assert!(cache.k_device.is_some(), "arena must be allocated");
    assert!(
        cache.k_cache.is_empty() && cache.v_cache.is_empty(),
        "host mirrors must stay empty on the device path"
    );
    assert_eq!(cache.current_pos, 4);
}

#[test]
fn host_rows_take_over_where_the_device_keeps_nothing() {
    let (w, cfg) = small_block();
    let mut rng = Lcg(0xBEEF);
    let width = cfg.num_kv_heads * cfg.head_dim;
    let history = History::new(width);
    let mut cache = FalconH1LayerCache::new(&cfg, 0.0f32);
    let (mut ref_k, mut ref_v) = (Vec::new(), Vec::new());
    for step in 0..3u32 {
        let h = rng.vec(cfg.hidden_size, 0.5);
        let out = gqa(&w, &cfg, &history, Keeps::Nothing, &h, step, &mut cache).unwrap();
        let p = project(&w, &cfg, &h, step);
        ref_k.extend_from_slice(&p.k);
        ref_v.extend_from_slice(&p.v);
        let ref_out = reference(&p.q, &ref_k, &ref_v, &cfg);
        for (a, b) in out.iter().zip(&ref_out) {
            assert!((a - b).abs() < 1e-5);
        }
    }
    assert!(cache.k_device.is_none() && cache.v_device.is_none());
    assert_eq!((cache.k_cache, cache.v_cache), (ref_k, ref_v));
    assert_eq!(cache.current_pos, 3);
}

#[test]
fn a_lost_history_is_an_error() {
    let (w, cfg) = small_block();
    let mut rng = Lcg(0xBEEF);
    let h = rng.vec(cfg.hidden_size, 0.5);
    let history = History::new(cfg.num_kv_heads * cfg.head_dim);
    let mut cache = FalconH1LayerCache::new(&cfg, 0.0f32);
    let out = gqa(&w, &cfg, &history, Keeps::Fails, &h, 0, &mut cache);
    assert!(matches!(out, Err(Error::ArenaLost)));
    assert_eq!(cache.current_pos, 0);
    assert!(cache.k_device.is_none());
    let out = gqa(&w, &cfg, &history, Keeps::ForItself, &h, 0, &mut cache);
    assert!(matches!(out, Err(Error::ArenaLost)));
    assert_eq!(cache.current_pos, 1);
    assert!(cache.k_device.is_some() && cache.k_cache.is_empty());
    let mut fresh = FalconH1LayerCache::new(&cfg, 0.0f32);
    assert!(try_layer(&w, &cfg, &history, Keeps::Fails, &h, &[0], &mut fresh).is_err());
    assert!(fresh.conv_state.iter().all(|v| *v == 0.0));
}

#[test]
fn a_cache_needs_no_scan() {
    let cfg = FalconH1Config { ssm_dt_rank: 0, ssm_n_group: 0, ..tiny_cfg() };
    let cache = FalconH1LayerCache::new(&cfg, 0.0f32);
    assert_eq!(cache.conv_state, vec![0.0; 3 * 24]);
    assert_eq!(cache.ssm_state, vec![0.0; 8 * 24]);
    assert!(cache.k_cache.is_empty() && cache.v_cache.is_empty());
    assert!(cache.k_device.is_none() && cache.v_device.is_none());
    assert_eq!(cache.current_pos, 0);
}

#[test]
fn without_an_arena_the_mirrors_grow() {
    let cfg = tiny_cfg();
    let width = cfg.num_kv_heads * cfg.head_dim;
    let mut cache = FalconH1LayerCache::new(&cfg, 0.0f32);
    let rows = vec![1.0f32; width];
    let next = after_append(&mut cache, ArenaAppend::Unimplemented, &rows, &rows, 1);
    assert_eq!(next, AttendNext::OnMirrors);
    assert_eq!(cache.k_cache.len(), width);
    assert_eq!(cache.current_pos, 1);
    let next = after_append(&mut cache, ArenaAppend::Failed, &rows, &rows, 1);
    assert_eq!(next, AttendNext::Fail);
    assert_eq!(cache.v_cache.len(), width);
}

fn no_kernels() -> SsmKernels<
    impl Fn(ConvInputs<f32>) -> DeviceRun<Vec<f32>>,
    impl Fn(ScanInputs<f32>) -> DeviceRun<ScanOutputs<f32>>,
> {
    SsmKernels {
        conv: |_: ConvInputs<f32>| DeviceRun::Unimplemented,
        scan: |_: ScanInputs<f32>| DeviceRun::Unimplemented,
    }
}

fn mamba(w: &Weights, cfg: &FalconH1Config, h: &[f32], cache: &mut FalconH1LayerCache<f32>) -> Vec<f32> {
    let x = single();
    let ssm = matmul(h, &w.ssm_in, cfg.hidden_size);
    let tokens = h.len() / cfg.hidden_size;
    let rows = mamba2_layer_cpu(&x, &no_kernels(), cfg, &w.mamba, cache, &ssm, tokens).unwrap();
    matmul(&rows, &w.ssm_out, cfg.ssm_d_inner)
}

#[test]
fn test_ssm_decode_matches_prefill() {
    let (w, cfg) = small_block();
    let hs = cfg.hidden_size;
    let seq = 3;
    let mut rng = Lcg(0x5EED);
    let h = rng.vec(seq * hs, 0.5);
    let mut cache_a = FalconH1LayerCache::new(&cfg, 0.0f32);
    let out_a = mamba(&w, &cfg, &h, &mut cache_a);
    let mut cache_b = FalconH1LayerCache::new(&cfg, 0.0f32);
    let mut out_b = Vec::new();
    for t in 0..seq {
        out_b.extend(mamba(&w, &cfg, &h[t * hs..(t + 1) * hs], &mut cache_b));
    }
    assert_eq!(out_a.len(), out_b.len());
    for (i, (a, b)) in out_a.iter().zip(&out_b).enumerate() {
        assert!(
            (a - b).abs() < 1e-4,
            "token {i}: prefill {a} vs decode {b}"
        );
    }
    for (i, (a, b)) in cache_a.conv_state.iter().zip(&cache_b.conv_state).enumerate() {
        assert!((a - b).abs() < 1e-4, "conv_state[{i}]: {a} vs {b}");
    }
    for (i, (a, b)) in cache_a.ssm_state.iter().zip(&cache_b.ssm_state).enumerate() {
        assert!((a - b).abs() < 1e-4, "ssm_state[{i}]: {a} vs {b}");
    }
    assert!(out_a.iter().any(|v| *v != 0.0));
}

fn try_layer(
    w: &Weights,
    cfg: &FalconH1Config,
    history: &History,
    keeps: Keeps,
    h: &[f32],
    positions: &[u32],
    cache: &mut FalconH1LayerCache<f32>,
) -> Result<Vec<f32>, Error> {
    let outside = Surroundings {
        apply: |part: FalconH1Part, rows: Vec<f32>| apply_part(w, cfg, part, &rows),
        rotate: |rows: Vec<f32>, at: Vec<u32>| rope(&rows, cfg.head_dim, &at),
        attend: |heads: HeadShape, q: Vec<f32>, k: Vec<f32>, v: Vec<f32>| {
            host_attention(heads, &q, &k, &v)
        },
    };
    let arena = arena_of(cfg, history, keeps);
    forward_block_cpu(
        &single(),
        cfg,
        &w.mamba,
        &arena,
        &outside,
        &no_kernels(),
        cache,
        &h.to_vec(),
        positions,
    )
}

fn layer(
    w: &Weights,
    cfg: &FalconH1Config,
    h: &[f32],
    positions: &[u32],
    cache: &mut FalconH1LayerCache<f32>,
) -> Vec<f32> {
    let history = History::new(cfg.num_kv_heads * cfg.head_dim);
    try_layer(w, cfg, &history, Keeps::Nothing, h, positions, cache).unwrap()
}

#[test]
fn layers_over_a_device_history_decode_as_they_prefill_on_the_host() {
    let (w, cfg) = small_block();
    let hs = cfg.hidden_size;
    let mut rng = Lcg(0xBEEF);
    let h = rng.vec(3 * hs, 0.5);
    let mut whole = FalconH1LayerCache::new(&cfg, 0.0f32);
    let out = layer(&w, &cfg, &h, &[0, 1, 2], &mut whole);
    let history = History::new(cfg.num_kv_heads * cfg.head_dim);
    let mut cache = FalconH1LayerCache::new(&cfg, 0.0f32);
    let mut rows = Vec::new();
    for t in 0..3 {
        let row = &h[t * hs..(t + 1) * hs];
        rows.extend(
            try_layer(&w, &cfg, &history, Keeps::AndAttends, row, &[t as u32], &mut cache)
                .unwrap(),
        );
    }
    for (a, b) in out.iter().zip(&rows) {
        assert!((a - b).abs() < 1e-4, "prefill {a} vs decode {b}");
    }
    assert!(cache.k_cache.is_empty());
    assert_eq!(cache.current_pos, 3);
    for (a, b) in whole.ssm_state.iter().zip(&cache.ssm_state) {
        assert!((a - b).abs() < 1e-4);
    }
}

#[test]
fn layers_decode_as_they_prefill() {
    let (w, cfg) = small_block();
    let hs = cfg.hidden_size;
    let mut rng = Lcg(0xBEEF);
    let h = rng.vec(3 * hs, 0.5);
    let mut whole = FalconH1LayerCache::new(&cfg, 0.0f32);
    let out = layer(&w, &cfg, &h, &[0, 1, 2], &mut whole);
    let mut parts = FalconH1LayerCache::new(&cfg, 0.0f32);
    let mut rows = layer(&w, &cfg, &h[..hs], &[0], &mut parts);
    rows.extend(layer(&w, &cfg, &h[hs..], &[1, 2], &mut parts));
    assert_eq!(out.len(), rows.len());
    for (a, b) in out.iter().zip(&rows) {
        assert!((a - b).abs() < 1e-4, "prefill {a} vs decode {b}");
    }
    assert_eq!((whole.current_pos, parts.current_pos), (3, 3));
    assert_eq!(whole.k_cache.len(), 3 * cfg.num_kv_heads * cfg.head_dim);
    assert_eq!(whole.v_cache, parts.v_cache);
}

#[test]
fn a_layer_adds_its_mixers_and_its_feed_forward_part() {
    let (w, cfg) = small_block();
    let hs = cfg.hidden_size;
    let mut rng = Lcg(0xCAFE);
    let h = rng.vec(hs, 0.5);
    let out = layer(&w, &cfg, &h, &[0], &mut FalconH1LayerCache::new(&cfg, 0.0f32));
    let p = project(&w, &cfg, &h, 0);
    let attn = reference(&p.q, &p.k, &p.v, &cfg);
    let normed = rms(&h, &w.attn_norm, 1e-5);
    let ssm = mamba(&w, &cfg, &normed, &mut FalconH1LayerCache::new(&cfg, 0.0f32));
    let sum: Vec<f32> = (0..hs).map(|i| h[i] + (attn[i] + ssm[i])).collect();
    let fed = rms(&sum, &w.ffn_norm, 1e-5);
    let gate = matmul(&fed, &w.gate, hs);
    let up = matmul(&fed, &w.up, hs);
    let act: Vec<f32> = gate.iter().zip(&up).map(|(g, u)| g / (1.0 + (-g).exp()) * u).collect();
    let down = matmul(&act, &w.down, cfg.intermediate_size);
    for i in 0..hs {
        assert!((out[i] - (sum[i] + down[i])).abs() < 1e-4);
    }
}

#[test]
fn one_scan_step_by_hand() {
    let x = single();
    let cfg = FalconH1Config {
        ssm_d_state: 1,
        ssm_d_inner: 1,
        ssm_d_conv: 2,
        ssm_dt_rank: 1,
        ..tiny_cfg()
    };
    let w = FalconH1Block {
        ssm_conv_w: vec![0.5f32, 1.0, 0.25, 2.0, 0.0, 3.0],
        ssm_conv_b: vec![0.1f32, 0.2, 0.3],
        ssm_a: vec![-1.5f32],
        ssm_d: vec![0.7f32],
        ssm_dt_b: vec![0.4f32],
    };
    let mut cache = FalconH1LayerCache::new(&cfg, 0.0f32);
    cache.conv_state = vec![0.3, -0.2, 0.6];
    cache.ssm_state = vec![0.9];
    // Projected row: what gates, the three convolved inputs, the rate.
    let ssm = [0.8f32, 1.0, -1.0, 2.0, 0.5];
    let out = mamba2_layer_cpu(&x, &no_kernels(), &cfg, &w, &mut cache, &ssm, 1).unwrap();
    let v = silu(0.1 + 0.5 * 0.3 + 1.0);
    let b = silu(0.2 + 0.25 * -0.2 + 2.0 * -1.0);
    let c = silu(0.3 + 3.0 * 2.0);
    let dt = (1.0f32 + (0.5f32 + 0.4).exp()).ln();
    let cell = 0.9 * (dt * -1.5).exp() + b * (v * dt);
    let y = cell * c + 0.7 * (v * dt);
    assert!((out[0] - silu(0.8) * y).abs() < 1e-6);
    assert!((cache.ssm_state[0] - cell).abs() < 1e-6);
    assert_eq!(cache.conv_state, vec![1.0, -1.0, 2.0]);
}

#[test]
fn one_token_is_offered_to_the_device() {
    assert_eq!(ssm_runner(1), SsmRunner::DeviceFirst);
    assert_eq!(ssm_runner(2), SsmRunner::Host);
    let cfg = FalconH1Config {
        ssm_d_state: 1,
        ssm_d_inner: 1,
        ssm_d_conv: 3,
        ssm_dt_rank: 1,
        ..tiny_cfg()
    };
    let mut cache = FalconH1LayerCache::new(&cfg, 0.0f32);
    cache.conv_state = vec![1.0, 2.0, 3.0, 4.0, 5.0, 6.0];
    assert_eq!(
        conv_state_for_device(&cfg, &cache),
        vec![1.0, 4.0, 2.0, 5.0, 3.0, 6.0]
    );
    after_device_conv(&cfg, &mut cache, &[0.0, 7.0, 8.0, 9.0, 0.0]);
    assert_eq!(cache.conv_state, vec![4.0, 5.0, 6.0, 7.0, 8.0, 9.0]);
    let w = FalconH1Block {
        ssm_conv_w: vec![0.0f32; 9],
        ssm_conv_b: vec![0.0f32; 3],
        ssm_a: vec![-1.5f32],
        ssm_d: vec![0.7f32],
        ssm_dt_b: vec![0.4f32],
    };
    let row = [0.0, 0.0, 0.0, 0.0, 0.5];
    let parts = scan_inputs(&single(), &cfg, &w, &[7.0, 8.0, 9.0], &row, &[1.25]);
    assert_eq!((parts.x, parts.b, parts.c), (vec![7.0], vec![8.0], vec![9.0]));
    assert_eq!((parts.a, parts.d, parts.state), (vec![-1.5], vec![0.7], vec![1.25]));
    assert_eq!(parts.dt, vec![(1.0f32 + (0.5f32 + 0.4).exp()).ln()]);
    assert_eq!((parts.heads, parts.cells, parts.head_dim), (1, 1, 1));
    after_device_scan(&cfg, &mut cache, &[2.5, 99.0]);
    assert_eq!(cache.ssm_state, vec![2.5]);
}

fn silu(v: f32) -> f32 {
    v / (1.0 + (-v).exp())
}

fn conv_kernel(i: ConvInputs<f32>) -> DeviceRun<Vec<f32>> {
    let kept = i.state.len() / i.row.len();
    let taps = kept + 1;
    let mut sums: Vec<f32> = (0..i.row.len())
        .map(|c| {
            let mut s = i.bias[c];
            for t in 0..kept {
                s += i.taps[c * taps + t] * i.state[c * kept + t];
            }
            s + i.taps[c * taps + kept] * i.row[c]
        })
        .collect();
    sums.push(99.0);
    DeviceRun::Done(sums)
}

fn scan_kernel(i: ScanInputs<f32>) -> DeviceRun<ScanOutputs<f32>> {
    let mut state = i.state;
    let mut y = Vec::new();
    for h in 0..i.heads {
        for j in 0..i.head_dim {
            let c = h * i.head_dim + j;
            let v = i.x[c] * i.dt[h];
            let mut acc = 0.0;
            for n in 0..i.cells {
                let cell = state[c * i.cells + n] * (i.dt[h] * i.a[h]).exp() + i.b[n] * v;
                state[c * i.cells + n] = cell;
                acc += cell * i.c[n];
            }
            y.push(acc + i.d[h] * v);
        }
    }
    y.push(99.0);
    state.push(99.0);
    DeviceRun::Done(ScanOutputs { y, state })
}

#[test]
fn a_device_gives_what_the_host_gives() {
    let (w, cfg) = small_block();
    let hs = cfg.hidden_size;
    let mut rng = Lcg(0x5EED);
    let h = rng.vec(3 * hs, 0.5);
    let ssm = matmul(&h, &w.ssm_in, hs);
    let mut host = FalconH1LayerCache::new(&cfg, 0.0f32);
    let whole = mamba2_layer_cpu(&single(), &no_kernels(), &cfg, &w.mamba, &mut host, &ssm, 3);
    let kernels = SsmKernels { conv: conv_kernel, scan: scan_kernel };
    let mut cache = FalconH1LayerCache::new(&cfg, 0.0f32);
    let mut rows = Vec::new();
    for row in ssm.chunks(cfg.ssm_in_dim()) {
        let r = mamba2_layer_cpu(&single(), &kernels, &cfg, &w.mamba, &mut cache, row, 1);
        rows.extend(r.unwrap());
    }
    let whole = whole.unwrap();
    assert_eq!(whole.len(), rows.len());
    for (a, b) in whole.iter().zip(&rows) {
        assert!((a - b).abs() < 1e-4, "host {a} vs device {b}");
    }
    assert_eq!(host.conv_state, cache.conv_state);
    assert_eq!(host.ssm_state.len(), cache.ssm_state.len());
    for (a, b) in host.ssm_state.iter().zip(&cache.ssm_state) {
        assert!((a - b).abs() < 1e-4);
    }
}

#[test]
fn sums_of_the_device_are_activated() {
    let cfg = FalconH1Config {
        ssm_d_state: 1,
        ssm_d_inner: 1,
        ssm_d_conv: 2,
        ssm_dt_rank: 1,
        ..tiny_cfg()
    };
    let row = activate_sums(&single(), &cfg, &[1.0, -2.0, 3.0, 99.0]);
    assert_eq!(row.len(), 3);
    for (a, b) in row.iter().zip([1.0, -2.0, 3.0]) {
        assert!((a - silu(b)).abs() < 1e-6);
    }
    let w = FalconH1Block {
        ssm_conv_w: vec![0.5f32, 1.0, 0.25, 2.0, 0.0, 3.0],
        ssm_conv_b: vec![0.1f32, 0.2, 0.3],
        ssm_a: vec![-1.5f32],
        ssm_d: vec![0.7f32],
        ssm_dt_b: vec![0.4f32],
    };
    let ssm = [0.8f32, 1.0, -1.0, 2.0, 0.5];
    let kernels = SsmKernels { conv: conv_kernel, scan: scan_kernel };
    let mut cache = FalconH1LayerCache::new(&cfg, 0.0f32);
    cache.conv_state = vec![0.3, -0.2, 0.6];
    cache.ssm_state = vec![0.9];
    let run = ssm_conv_step_device(&single(), &kernels, &cfg, &w, &mut cache, &ssm);
    let xbc = match run {
        DeviceRun::Done(row) => row,
        _ => panic!("the kernel ran"),
    };
    assert!((xbc[0] - silu(0.1 + 0.5 * 0.3 + 1.0)).abs() < 1e-6);
    assert!((xbc[1] - silu(0.2 + 0.25 * -0.2 + 2.0 * -1.0)).abs() < 1e-6);
    assert!((xbc[2] - silu(0.3 + 3.0 * 2.0)).abs() < 1e-6);
    assert_eq!(cache.conv_state, vec![1.0, -1.0, 2.0]);
    let run = ssm_scan_step_device(&single(), &kernels, &cfg, &w, &mut cache, &xbc, &ssm);
    let y = match run {
        DeviceRun::Done(row) => row,
        _ => panic!("the kernel ran"),
    };
    let dt = (1.0f32 + (0.5f32 + 0.4).exp()).ln();
    let cell = 0.9 * (dt * -1.5).exp() + xbc[1] * (xbc[0] * dt);
    assert_eq!(y.len(), 1);
    assert!((y[0] - (cell * xbc[2] + 0.7 * (xbc[0] * dt))).abs() < 1e-6);
    assert_eq!(cache.ssm_state.len(), 1);
    assert!((cache.ssm_state[0] - cell).abs() < 1e-6);
}

#[test]
fn a_kernel_that_fails_ends_the_call() {
    let (w, cfg) = small_block();
    let mut rng = Lcg(0x5EED);
    let h = rng.vec(cfg.hidden_size, 0.5);
    let ssm = matmul(&h, &w.ssm_in, cfg.hidden_size);
    let lost_conv = SsmKernels { conv: |_: ConvInputs<f32>| DeviceRun::Failed, scan: scan_kernel };
    let mut cache = FalconH1LayerCache::new(&cfg, 0.0f32);
    let out = mamba2_layer_cpu(&single(), &lost_conv, &cfg, &w.mamba, &mut cache, &ssm, 1);
    assert!(matches!(out, Err(Error::KernelLost)));
    assert!(cache.conv_state.iter().all(|v| *v == 0.0));
    let lost_scan = SsmKernels { conv: conv_kernel, scan: |_: ScanInputs<f32>| DeviceRun::Failed };
    let out = mamba2_layer_cpu(&single(), &lost_scan, &cfg, &w.mamba, &mut cache, &ssm, 1);
    assert!(matches!(out, Err(Error::KernelLost)));
    assert!(cache.conv_state.iter().any(|v| *v != 0.0));
    assert!(cache.ssm_state.iter().all(|v| *v == 0.0));
    // More than one token is not offered to the device.
    let both = [ssm.clone(), ssm.clone()].concat();
    let out = mamba2_layer_cpu(&single(), &lost_conv, &cfg, &w.mamba, &mut cache, &both, 2);
    assert!(out.is_ok());
}

#[test]
fn positions_repeat_per_head() {
    let both = [expand_positions(&[4], 3), expand_positions(&[5], 3)].concat();
    assert_eq!(expand_positions(&[4, 5], 3), both);
    assert_eq!(expand_positions(&expand_positions(&[4, 5], 2), 3), expand_positions(&[4, 5], 6));
    assert_eq!(expand_positions(&[4, 5], 1), vec![4, 5]);
    assert_eq!(expand_positions(&[4, 5], 3), vec![4, 4, 4, 5, 5, 5]);
}

#[test]
fn falcon_sessions_start_empty() {
    let model = FalconH1Model { cfg: tiny_cfg() };
    let caches = model.new_session(0.0f32);
    assert_eq!(caches.len(), 1);
    assert_eq!(caches[0].conv_state, vec![0.0; 3 * 40]);
    assert_eq!(caches[0].ssm_state, vec![0.0; 24 * 8]);
    assert_eq!(caches[0].current_pos, 0);
}
