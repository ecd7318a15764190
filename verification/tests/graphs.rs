//! Captured decoding: the launches of layers, of heads and of whole passes,
//! and the device side of the caches.

use grim_transformer::device::{Device, DeviceBuffer};
use grim_transformer::error::Error;
use grim_transformer::gla_graph::{gdl_forward_graph, is_gdl_layer, GdlBuffers};
use grim_transformer::lfm2::{
    ConvKernel, ExpertStack, FusedGateUpInfo, FusedQkvInfo, Lfm2, Lfm2AttentionMode, Lfm2Block,
    Lfm2Config, Lfm2Found, Lfm2Loaded, LinearInfo, Q80Weights,
};
use grim_transformer::lfm2_cache::{
    arena_total, attention_source, grow_arena, install_counter, mirror_rows, mirror_source,
    new_rows_of_arena, prepare_counter, AttentionCache,
    AttentionSource, CopyOutcome, CounterSeed, DeviceLaunch, Lfm2LayerCache, MirrorSource,
};
use grim_transformer::lfm2_graph::{
    add_graph, dot_fused_ok, qkv_dot_fused, require_device_ptr, rms_norm_graph, DecodeGraph,
    GraphEnv, GraphOp, Slot, WeightRef,
};
use grim_transformer::lfm2_moe::{forward_moe_ffn_device, token_slices, ExpertOp, TokenSlices};
use grim_transformer::lfm2_step::{
    channel_major_state, shortconv_parts, shortconv_steps, slide_state,
};
use grim_transformer::numeric::Real;

fn setting(x: f64) -> Real {
    Real { bits: x.to_bits() }
}

fn square(n: usize) -> LinearInfo {
    LinearInfo { inputs: n, outputs: n }
}

fn no_q80() -> Q80Weights {
    Q80Weights {
        wq: false,
        wk: false,
        wv: false,
        in_proj: false,
        gate: false,
        up: false,
        down: false,
    }
}

fn block() -> Lfm2Block {
    Lfm2Block {
        wq: Some(square(64)),
        wk: Some(LinearInfo { inputs: 64, outputs: 32 }),
        wv: Some(LinearInfo { inputs: 64, outputs: 32 }),
        wo: Some(square(64)),
        attn_q_norm: Some(16),
        attn_k_norm: Some(16),
        wqkv_codes: None,
        wqkv_exps: None,
        gamma_q: None,
        gamma_k: None,
        wqkv_q80_fused: None,
        w_gate_up_q80_fused: None,
        shortconv_in_proj: None,
        shortconv_conv: None,
        shortconv_conv_vec: None,
        shortconv_out_proj: None,
        ffn_gate: LinearInfo { inputs: 64, outputs: 96 },
        ffn_up: LinearInfo { inputs: 64, outputs: 96 },
        ffn_down: LinearInfo { inputs: 96, outputs: 64 },
        ffn_gate_inp: None,
        ffn_gate_exps: None,
        ffn_up_exps: None,
        ffn_down_exps: None,
        ffn_exp_probs_b: None,
        q80: no_q80(),
        attention_mode: Lfm2AttentionMode::Softmax,
        is_moe: false,
        n_expert: 0,
        n_expert_used: 0,
        num_heads: 4,
        num_kv_heads: 2,
        head_dim: 16,
        rope_theta: setting(10000.0),
        eps: setting(1e-5),
    }
}

fn conv_block() -> Lfm2Block {
    Lfm2Block {
        wq: None,
        wk: None,
        wv: None,
        wo: None,
        shortconv_in_proj: Some(LinearInfo { inputs: 64, outputs: 192 }),
        shortconv_conv: Some(ConvKernel { taps: Some(3) }),
        shortconv_conv_vec: Some(192),
        shortconv_out_proj: Some(square(64)),
        ..block()
    }
}

fn env() -> GraphEnv {
    GraphEnv {
        dot4: false,
        dot_gemv: true,
        fused_residual: false,
        batch: 2,
        hidden: 64,
        ffn_width: 96,
        layers: 2,
        max_ctx: 10,
        head_elements: 128,
    }
}

fn norm(src: Slot, weight: WeightRef, dst: Slot) -> GraphOp {
    GraphOp::RmsNorm { src, weight, dst }
}

fn linear(src: Slot, weight: WeightRef, dst: Slot, layer: usize) -> GraphOp {
    GraphOp::Linear { src, weight, dst, layer }
}

fn attend(layer: usize) -> GraphOp {
    GraphOp::Attend { layer, heads: 4, kv_heads: 2, head_dim: 16, batch: 2, slot_stride: 320 }
}

fn attention_ops(layer: usize) -> Vec<GraphOp> {
    vec![
        GraphOp::CheckTopology { layer },
        GraphOp::HeadNorm {
            slot: Slot::Query(layer),
            weight: WeightRef::QueryNorm,
            rows: 8,
            width: 16,
        },
        GraphOp::HeadNorm { slot: Slot::Key(layer), weight: WeightRef::KeyNorm, rows: 4, width: 16 },
        GraphOp::Rope { slot: Slot::Query(layer), batch: 2, heads: 4, head_dim: 16 },
        GraphOp::Rope { slot: Slot::Key(layer), batch: 2, heads: 2, head_dim: 16 },
        GraphOp::CheckAppend { layer, max_ctx: 10 },
        GraphOp::CheckAttend { layer, max_ctx: 10 },
        GraphOp::Append {
            src: Slot::Key(layer),
            arena: Slot::KeyArena(layer),
            kv_stride: 32,
            batch: 2,
            slot_stride: 320,
        },
        GraphOp::Append {
            src: Slot::Value(layer),
            arena: Slot::ValueArena(layer),
            kv_stride: 32,
            batch: 2,
            slot_stride: 320,
        },
        attend(layer),
        GraphOp::AdvancePosition { batch: 2 },
    ]
}

fn plain_ffn_ops(layer: usize, dst: Slot, first: GraphOp) -> Vec<GraphOp> {
    vec![
        GraphOp::CheckTopology { layer },
        first,
        linear(Slot::Norm(layer), WeightRef::Gate, Slot::Gate(layer), layer),
        linear(Slot::Norm(layer), WeightRef::Up, Slot::Up(layer), layer),
        GraphOp::SiluMul { layer },
        linear(Slot::Activated(layer), WeightRef::Down, Slot::Norm(layer), layer),
        GraphOp::Add { a: Slot::LayerOutput(layer), b: Slot::Norm(layer), dst },
    ]
}

// Attention.

#[test]
fn dot_kernels_take_wide_rows_where_the_device_has_them() {
    let mut e = env();
    assert!(!dot_fused_ok(&e, 64));
    e.dot4 = true;
    assert!(dot_fused_ok(&e, 64));
    assert!(!dot_fused_ok(&e, 0));
    assert!(!dot_fused_ok(&e, 48));
    e.dot_gemv = false;
    assert!(!dot_fused_ok(&e, 64));
}

#[test]
fn attention_normalises_rotates_appends_and_attends() {
    let b = block();
    assert!(b.is_attention());
    assert_eq!(b.attention_forward_graph(1, &env(), false), attention_ops(1));
    assert_eq!(
        b.attention_forward_graph(1, &env(), true),
        vec![
            GraphOp::CheckTopology { layer: 1 },
            attend(1),
            GraphOp::AdvancePosition { batch: 2 },
        ]
    );
    let wide = Lfm2Block { head_dim: 64, ..block() };
    assert_eq!(
        wide.attention_forward_graph(0, &env(), false)[1..3],
        [
            GraphOp::NormRope {
                slot: Slot::Query(0),
                weight: WeightRef::QueryNorm,
                batch: 2,
                heads: 4,
                head_dim: 64,
            },
            GraphOp::NormRopeAppend {
                layer: 0,
                batch: 2,
                heads: 2,
                head_dim: 64,
                kv_stride: 128,
                slot_stride: 1280,
            },
        ]
    );
    let bare = Lfm2Block { attn_k_norm: None, ..block() };
    assert_eq!(bare.attention_forward_graph(1, &env(), false).len(), 9);
}

#[test]
fn attention_layers_close_with_their_projection() {
    let b = block();
    let mut want = vec![
        norm(Slot::LayerInput(0), WeightRef::AttnNorm, Slot::Norm(0)),
        linear(Slot::Norm(0), WeightRef::Query, Slot::Query(0), 0),
        linear(Slot::Norm(0), WeightRef::Key, Slot::Key(0), 0),
        linear(Slot::Norm(0), WeightRef::Value, Slot::Value(0), 0),
    ];
    want.extend(attention_ops(0));
    want.push(linear(Slot::AttentionOut(0), WeightRef::AttnOut, Slot::Norm(0), 0));
    assert_eq!(b.attn_forward_graph(0, &env(), true).unwrap(), want);
    want.push(GraphOp::Add {
        a: Slot::LayerInput(0),
        b: Slot::Norm(0),
        dst: Slot::LayerOutput(0),
    });
    assert_eq!(b.attn_forward_graph(0, &env(), false).unwrap(), want);
}

#[test]
fn quantised_projections_fuse_with_their_norm() {
    let b = Lfm2Block { q80: Q80Weights { wq: true, wk: true, wv: true, ..no_q80() }, ..block() };
    let mut e = env();
    assert!(!qkv_dot_fused(&b, &e));
    e.dot4 = true;
    assert!(qkv_dot_fused(&b, &e));
    let ops = b.attn_forward_graph(3, &e, true).unwrap();
    assert_eq!(ops[0], GraphOp::FusedNormQkv { layer: 3, n_q: 64, n_kv: 32, hidden: 64 });
    assert_eq!(ops[1], GraphOp::CheckTopology { layer: 3 });

    let packed = Lfm2Block {
        wqkv_codes: Some(square(64)),
        wqkv_exps: Some(4),
        gamma_q: Some(16),
        gamma_k: Some(16),
        ..b
    };
    assert_eq!(
        packed.attn_forward_graph(3, &e, true).unwrap(),
        vec![
            norm(Slot::LayerInput(3), WeightRef::AttnNorm, Slot::Norm(3)),
            GraphOp::FusedMxfp4Qkv { layer: 3, batch: 2, hidden: 64, max_ctx: 10 },
            GraphOp::CheckTopology { layer: 3 },
            attend(3),
            GraphOp::AdvancePosition { batch: 2 },
            linear(Slot::AttentionOut(3), WeightRef::AttnOut, Slot::Norm(3), 3),
        ]
    );
    let lacking = Lfm2Block { gamma_k: None, ..packed };
    assert!(matches!(
        lacking.attn_forward_graph(3, &e, true),
        Err(Error::GraphPart { stage: "mxfp4 fused qkv", part: "gamma_k" })
    ));
}

// Feed-forward parts.

#[test]
fn dense_parts_take_the_kernels_that_fit() {
    let b = block();
    assert_eq!(
        b.ffn_forward_graph(0, &env(), Slot::LayerInput(1), true),
        plain_ffn_ops(0, Slot::LayerInput(1), GraphOp::FusedAddNorm { layer: 0 })
    );
    assert_eq!(
        b.ffn_forward_graph(1, &env(), Slot::HeadInput, false),
        plain_ffn_ops(
            1,
            Slot::HeadInput,
            norm(Slot::LayerOutput(1), WeightRef::FfnNorm, Slot::Norm(1)),
        )
    );

    let q80 = Lfm2Block {
        q80: Q80Weights { gate: true, up: true, down: true, ..no_q80() },
        ..block()
    };
    let mut e = env();
    e.dot4 = true;
    let down = GraphOp::DownAdd { layer: 0, dst: Slot::HeadInput, m: 2, n: 64, k: 96 };
    assert_eq!(
        q80.ffn_forward_graph(0, &e, Slot::HeadInput, true),
        vec![
            GraphOp::CheckTopology { layer: 0 },
            GraphOp::FusedAddNorm { layer: 0 },
            GraphOp::FusedGateUp { layer: 0, n: 96, hidden: 64 },
            down,
        ]
    );
    e.fused_residual = true;
    assert_eq!(
        q80.ffn_forward_graph(0, &e, Slot::HeadInput, true),
        vec![
            GraphOp::CheckTopology { layer: 0 },
            GraphOp::FusedAddNormGateUp { layer: 0, m: 2, n: 96, hidden: 64 },
            down,
        ]
    );
    assert_eq!(q80.ffn_forward_graph(0, &e, Slot::HeadInput, false).len(), 4);
}

#[test]
fn a_joined_gate_and_up_is_split_and_activated() {
    let b = Lfm2Block {
        w_gate_up_q80_fused: Some(FusedGateUpInfo { n_gate: 96, n_up: 96 }),
        ..block()
    };
    let mut e = env();
    e.dot4 = true;
    let ops = b.ffn_forward_graph(0, &e, Slot::HeadInput, true);
    assert_eq!(
        ops[2..7],
        [
            GraphOp::Quantise {
                src: Slot::Norm(0),
                dst: Slot::Quantised(0),
                m: 2,
                hidden: 64,
            },
            GraphOp::GateUpBlob { layer: 0, n_gate: 96, n_up: 96, hidden: 64 },
            GraphOp::CopySlice { src: Slot::GateUp(0), from: 0, len: 96, dst: Slot::Gate(0) },
            GraphOp::CopySlice { src: Slot::GateUp(0), from: 96, len: 96, dst: Slot::Up(0) },
            GraphOp::SiluMul { layer: 0 },
        ]
    );
}

#[test]
fn expert_parts_route_and_dispatch() {
    let b = Lfm2Block {
        is_moe: true,
        n_expert: 4,
        n_expert_used: 6,
        ffn_gate_inp: Some(LinearInfo { inputs: 64, outputs: 4 }),
        ffn_gate_exps: Some(ExpertStack { d0: 4, d1: 96, d2: 64 }),
        ..block()
    };
    assert_eq!(
        b.moe_forward_graph(1, &env(), Slot::HeadInput, Some(96)).unwrap(),
        vec![
            norm(Slot::LayerOutput(1), WeightRef::FfnNorm, Slot::Norm(1)),
            linear(Slot::Norm(1), WeightRef::Router, Slot::RouterScores(1), 1),
            GraphOp::Route { layer: 1, batch: 2, experts: 4, top_k: 4 },
            GraphOp::Dispatch { layer: 1, slots: 8, hidden: 64, n_ff: 96 },
            GraphOp::Add {
                a: Slot::LayerOutput(1),
                b: Slot::ExpertsOut(1),
                dst: Slot::HeadInput,
            },
        ]
    );
    assert!(matches!(
        b.moe_forward_graph(1, &env(), Slot::HeadInput, None),
        Err(Error::GraphExperts)
    ));
    let lacking = Lfm2Block { ffn_gate_inp: None, ..b };
    assert!(matches!(
        lacking.moe_forward_graph(1, &env(), Slot::HeadInput, Some(96)),
        Err(Error::GraphPart { stage: "moe_forward_graph", part: "router gate" })
    ));
    let ops = b.forward_graph(1, &env(), None, Some(96)).unwrap();
    assert!(ops.contains(&GraphOp::Add {
        a: Slot::LayerInput(1),
        b: Slot::Norm(1),
        dst: Slot::LayerOutput(1),
    }));
}

// Recurrent layers.

#[test]
fn convolution_layers_run_on_the_device_ring() {
    let b = conv_block();
    assert!(!b.is_attention());
    assert_eq!(
        b.shortconv_forward_graph(0, &env()).unwrap(),
        vec![
            norm(Slot::LayerInput(0), WeightRef::AttnNorm, Slot::Norm(0)),
            linear(Slot::Norm(0), WeightRef::ShortConvIn, Slot::ShortConvIn(0), 0),
            GraphOp::ShortConv { layer: 0, batch: 2, hidden: 64, taps: 3 },
            linear(Slot::ShortConvOut(0), WeightRef::ShortConvOut, Slot::Norm(0), 0),
        ]
    );
    let mut e = env();
    e.dot4 = true;
    let fused = Lfm2Block { q80: Q80Weights { in_proj: true, ..no_q80() }, ..b };
    assert_eq!(
        fused.shortconv_forward_graph(0, &e).unwrap()[0],
        GraphOp::FusedNormShortConvIn { layer: 0, m: 2, n: 192, hidden: 64 }
    );
    let lacking = Lfm2Block { shortconv_conv: None, ..b };
    assert!(matches!(
        lacking.shortconv_forward_graph(0, &env()),
        Err(Error::GraphPart { stage: "shortconv_forward_graph", part: "conv" })
    ));
    let none = Lfm2Block { shortconv_in_proj: None, ..b };
    assert!(matches!(none.forward_graph(0, &env(), None, None), Err(Error::NoShortConv)));
}

fn gdl_block() -> Lfm2Block {
    Lfm2Block { attention_mode: Lfm2AttentionMode::Gdl, head_dim: 64, ..block() }
}

fn gdl_buffers() -> GdlBuffers {
    GdlBuffers { heads: 4, dk: 64, dv: 64, key_repeat: true, value_repeat: true }
}

#[test]
fn delta_layers_step_their_state() {
    let b = gdl_block();
    assert!(is_gdl_layer(&b) && !is_gdl_layer(&block()));
    assert_eq!(
        gdl_forward_graph(&b, 0, &env(), Some(gdl_buffers()), true).unwrap(),
        vec![
            norm(Slot::LayerInput(0), WeightRef::AttnNorm, Slot::Norm(0)),
            linear(Slot::Norm(0), WeightRef::Query, Slot::Query(0), 0),
            linear(Slot::Norm(0), WeightRef::Key, Slot::Key(0), 0),
            linear(Slot::Norm(0), WeightRef::Value, Slot::Value(0), 0),
            GraphOp::HeadRepeat { layer: 0, kv_heads: 2, heads: 4, times: 2 },
            GraphOp::GdlStep { layer: 0, repeated: true, heads: 4, batch: 2 },
            linear(Slot::AttentionOut(0), WeightRef::AttnOut, Slot::Norm(0), 0),
        ]
    );
    let even = Lfm2Block { num_kv_heads: 4, ..b };
    assert_eq!(
        gdl_forward_graph(&even, 0, &env(), Some(gdl_buffers()), true).unwrap()[4],
        GraphOp::GdlStep { layer: 0, repeated: false, heads: 4, batch: 2 }
    );
}

#[test]
fn delta_layers_say_why_they_cannot_be_captured() {
    let refused = |b: &Lfm2Block, buffers: Option<GdlBuffers>| {
        gdl_forward_graph(b, 0, &env(), buffers, true).unwrap_err()
    };
    let full = Some(gdl_buffers());
    assert!(matches!(refused(&block(), full), Error::NotGdl));
    let odd = Lfm2Block { num_kv_heads: 3, ..gdl_block() };
    assert!(matches!(refused(&odd, full), Error::GdlHeads { heads: 4, kv_heads: 3 }));
    let narrow = Lfm2Block { head_dim: 32, ..gdl_block() };
    assert!(matches!(refused(&narrow, full), Error::GdlHeadDim { head_dim: 32 }));
    let lacking = Lfm2Block { wo: None, ..gdl_block() };
    assert!(matches!(refused(&lacking, full), Error::GraphPart { part: "wo", .. }));
    assert!(matches!(refused(&gdl_block(), None), Error::GdlBuffers));
    let other = GdlBuffers { dk: 32, ..gdl_buffers() };
    assert!(matches!(refused(&gdl_block(), Some(other)), Error::GdlBufferShape));
    let short = GdlBuffers { value_repeat: false, ..gdl_buffers() };
    assert!(matches!(
        refused(&gdl_block(), Some(short)),
        Error::GraphPart { part: "v_exp_buf", .. }
    ));
}

// Passes.

fn config() -> Lfm2Config {
    Lfm2Config {
        vocab_size: 7,
        hidden_size: 64,
        num_heads: 4,
        num_kv_heads: 2,
        head_dim: 16,
        num_layers: 2,
        intermediate_size: 96,
        rms_norm_eps: setting(1e-5),
        rope_theta: setting(10000.0),
        n_shortconv_l_cache: 3,
        is_recr: vec![true, false],
        n_layer_dense_lead: 0,
        n_expert: 0,
        n_expert_used: 0,
        n_ff_exp: 0,
        expert_weights_scale: setting(0.0),
        expert_gating_func: 0,
        n_swa: 0,
        swa_type: 0,
        n_embd_out: 0,
        mxfp4_qkv_attention: false,
    }
}

fn model(device: Device) -> Lfm2 {
    Lfm2 {
        cfg: config(),
        device,
        layers: vec![conv_block(), block()],
        output: LinearInfo { inputs: 64, outputs: 7 },
        output_q80: false,
        dense_2_out: None,
        dense_2_out_bias: false,
    }
}

#[test]
fn heads_fuse_their_norm_where_they_can() {
    let mut m = model(Device::Rocm(0));
    assert_eq!(
        m.output_forward_graph(&env()),
        vec![
            norm(Slot::HeadInput, WeightRef::OutputNorm, Slot::HeadInput),
            linear(Slot::HeadInput, WeightRef::Output, Slot::HeadOutput, 0),
        ]
    );
    m.output_q80 = true;
    let mut e = env();
    e.dot4 = true;
    assert_eq!(
        m.output_forward_graph(&e),
        vec![GraphOp::FusedNormHead { m: 2, n: 7, hidden: 64 }]
    );
}

#[test]
fn a_pass_gathers_runs_every_layer_and_the_head() {
    let m = model(Device::Rocm(0));
    let e = env();
    let none = [None, None];
    let mut want = vec![GraphOp::EmbeddingGather { hidden: 64, elements: 128 }];
    want.extend(m.layers[0].forward_graph(0, &e, None, None).unwrap());
    want.extend(m.layers[1].forward_graph(1, &e, None, None).unwrap());
    want.extend(m.output_forward_graph(&e));
    assert_eq!(m.embed_and_forward_graph(&e, &none, &[None, None]).unwrap(), want);
    // The first layer leaves its result where the second reads it, the second
    // where the head does.
    assert!(want.contains(&GraphOp::Add {
        a: Slot::LayerOutput(0),
        b: Slot::Norm(0),
        dst: Slot::LayerInput(1),
    }));
    assert!(want.contains(&GraphOp::Add {
        a: Slot::LayerOutput(1),
        b: Slot::Norm(1),
        dst: Slot::HeadInput,
    }));
    let mut broken = model(Device::Rocm(0));
    broken.layers[1].wv = None;
    assert!(matches!(
        broken.embed_and_forward_graph(&e, &none, &[None, None]),
        Err(Error::GraphPart { stage: "attn_forward_graph", part: "wv" })
    ));
}

#[test]
fn a_batch_is_written_only_outside_a_capture() {
    let graph = DecodeGraph { capturing: false, is_captured: false, batch: 2, current_pos: 0 };
    let m = model(Device::Rocm(0));
    assert!(m.forward_capture_batch(&graph, true).unwrap().write_tokens);
    let within = DecodeGraph { capturing: true, ..graph };
    assert!(!m.forward_capture_batch(&within, true).unwrap().write_tokens);
    assert!(matches!(m.forward_capture_batch(&graph, false), Err(Error::CaptureDisabled)));
    let host = model(Device::Cpu);
    assert!(matches!(host.forward_capture_batch(&graph, true), Err(Error::GraphDevice)));
}

#[test]
fn operations_need_a_device_address() {
    assert!(require_device_ptr(Some(16), "a").is_ok());
    assert!(matches!(
        require_device_ptr(None, "a"),
        Err(Error::NoDevicePointer { name: "a" })
    ));
    assert_eq!(
        rms_norm_graph(Some(16), Slot::HeadInput, WeightRef::OutputNorm, Slot::HeadInput).unwrap(),
        norm(Slot::HeadInput, WeightRef::OutputNorm, Slot::HeadInput)
    );
    assert!(rms_norm_graph(None, Slot::HeadInput, WeightRef::OutputNorm, Slot::HeadInput).is_err());
    assert_eq!(
        add_graph(Some(16), Slot::Gate(0), Slot::Up(0), Slot::HeadInput).unwrap(),
        GraphOp::Add { a: Slot::Gate(0), b: Slot::Up(0), dst: Slot::HeadInput }
    );
    assert!(add_graph(None, Slot::Gate(0), Slot::Up(0), Slot::HeadInput).is_err());
}

// Caches on the device.

fn buffer(id: u64) -> DeviceBuffer {
    DeviceBuffer { id, rows: 4, cols: 2, rocm: true, ptr: Some(64 + id) }
}

#[test]
fn arenas_serve_only_when_both_copies_went_through() {
    assert_eq!(arena_total(3, 2, true, true, true), Some(5));
    assert_eq!(arena_total(3, 2, false, true, true), None);
    assert_eq!(arena_total(3, 2, true, false, true), None);
    assert_eq!(arena_total(3, 2, true, true, false), None);
}

#[test]
fn a_counter_starts_at_the_rows_that_are_held() {
    let mut fresh: Option<Lfm2LayerCache<f32>> = None;
    assert_eq!(prepare_counter(&mut fresh, 2), CounterSeed::Seed(0));
    let mut held = Some(Lfm2LayerCache::Attention(AttentionCache {
        k: vec![1.0f32, 2.0, 3.0, 4.0],
        v: vec![5.0, 6.0, 7.0, 8.0],
        ..AttentionCache::empty()
    }));
    assert_eq!(prepare_counter(&mut held, 2), CounterSeed::Seed(2));
    install_counter(&mut held, buffer(9));
    assert_eq!(prepare_counter(&mut held, 2), CounterSeed::Ready);
    match &held {
        Some(c @ Lfm2LayerCache::Attention(a)) => {
            assert!(!c.past_dev_needs_init());
            assert_eq!(a.past_dev.map(|b| b.id), Some(9));
            assert_eq!(a.pos_base_dev.map(|b| b.id), Some(9));
        }
        _ => panic!("an attention layer keeps its cache"),
    }
    let mut conv = Some(Lfm2LayerCache::ShortConv(vec![0.0f32; 4]));
    assert_eq!(prepare_counter(&mut conv, 2), CounterSeed::Ready);
}

#[test]
fn device_attention_makes_what_is_not_there() {
    let mut cache: Option<Lfm2LayerCache<f32>> = None;
    let plan = block().decode_attention_device(&mut cache, 32, 3).unwrap();
    assert!(plan.make_counter);
    assert_eq!(plan.make_arenas, Some(4096));
    assert_eq!(
        plan.launches,
        vec![
            DeviceLaunch::AppendKeys { kv_stride: 32, steps: 3 },
            DeviceLaunch::AppendValues { kv_stride: 32, steps: 3 },
            DeviceLaunch::Attend { heads: 4, kv_heads: 2, head_dim: 16, steps: 3 },
            DeviceLaunch::AdvanceCounter { steps: 3 },
        ]
    );
    assert_eq!(plan.width, 64);
    let mut held: Option<Lfm2LayerCache<f32>> = Some(Lfm2LayerCache::Attention(AttentionCache {
        k_dev: Some(buffer(1)),
        v_dev: Some(buffer(2)),
        past_dev: Some(buffer(3)),
        ..AttentionCache::empty()
    }));
    let plan = block().decode_attention_device(&mut held, 32, 1).unwrap();
    assert!(!plan.make_counter);
    assert_eq!(plan.make_arenas, None);
    let mut conv = Some(Lfm2LayerCache::ShortConv(vec![0.0f32; 4]));
    assert!(matches!(block().decode_attention_device(&mut conv, 32, 1), Err(Error::AttentionCache)));
}

#[test]
fn attention_reads_the_nearest_history() {
    let held: Option<Lfm2LayerCache<f32>> =
        Some(Lfm2LayerCache::Attention(AttentionCache::empty()));
    assert_eq!(attention_source(&held, true, None).unwrap(), AttentionSource::Computed);
    assert_eq!(attention_source(&held, false, Some(5)).unwrap(), AttentionSource::Arenas(5));
    assert_eq!(attention_source(&held, false, None).unwrap(), AttentionSource::HostHistory);
    let conv = Some(Lfm2LayerCache::ShortConv(vec![0.0f32; 4]));
    assert!(matches!(attention_source(&conv, false, None), Err(Error::AttentionCache)));
}

#[test]
fn arenas_grow_with_zeros_and_are_mirrored_by_rows() {
    assert_eq!(grow_arena(&[1.0f32, 2.0, 3.0], 3, 2, 0.0), vec![1.0, 2.0, 3.0, 0.0, 0.0, 0.0]);
    assert_eq!(
        new_rows_of_arena(&[0.0f32, 1.0, 2.0, 3.0, 4.0, 5.0], 1, 1, 2),
        vec![2.0, 3.0]
    );
    let mut held = Some(Lfm2LayerCache::Attention(AttentionCache {
        k: vec![1.0f32, 2.0],
        v: vec![3.0, 4.0],
        ..AttentionCache::empty()
    }));
    mirror_rows(&mut held, &[5.0, 6.0], &[7.0, 8.0]).unwrap();
    match &held {
        Some(Lfm2LayerCache::Attention(a)) => {
            assert_eq!(a.k, vec![1.0, 2.0, 5.0, 6.0]);
            assert_eq!(a.v, vec![3.0, 4.0, 7.0, 8.0]);
        }
        _ => panic!("an attention layer keeps its cache"),
    }
    let mut conv = Some(Lfm2LayerCache::ShortConv(vec![0.0f32; 4]));
    assert!(matches!(mirror_rows(&mut conv, &[5.0], &[7.0]), Err(Error::AttentionCache)));
}

#[test]
fn copies_that_are_not_there_fall_back_to_whole_arenas() {
    assert_eq!(mirror_source(CopyOutcome::Done, CopyOutcome::Done), MirrorSource::Staged);
    assert_eq!(mirror_source(CopyOutcome::Done, CopyOutcome::Unimplemented), MirrorSource::WholeArenas);
    assert_eq!(mirror_source(CopyOutcome::Unimplemented, CopyOutcome::Failed), MirrorSource::WholeArenas);
    assert_eq!(mirror_source(CopyOutcome::Failed, CopyOutcome::Done), MirrorSource::KeysFailed);
    assert_eq!(mirror_source(CopyOutcome::Done, CopyOutcome::Failed), MirrorSource::ValuesFailed);
}

// The convolution on the device.

#[test]
fn a_projection_holds_three_parts_per_step() {
    assert_eq!(shortconv_steps(2, 12), 2);
    assert_eq!(shortconv_steps(0, 12), 0);
    let proj: Vec<f32> = (0..12).map(|i| i as f32).collect();
    let parts = shortconv_parts(&proj, 2, 2);
    assert_eq!(parts.b, vec![0.0, 1.0, 6.0, 7.0]);
    assert_eq!(parts.c, vec![2.0, 3.0, 8.0, 9.0]);
    assert_eq!(parts.x, vec![4.0, 5.0, 10.0, 11.0]);
}

#[test]
fn the_device_keeps_the_state_by_channels() {
    assert_eq!(
        channel_major_state(&[1.0f32, 2.0, 3.0, 4.0, 5.0, 6.0], 2, 3),
        vec![1.0, 4.0, 2.0, 5.0, 3.0, 6.0]
    );
    let mut state = vec![1.0f32, 2.0, 3.0, 4.0];
    slide_state(&mut state, &[5.0, 6.0]);
    assert_eq!(state, vec![3.0, 4.0, 5.0, 6.0]);
}

// Experts on the device.

#[test]
fn an_expert_is_cut_out_of_its_stacks() {
    assert_eq!(
        token_slices(1, 2, 2, 3, 5, 4),
        TokenSlices { row: 4, expert: 40, expert_len: 20 }
    );
    let ops = forward_moe_ffn_device(1, 2, 2, 3, 5, 4);
    assert_eq!(ops[0], ExpertOp::CopyRow { from: 4, len: 4 });
    assert!(ops.contains(&ExpertOp::CopyDown { from: 40, len: 20 }));
    assert_eq!(ops[ops.len() - 1], ExpertOp::StoreRow { at: 4, len: 4 });
    assert!(Lfm2Block::tries_experts_on_device(Device::Rocm(0)));
    assert!(!Lfm2Block::tries_experts_on_device(Device::Cpu));
    assert_eq!(block().host_expert_width(), 96);
}

// Loading.

#[test]
fn fused_weights_are_packed_for_attention_layers_on_rocm() {
    let mut cfg = config();
    cfg.mxfp4_qkv_attention = true;
    let rocm = Some(Device::Rocm(0));
    assert!(cfg.is_recurrent(0) && !cfg.is_recurrent(1) && !cfg.is_recurrent(9));
    assert!(!Lfm2Block::packs_fused_mxfp4(&cfg, 0, rocm));
    assert!(Lfm2Block::packs_fused_mxfp4(&cfg, 1, rocm));
    assert!(!Lfm2Block::packs_fused_mxfp4(&cfg, 1, Some(Device::Cpu)));
    cfg.mxfp4_qkv_attention = false;
    assert!(!Lfm2Block::packs_fused_mxfp4(&cfg, 1, rocm));
    assert!(Lfm2Block::tries_fused_q80(&cfg, 1, rocm, true));
    assert!(!Lfm2Block::tries_fused_q80(&cfg, 1, rocm, false));
    assert!(!Lfm2Block::tries_fused_q80(&cfg, 0, rocm, true));
    let caches: Vec<Option<Lfm2LayerCache<f32>>> = model(Device::Cpu).new_caches();
    assert!(caches.len() == 2 && caches.iter().all(|c| c.is_none()));
}

fn found() -> Lfm2Found {
    let layer = Lfm2Loaded {
        device: Some(Device::Cpu),
        fuses_qkv: true,
        fused_qkv: None,
        fused_gate_up: None,
        conv_taps: Some(3),
        conv_values: Some(192),
        q80: no_q80(),
        attention_mode: Lfm2AttentionMode::Softmax,
    };
    Lfm2Found {
        world_size: 1,
        device: Device::Cpu,
        layers: vec![layer, layer],
        output_q80: false,
        dense_2_out_bias: false,
    }
}

#[test]
fn models_are_loaded_layer_by_layer() {
    let mut cfg = config();
    cfg.n_layer_dense_lead = 2;
    let m = Lfm2::load_tp(cfg.clone(), found(), 1).unwrap();
    assert!(m.layers[0].wq.is_none() && m.layers[0].shortconv_in_proj.is_some());
    assert_eq!(m.layers[1].wk, Some(LinearInfo { inputs: 64, outputs: 32 }));
    assert_eq!(m.output, LinearInfo { inputs: 64, outputs: 7 });
    assert_eq!(m.dense_2_out, None);

    assert!(matches!(Lfm2::load_tp(cfg.clone(), found(), 2), Err(Error::SingleDevice { .. })));
    let mut nothing = found();
    nothing.layers = Vec::new();
    assert!(matches!(Lfm2::load_tp(cfg.clone(), nothing, 2), Err(Error::SingleDevice { .. })));
    let mut short = cfg.clone();
    short.is_recr = vec![true];
    assert!(matches!(
        Lfm2::load_tp(short, found(), 1),
        Err(Error::RecurrenceFlags { flags: 1, layers: 2 })
    ));
    let mut lacking = found();
    lacking.layers[0].conv_values = None;
    assert!(matches!(
        Lfm2::load_tp(cfg, lacking, 1),
        Err(Error::MissingField { layer: 0, field: "shortconv_conv_vec" })
    ));
    let half = Lfm2Block { wqkv_codes: Some(square(64)), ..block() };
    assert!(matches!(half.validate(4), Err(Error::HalfFusedPack { layer: 4 })));
}

#[test]
fn fused_blobs_are_kept_only_on_rocm_and_where_asked_for() {
    let cfg = config();
    let blob = FusedQkvInfo { n_q: 64, n_k: 32 };
    let mut layer = found().layers[0];
    layer.fused_qkv = Some(blob);
    assert_eq!(Lfm2Block::load(&cfg, 1, &layer).wqkv_q80_fused, None);
    layer.device = Some(Device::Rocm(0));
    assert_eq!(Lfm2Block::load(&cfg, 1, &layer).wqkv_q80_fused, Some(blob));
    assert_eq!(Lfm2Block::load(&cfg, 0, &layer).wqkv_q80_fused, None);
    layer.fuses_qkv = false;
    assert_eq!(Lfm2Block::load(&cfg, 1, &layer).wqkv_q80_fused, None);
}

#[test]
fn models_load_over_the_devices_of_their_weights() {
    let mut cfg = config();
    cfg.n_layer_dense_lead = 2;
    assert_eq!(Lfm2::load(cfg.clone(), found()).unwrap().layers.len(), 2);
    let mut spread = found();
    spread.world_size = 2;
    assert!(matches!(Lfm2::load(cfg, spread), Err(Error::SingleDevice { .. })));
}

#[test]
fn layers_ask_for_the_weights_of_their_kind() {
    let mut cfg = config();
    cfg.n_layer_dense_lead = 1;
    cfg.n_expert = 4;
    cfg.n_ff_exp = 5;
    let names = |layer: usize| -> Vec<String> {
        Lfm2Block::weight_plan(&cfg, layer).iter().map(|s| s.first.path.name()).collect()
    };
    assert_eq!(
        names(0),
        vec![
            "blk.0.attn_norm",
            "blk.0.shortconv.in_proj",
            "blk.0.shortconv.conv.weight",
            "blk.0.shortconv.out_proj",
            "blk.0.ffn_norm",
            "blk.0.ffn_gate",
            "blk.0.ffn_up",
            "blk.0.ffn_down",
        ]
    );
    assert_eq!(
        names(1)[..9],
        [
            "blk.1.attn_norm",
            "blk.1.attn_q",
            "blk.1.attn_k",
            "blk.1.attn_v",
            "blk.1.attn_output",
            "blk.1.attn_q_norm",
            "blk.1.attn_k_norm",
            "blk.1.ffn_norm",
            "blk.1.ffn_gate_inp",
        ]
    );
    let plan = Lfm2::weight_plan(&cfg);
    assert_eq!(plan.layers.len(), 2);
    assert_eq!(plan.norm.first.path.name(), "token_embd_norm");
    assert_eq!(plan.norm.second.map(|a| a.path.name()), Some("output_norm".to_string()));
    assert!(plan.dense_2_out.is_none());
}
