//! Captured decoding of an LFM2 stack: which launches a step records, and into
//! which fixed buffers they write.

use crate::error::Error;
use crate::gla_graph::{gdl_forward_graph, gdl_ops, is_gdl, is_gdl_layer, GdlBuffers};
use crate::lfm2::{Lfm2, Lfm2AttentionMode, Lfm2Block};
use crate::lfm2_cache::Lfm2LayerCache;
use vstd::prelude::*;

verus! {

/// A fixed buffer of the capture. The per-layer buffers carry their layer.
#[derive(Debug, Clone, Copy, PartialEq, Eq, Structural)]
pub enum Slot {
    TokenIds,
    LayerInput(usize),
    Norm(usize),
    Query(usize),
    Key(usize),
    Value(usize),
    KeyArena(usize),
    ValueArena(usize),
    /// Keys and values repeated for every query head.
    KeyRepeated(usize),
    ValueRepeated(usize),
    GdlState(usize),
    AttentionOut(usize),
    LayerOutput(usize),
    GateUp(usize),
    Gate(usize),
    Up(usize),
    Activated(usize),
    /// The quantised activation.
    Quantised(usize),
    ShortConvIn(usize),
    ShortConvState(usize),
    ShortConvOut(usize),
    RouterScores(usize),
    /// The routing triple: tokens, experts and weights.
    Routing(usize),
    ExpertsOut(usize),
    HeadInput,
    HeadOutput,
    Position,
}

/// A weight that a launch reads.
#[derive(Debug, Clone, Copy, PartialEq, Eq, Structural)]
pub enum WeightRef {
    Embedding,
    AttnNorm,
    FfnNorm,
    OutputNorm,
    Query,
    Key,
    Value,
    AttnOut,
    QueryNorm,
    KeyNorm,
    Gate,
    Up,
    Down,
    GateUpBlob,
    ShortConvIn,
    ShortConvOut,
    Router,
    Output,
}

/// One recorded launch.
#[derive(Debug, Clone, Copy, PartialEq, Eq, Structural)]
pub enum GraphOp {
    /// Check that the buffers have this layer.
    CheckTopology { layer: usize },
    /// Look tokens up into the first layer's input.
    EmbeddingGather { hidden: usize, elements: usize },
    RmsNorm { src: Slot, weight: WeightRef, dst: Slot },
    /// Root-mean-square norm over rows of a given width, in place.
    HeadNorm { slot: Slot, weight: WeightRef, rows: usize, width: usize },
    Linear { src: Slot, weight: WeightRef, dst: Slot, layer: usize },
    /// Project, normalise, rotate and append in one kernel.
    FusedMxfp4Qkv { layer: usize, batch: usize, hidden: usize, max_ctx: usize },
    /// Normalise and project in one kernel.
    FusedNormQkv { layer: usize, n_q: usize, n_kv: usize, hidden: usize },
    /// Project normalised rows to queries, keys and values in one kernel.
    FusedQkv { layer: usize, n_q: usize, n_kv: usize, hidden: usize },
    /// Normalise and rotate one of queries and keys, in place.
    NormRope { slot: Slot, weight: WeightRef, batch: usize, heads: usize, head_dim: usize },
    /// Normalise and rotate keys and append keys and values.
    NormRopeAppend {
        layer: usize,
        batch: usize,
        heads: usize,
        head_dim: usize,
        kv_stride: usize,
        slot_stride: usize,
    },
    /// Rotate in place.
    Rope { slot: Slot, batch: usize, heads: usize, head_dim: usize },
    /// Check that the arena takes the step's rows.
    CheckAppend { layer: usize, max_ctx: usize },
    /// Check that the arena can be attended over.
    CheckAttend { layer: usize, max_ctx: usize },
    Append { src: Slot, arena: Slot, kv_stride: usize, batch: usize, slot_stride: usize },
    Attend {
        layer: usize,
        heads: usize,
        kv_heads: usize,
        head_dim: usize,
        batch: usize,
        slot_stride: usize,
    },
    /// Advance every slot's position by one.
    AdvancePosition { batch: usize },
    Add { a: Slot, b: Slot, dst: Slot },
    /// Add, normalise and run gate, up and activation in one kernel.
    FusedAddNormGateUp { layer: usize, m: usize, n: usize, hidden: usize },
    /// Add and normalise in one kernel.
    FusedAddNorm { layer: usize },
    /// Gate, up and activation in one kernel.
    FusedGateUp { layer: usize, n: usize, hidden: usize },
    Quantise { src: Slot, dst: Slot, m: usize, hidden: usize },
    /// Gate and up from one blob.
    GateUpBlob { layer: usize, n_gate: usize, n_up: usize, hidden: usize },
    /// Copy a stretch of one buffer to the start of another.
    CopySlice { src: Slot, from: usize, len: usize, dst: Slot },
    SiluMul { layer: usize },
    /// Down projection and residual sum in one kernel.
    DownAdd { layer: usize, dst: Slot, m: usize, n: usize, k: usize },
    /// Normalise and run the convolution's input projection in one kernel.
    FusedNormShortConvIn { layer: usize, m: usize, n: usize, hidden: usize },
    /// Gate, convolve, slide the state and gate again.
    ShortConv { layer: usize, batch: usize, hidden: usize, taps: usize },
    Route { layer: usize, batch: usize, experts: usize, top_k: usize },
    Dispatch { layer: usize, slots: usize, hidden: usize, n_ff: usize },
    /// Repeat key and value heads for every query head.
    HeadRepeat { layer: usize, kv_heads: usize, heads: usize, times: usize },
    /// Update the recurrent state and read it, in one kernel.
    GdlStep { layer: usize, repeated: bool, heads: usize, batch: usize },
    /// Normalise and run the head in one kernel.
    FusedNormHead { m: usize, n: usize, hidden: usize },
}

/// What a capture runs under.
#[derive(Debug, Clone, Copy)]
pub struct GraphEnv {
    /// The device has four-way dot products.
    pub dot4: bool,
    /// Dot-product kernels are not switched off.
    pub dot_gemv: bool,
    /// The residual sum may be fused with gate and up.
    pub fused_residual: bool,
    /// Sequences that one replay advances.
    pub batch: usize,
    /// Width of the residual stream.
    pub hidden: usize,
    /// Width of the activated buffer.
    pub ffn_width: usize,
    /// Layers that the buffers were made for.
    pub layers: usize,
    pub max_ctx: usize,
    /// Elements in the head's input.
    pub head_elements: usize,
}

/// At least one.
pub open spec fn at_least_one(n: usize) -> usize {
    if n == 0 {
        1
    } else {
        n
    }
}

fn one_or_more(n: usize) -> (r: usize)
    ensures
        r == at_least_one(n),
{
    if n == 0 {
        1
    } else {
        n
    }
}

/// The dot-product kernels take rows of this width.
pub open spec fn dot_ok(env: &GraphEnv, width: usize) -> bool {
    width != 0 && width % 32 == 0 && env.dot4 && env.dot_gemv
}

/// Tells whether the dot-product kernels take rows of a width.
pub fn dot_fused_ok(env: &GraphEnv, width: usize) -> (r: bool)
    ensures
        r == dot_ok(env, width),
{
    width != 0 && width % 32 == 0 && env.dot4 && env.dot_gemv
}

/// The sizes that a capture is made for.
#[derive(Debug, Clone, Copy, PartialEq, Eq, Structural)]
pub struct GraphDims {
    pub hidden: usize,
    pub n_q: usize,
    pub n_k: usize,
    pub inter: usize,
    pub vocab: usize,
    pub ctx: usize,
    pub heads: usize,
}

/// The sizes that a capture of `lfm` is made for; a vocabulary or a context of
/// zero counts as one.
pub fn graph_dims(lfm: &Lfm2, max_ctx: usize) -> (dims: GraphDims)
    requires
        lfm.cfg.heads_fit(),
    ensures
        dims == (GraphDims {
            hidden: lfm.cfg.hidden_size,
            n_q: (lfm.cfg.num_heads * lfm.cfg.head_dim) as usize,
            n_k: (lfm.cfg.num_kv_heads * lfm.cfg.head_dim) as usize,
            inter: lfm.cfg.intermediate_size,
            vocab: at_least_one(lfm.cfg.vocab_size),
            ctx: at_least_one(max_ctx),
            heads: lfm.cfg.num_heads,
        }),
{
    GraphDims {
        hidden: lfm.cfg.hidden_size,
        n_q: lfm.cfg.num_heads * lfm.cfg.head_dim,
        n_k: lfm.cfg.num_kv_heads * lfm.cfg.head_dim,
        inter: lfm.cfg.intermediate_size,
        vocab: one_or_more(lfm.cfg.vocab_size),
        ctx: one_or_more(max_ctx),
        heads: lfm.cfg.num_heads,
    }
}

/// The dimensions of a layer fit.
pub open spec fn layer_fits(block: &Lfm2Block, env: &GraphEnv) -> bool {
    let batch = at_least_one(env.batch);
    &&& block.num_heads * block.head_dim <= usize::MAX
    &&& block.num_kv_heads * block.head_dim <= usize::MAX
    &&& env.max_ctx * (block.num_kv_heads * block.head_dim) <= usize::MAX
    &&& batch * block.num_heads <= usize::MAX
    &&& batch * block.num_kv_heads <= usize::MAX
    &&& batch * block.n_expert <= usize::MAX
}

/// The fused MXFP4 kernel serves the layer.
pub open spec fn uses_mxfp4(block: &Lfm2Block) -> bool {
    block.wqkv_codes is Some && block.wqkv_exps is Some
}

/// The projections of queries, keys and values can be one dot-product kernel.
pub open spec fn qkv_dot_ok(block: &Lfm2Block, env: &GraphEnv) -> bool {
    &&& dot_ok(env, env.hidden)
    &&& block.q80.wq
    &&& block.q80.wk
    &&& block.q80.wv
    &&& (block.num_heads * block.head_dim) % 4 == 0
    &&& (block.num_kv_heads * block.head_dim) % 4 == 0
}

/// Tells whether the projections can be one dot-product kernel.
pub fn qkv_dot_fused(block: &Lfm2Block, env: &GraphEnv) -> (r: bool)
    requires
        layer_fits(block, env),
    ensures
        r == qkv_dot_ok(block, env),
{
    dot_fused_ok(env, env.hidden) && block.q80.wq && block.q80.wk && block.q80.wv && (
    block.num_heads * block.head_dim) % 4 == 0 && (block.num_kv_heads * block.head_dim) % 4 == 0
}

/// The norm of a layer's input.
pub open spec fn attn_norm_op(i: usize) -> GraphOp {
    GraphOp::RmsNorm {
        src: Slot::LayerInput(i),
        weight: WeightRef::AttnNorm,
        dst: Slot::Norm(i),
    }
}

/// The launches that make queries, keys and values.
pub open spec fn qkv_ops(block: &Lfm2Block, env: &GraphEnv, i: usize) -> Seq<GraphOp> {
    let n_q = (block.num_heads * block.head_dim) as usize;
    let n_kv = (block.num_kv_heads * block.head_dim) as usize;
    if uses_mxfp4(block) {
        seq![
            attn_norm_op(i),
            GraphOp::FusedMxfp4Qkv {
                layer: i,
                batch: at_least_one(env.batch),
                hidden: env.hidden,
                max_ctx: env.max_ctx,
            },
        ]
    } else if qkv_dot_ok(block, env) {
        seq![GraphOp::FusedNormQkv { layer: i, n_q, n_kv, hidden: env.hidden }]
    } else {
        seq![
            attn_norm_op(i),
            GraphOp::Linear {
                src: Slot::Norm(i),
                weight: WeightRef::Query,
                dst: Slot::Query(i),
                layer: i,
            },
            GraphOp::Linear {
                src: Slot::Norm(i),
                weight: WeightRef::Key,
                dst: Slot::Key(i),
                layer: i,
            },
            GraphOp::Linear {
                src: Slot::Norm(i),
                weight: WeightRef::Value,
                dst: Slot::Value(i),
                layer: i,
            },
        ]
    }
}

/// Queries and keys are normalised and rotated in one kernel.
pub open spec fn fuses_norm_rope(block: &Lfm2Block) -> bool {
    block.head_dim == 64 && block.attn_q_norm is Some && block.attn_k_norm is Some
}

/// The launches that normalise, rotate and append.
pub open spec fn rotate_append_ops(block: &Lfm2Block, env: &GraphEnv, i: usize) -> Seq<GraphOp> {
    let batch = at_least_one(env.batch);
    let head_dim = block.head_dim;
    let kv_stride = (block.num_kv_heads * block.head_dim) as usize;
    let slot_stride = (env.max_ctx * (block.num_kv_heads * block.head_dim)) as usize;
    if fuses_norm_rope(block) {
        seq![
            GraphOp::NormRope {
                slot: Slot::Query(i),
                weight: WeightRef::QueryNorm,
                batch,
                heads: block.num_heads,
                head_dim,
            },
            GraphOp::NormRopeAppend {
                layer: i,
                batch,
                heads: block.num_kv_heads,
                head_dim,
                kv_stride,
                slot_stride,
            },
        ]
    } else {
        let norms = if block.attn_q_norm is Some && block.attn_k_norm is Some {
            seq![
                GraphOp::HeadNorm {
                    slot: Slot::Query(i),
                    weight: WeightRef::QueryNorm,
                    rows: (batch * block.num_heads) as usize,
                    width: head_dim,
                },
                GraphOp::HeadNorm {
                    slot: Slot::Key(i),
                    weight: WeightRef::KeyNorm,
                    rows: (batch * block.num_kv_heads) as usize,
                    width: head_dim,
                },
            ]
        } else {
            Seq::empty()
        };
        norms + seq![
            GraphOp::Rope { slot: Slot::Query(i), batch, heads: block.num_heads, head_dim },
            GraphOp::Rope { slot: Slot::Key(i), batch, heads: block.num_kv_heads, head_dim },
            GraphOp::CheckAppend { layer: i, max_ctx: env.max_ctx },
            GraphOp::CheckAttend { layer: i, max_ctx: env.max_ctx },
            GraphOp::Append {
                src: Slot::Key(i),
                arena: Slot::KeyArena(i),
                kv_stride,
                batch,
                slot_stride,
            },
            GraphOp::Append {
                src: Slot::Value(i),
                arena: Slot::ValueArena(i),
                kv_stride,
                batch,
                slot_stride,
            },
        ]
    }
}

/// The launches from queries, keys and values to the attention output.
pub open spec fn attention_graph_ops(
    block: &Lfm2Block,
    env: &GraphEnv,
    i: usize,
    appended: bool,
) -> Seq<GraphOp> {
    let batch = at_least_one(env.batch);
    let rotate = if appended {
        Seq::empty()
    } else {
        rotate_append_ops(block, env, i)
    };
    seq![GraphOp::CheckTopology { layer: i }] + rotate + seq![
        GraphOp::Attend {
            layer: i,
            heads: block.num_heads,
            kv_heads: block.num_kv_heads,
            head_dim: block.head_dim,
            batch,
            slot_stride: (env.max_ctx * (block.num_kv_heads * block.head_dim)) as usize,
        },
        GraphOp::AdvancePosition { batch },
    ]
}

/// The position of a captured step moves once, behind everything that reads it.
pub proof fn law_position_moves_last(block: &Lfm2Block, env: &GraphEnv, i: usize, appended: bool)
    ensures
        ({
            let ops = attention_graph_ops(block, env, i, appended);
            &&& ops.last() == (GraphOp::AdvancePosition { batch: at_least_one(env.batch) })
            &&& forall|j: int| 0 <= j < ops.len() - 1 ==> !(#[trigger] ops[j] is AdvancePosition)
        }),
{
    let rotate = if appended {
        Seq::empty()
    } else {
        rotate_append_ops(block, env, i)
    };
    let ops = attention_graph_ops(block, env, i, appended);
    assert forall|j: int| 0 <= j < rotate.len() implies !(#[trigger] rotate[j] is AdvancePosition) by {}
    assert forall|j: int| 0 <= j < ops.len() - 1 implies !(#[trigger] ops[j] is AdvancePosition) by {
        if 1 <= j < 1 + rotate.len() {
            assert(ops[j] == rotate[j - 1]);
        }
    }
}

/// The launches that close a sublayer: its output projection, and the residual
/// sum unless the feed-forward part fuses it with its norm.
pub open spec fn close_ops(
    src: Slot,
    weight: WeightRef,
    i: usize,
    fuse_norm: bool,
) -> Seq<GraphOp> {
    let project = GraphOp::Linear { src, weight, dst: Slot::Norm(i), layer: i };
    if fuse_norm {
        seq![project]
    } else {
        seq![
            project,
            GraphOp::Add {
                a: Slot::LayerInput(i),
                b: Slot::Norm(i),
                dst: Slot::LayerOutput(i),
            },
        ]
    }
}

/// Closes a sublayer.
pub fn push_close(ops: &mut Vec<GraphOp>, src: Slot, weight: WeightRef, i: usize, fuse_norm: bool)
    ensures
        final(ops)@ == old(ops)@ + close_ops(src, weight, i, fuse_norm),
{
    ops.push(GraphOp::Linear { src, weight, dst: Slot::Norm(i), layer: i });
    if !fuse_norm {
        ops.push(
            GraphOp::Add { a: Slot::LayerInput(i), b: Slot::Norm(i), dst: Slot::LayerOutput(i) },
        );
    }
    assert(ops@ =~= old(ops)@ + close_ops(src, weight, i, fuse_norm));
}

/// The launches of a softmax attention layer.
pub open spec fn attn_graph_ops(
    block: &Lfm2Block,
    env: &GraphEnv,
    i: usize,
    fuse_norm: bool,
) -> Seq<GraphOp> {
    qkv_ops(block, env, i) + attention_graph_ops(block, env, i, uses_mxfp4(block)) + close_ops(
        Slot::AttentionOut(i),
        WeightRef::AttnOut,
        i,
        fuse_norm,
    )
}

/// The part that a softmax attention layer lacks.
pub open spec fn attn_graph_missing(block: &Lfm2Block) -> Option<(&'static str, &'static str)> {
    if block.wq is None {
        Some(("attn_forward_graph", "wq"))
    } else if block.wk is None {
        Some(("attn_forward_graph", "wk"))
    } else if block.wv is None {
        Some(("attn_forward_graph", "wv"))
    } else if block.wo is None {
        Some(("attn_forward_graph", "wo"))
    } else if uses_mxfp4(block) && block.gamma_q is None {
        Some(("mxfp4 fused qkv", "gamma_q"))
    } else if uses_mxfp4(block) && block.gamma_k is None {
        Some(("mxfp4 fused qkv", "gamma_k"))
    } else {
        None
    }
}

/// The launches that leave the activated rows of a dense feed-forward part.
pub open spec fn activate_ops(
    block: &Lfm2Block,
    env: &GraphEnv,
    i: usize,
    fuse_norm: bool,
) -> Seq<GraphOp> {
    let m = at_least_one(env.batch);
    let q80 = block.q80.gate && block.q80.up;
    if fuse_norm && env.fused_residual && dot_ok(env, env.hidden) && q80 {
        seq![
            GraphOp::FusedAddNormGateUp {
                layer: i,
                m,
                n: block.ffn_gate.outputs,
                hidden: env.hidden,
            },
        ]
    } else {
        let norm = if fuse_norm {
            GraphOp::FusedAddNorm { layer: i }
        } else {
            GraphOp::RmsNorm {
                src: Slot::LayerOutput(i),
                weight: WeightRef::FfnNorm,
                dst: Slot::Norm(i),
            }
        };
        let gate_up = if dot_ok(env, env.hidden) && q80 {
            seq![
                GraphOp::FusedGateUp {
                    layer: i,
                    n: block.ffn_gate.outputs,
                    hidden: env.hidden,
                },
            ]
        } else {
            match block.w_gate_up_q80_fused {
                Some(fused) if dot_ok(env, env.hidden) => seq![
                    GraphOp::Quantise {
                        src: Slot::Norm(i),
                        dst: Slot::Quantised(i),
                        m,
                        hidden: env.hidden,
                    },
                    GraphOp::GateUpBlob {
                        layer: i,
                        n_gate: fused.n_gate,
                        n_up: fused.n_up,
                        hidden: env.hidden,
                    },
                    GraphOp::CopySlice {
                        src: Slot::GateUp(i),
                        from: 0,
                        len: fused.n_gate,
                        dst: Slot::Gate(i),
                    },
                    GraphOp::CopySlice {
                        src: Slot::GateUp(i),
                        from: fused.n_gate,
                        len: fused.n_up,
                        dst: Slot::Up(i),
                    },
                    GraphOp::SiluMul { layer: i },
                ],
                _ => seq![
                    GraphOp::Linear {
                        src: Slot::Norm(i),
                        weight: WeightRef::Gate,
                        dst: Slot::Gate(i),
                        layer: i,
                    },
                    GraphOp::Linear {
                        src: Slot::Norm(i),
                        weight: WeightRef::Up,
                        dst: Slot::Up(i),
                        layer: i,
                    },
                    GraphOp::SiluMul { layer: i },
                ],
            }
        };
        seq![norm] + gate_up
    }
}

/// The launches that bring activated rows back to the residual stream.
pub open spec fn down_ops(
    block: &Lfm2Block,
    env: &GraphEnv,
    i: usize,
    dst: Slot,
) -> Seq<GraphOp> {
    if dot_ok(env, env.ffn_width) && block.q80.down {
        seq![
            GraphOp::DownAdd {
                layer: i,
                dst,
                m: at_least_one(env.batch),
                n: block.ffn_down.outputs,
                k: env.ffn_width,
            },
        ]
    } else {
        seq![
            GraphOp::Linear {
                src: Slot::Activated(i),
                weight: WeightRef::Down,
                dst: Slot::Norm(i),
                layer: i,
            },
            GraphOp::Add { a: Slot::LayerOutput(i), b: Slot::Norm(i), dst },
        ]
    }
}

/// The launches of a dense feed-forward part.
pub open spec fn ffn_graph_ops(
    block: &Lfm2Block,
    env: &GraphEnv,
    i: usize,
    dst: Slot,
    fuse_norm: bool,
) -> Seq<GraphOp> {
    seq![GraphOp::CheckTopology { layer: i }] + activate_ops(block, env, i, fuse_norm) + down_ops(
        block,
        env,
        i,
        dst,
    )
}

/// Experts that a token runs through: what the layer uses, no more than it
/// has, and at least one.
pub open spec fn routed_experts(block: &Lfm2Block) -> usize {
    at_least_one(
        if block.n_expert_used <= block.n_expert {
            block.n_expert_used
        } else {
            block.n_expert
        },
    )
}

/// The launches of an expert feed-forward part whose experts have `n_ff` hidden
/// columns.
pub open spec fn moe_graph_ops(
    block: &Lfm2Block,
    env: &GraphEnv,
    i: usize,
    dst: Slot,
    n_ff: usize,
) -> Seq<GraphOp> {
    let batch = at_least_one(env.batch);
    let top_k = routed_experts(block);
    seq![
        GraphOp::RmsNorm {
            src: Slot::LayerOutput(i),
            weight: WeightRef::FfnNorm,
            dst: Slot::Norm(i),
        },
        GraphOp::Linear {
            src: Slot::Norm(i),
            weight: WeightRef::Router,
            dst: Slot::RouterScores(i),
            layer: i,
        },
        GraphOp::Route { layer: i, batch, experts: block.n_expert, top_k },
        GraphOp::Dispatch {
            layer: i,
            slots: (batch * top_k) as usize,
            hidden: env.hidden,
            n_ff,
        },
        GraphOp::Add { a: Slot::LayerOutput(i), b: Slot::ExpertsOut(i), dst },
    ]
}

/// The part that a recurrent layer lacks.
pub open spec fn shortconv_graph_missing(block: &Lfm2Block) -> Option<&'static str> {
    if block.shortconv_in_proj is None {
        Some("in_proj")
    } else if block.shortconv_conv is None {
        Some("conv")
    } else if block.shortconv_out_proj is None {
        Some("out_proj")
    } else {
        None
    }
}

/// The launches of a recurrent layer.
pub open spec fn shortconv_graph_ops(block: &Lfm2Block, env: &GraphEnv, i: usize) -> Seq<GraphOp> {
    let m = at_least_one(env.batch);
    let project = if dot_ok(env, env.hidden) && block.q80.in_proj {
        seq![
            GraphOp::FusedNormShortConvIn {
                layer: i,
                m,
                n: block.shortconv_in_proj->0.outputs,
                hidden: env.hidden,
            },
        ]
    } else {
        seq![
            attn_norm_op(i),
            GraphOp::Linear {
                src: Slot::Norm(i),
                weight: WeightRef::ShortConvIn,
                dst: Slot::ShortConvIn(i),
                layer: i,
            },
        ]
    };
    project + seq![GraphOp::ShortConv { layer: i, batch: m, hidden: env.hidden, taps: 3 }]
        + close_ops(Slot::ShortConvOut(i), WeightRef::ShortConvOut, i, !block.is_moe)
}

/// Where a layer leaves its result: the next layer's input, or the head's.
pub open spec fn residual_slot(env: &GraphEnv, i: usize) -> Slot {
    if i + 1 < env.layers {
        Slot::LayerInput((i + 1) as usize)
    } else {
        Slot::HeadInput
    }
}

fn push_linear(ops: &mut Vec<GraphOp>, src: Slot, weight: WeightRef, dst: Slot, layer: usize)
    ensures
        final(ops)@ == old(ops)@.push(GraphOp::Linear { src, weight, dst, layer }),
{
    ops.push(GraphOp::Linear { src, weight, dst, layer });
}

fn push_attn_norm(ops: &mut Vec<GraphOp>, i: usize)
    ensures
        final(ops)@ == old(ops)@.push(attn_norm_op(i)),
{
    ops.push(
        GraphOp::RmsNorm {
            src: Slot::LayerInput(i),
            weight: WeightRef::AttnNorm,
            dst: Slot::Norm(i),
        },
    );
}

impl Lfm2Block {
    /// Tells an attention layer from a recurrent one.
    pub fn is_attention(&self) -> (r: bool)
        ensures
            r == (self.wq is Some),
    {
        self.wq.is_some()
    }

    fn attn_missing(&self) -> (r: Option<(&'static str, &'static str)>)
        ensures
            r == attn_graph_missing(self),
    {
        let mxfp4: bool = self.wqkv_codes.is_some() && self.wqkv_exps.is_some();
        if self.wq.is_none() {
            Some(("attn_forward_graph", "wq"))
        } else if self.wk.is_none() {
            Some(("attn_forward_graph", "wk"))
        } else if self.wv.is_none() {
            Some(("attn_forward_graph", "wv"))
        } else if self.wo.is_none() {
            Some(("attn_forward_graph", "wo"))
        } else if mxfp4 && self.gamma_q.is_none() {
            Some(("mxfp4 fused qkv", "gamma_q"))
        } else if mxfp4 && self.gamma_k.is_none() {
            Some(("mxfp4 fused qkv", "gamma_k"))
        } else {
            None
        }
    }

    fn push_rotate_append(&self, ops: &mut Vec<GraphOp>, i: usize, env: &GraphEnv)
        requires
            layer_fits(self, env),
        ensures
            final(ops)@ == old(ops)@ + rotate_append_ops(self, env, i),
    {
        let batch: usize = one_or_more(env.batch);
        let head_dim: usize = self.head_dim;
        let kv_stride: usize = self.num_kv_heads * self.head_dim;
        let slot_stride: usize = env.max_ctx * kv_stride;
        if head_dim == 64 && self.attn_q_norm.is_some() && self.attn_k_norm.is_some() {
            ops.push(
                GraphOp::NormRope {
                    slot: Slot::Query(i),
                    weight: WeightRef::QueryNorm,
                    batch,
                    heads: self.num_heads,
                    head_dim,
                },
            );
            ops.push(
                GraphOp::NormRopeAppend {
                    layer: i,
                    batch,
                    heads: self.num_kv_heads,
                    head_dim,
                    kv_stride,
                    slot_stride,
                },
            );
        } else {
            if self.attn_q_norm.is_some() && self.attn_k_norm.is_some() {
                ops.push(
                    GraphOp::HeadNorm {
                        slot: Slot::Query(i),
                        weight: WeightRef::QueryNorm,
                        rows: batch * self.num_heads,
                        width: head_dim,
                    },
                );
                ops.push(
                    GraphOp::HeadNorm {
                        slot: Slot::Key(i),
                        weight: WeightRef::KeyNorm,
                        rows: batch * self.num_kv_heads,
                        width: head_dim,
                    },
                );
            }
            ops.push(
                GraphOp::Rope { slot: Slot::Query(i), batch, heads: self.num_heads, head_dim },
            );
            ops.push(
                GraphOp::Rope { slot: Slot::Key(i), batch, heads: self.num_kv_heads, head_dim },
            );
            ops.push(GraphOp::CheckAppend { layer: i, max_ctx: env.max_ctx });
            ops.push(GraphOp::CheckAttend { layer: i, max_ctx: env.max_ctx });
            ops.push(
                GraphOp::Append {
                    src: Slot::Key(i),
                    arena: Slot::KeyArena(i),
                    kv_stride,
                    batch,
                    slot_stride,
                },
            );
            ops.push(
                GraphOp::Append {
                    src: Slot::Value(i),
                    arena: Slot::ValueArena(i),
                    kv_stride,
                    batch,
                    slot_stride,
                },
            );
        }
        assert(ops@ =~= old(ops)@ + rotate_append_ops(self, env, i));
    }

    /// The launches from queries, keys and values to the attention output.
    pub fn attention_forward_graph(
        &self,
        layer_idx: usize,
        env: &GraphEnv,
        skip_norm_rope_append: bool,
    ) -> (ops: Vec<GraphOp>)
        requires
            layer_fits(self, env),
        ensures
            ops@ == attention_graph_ops(self, env, layer_idx, skip_norm_rope_append),
    {
        let batch: usize = one_or_more(env.batch);
        let mut ops: Vec<GraphOp> = Vec::new();
        ops.push(GraphOp::CheckTopology { layer: layer_idx });
        if !skip_norm_rope_append {
            self.push_rotate_append(&mut ops, layer_idx, env);
        }
        ops.push(
            GraphOp::Attend {
                layer: layer_idx,
                heads: self.num_heads,
                kv_heads: self.num_kv_heads,
                head_dim: self.head_dim,
                batch,
                slot_stride: env.max_ctx * (self.num_kv_heads * self.head_dim),
            },
        );
        ops.push(GraphOp::AdvancePosition { batch });
        assert(ops@ =~= attention_graph_ops(self, env, layer_idx, skip_norm_rope_append));
        ops
    }

    /// The launches of a softmax attention layer, or the part that it lacks.
    pub fn attn_forward_graph(
        &self,
        layer_idx: usize,
        env: &GraphEnv,
        fuse_norm: bool,
    ) -> (result: Result<Vec<GraphOp>, Error>)
        requires
            layer_fits(self, env),
        ensures
            match attn_graph_missing(self) {
                Some((stage, part)) => result == Err::<Vec<GraphOp>, Error>(
                    Error::GraphPart { stage, part },
                ),
                None => result matches Ok(ops) && ops@ == attn_graph_ops(
                    self,
                    env,
                    layer_idx,
                    fuse_norm,
                ),
            },
    {
        if let Some((stage, part)) = self.attn_missing() {
            return Err(Error::GraphPart { stage, part });
        }
        let i: usize = layer_idx;
        let mxfp4: bool = self.wqkv_codes.is_some() && self.wqkv_exps.is_some();
        let mut ops: Vec<GraphOp> = Vec::new();
        if mxfp4 {
            push_attn_norm(&mut ops, i);
            ops.push(
                GraphOp::FusedMxfp4Qkv {
                    layer: i,
                    batch: one_or_more(env.batch),
                    hidden: env.hidden,
                    max_ctx: env.max_ctx,
                },
            );
        } else if qkv_dot_fused(self, env) {
            ops.push(
                GraphOp::FusedNormQkv {
                    layer: i,
                    n_q: self.num_heads * self.head_dim,
                    n_kv: self.num_kv_heads * self.head_dim,
                    hidden: env.hidden,
                },
            );
        } else {
            push_attn_norm(&mut ops, i);
            push_linear(&mut ops, Slot::Norm(i), WeightRef::Query, Slot::Query(i), i);
            push_linear(&mut ops, Slot::Norm(i), WeightRef::Key, Slot::Key(i), i);
            push_linear(&mut ops, Slot::Norm(i), WeightRef::Value, Slot::Value(i), i);
        }
        assert(ops@ =~= qkv_ops(self, env, i));
        let mut attention = self.attention_forward_graph(i, env, mxfp4);
        ops.append(&mut attention);
        push_close(&mut ops, Slot::AttentionOut(i), WeightRef::AttnOut, i, fuse_norm);
        assert(ops@ =~= attn_graph_ops(self, env, i, fuse_norm));
        Ok(ops)
    }

    fn push_activate(&self, ops: &mut Vec<GraphOp>, i: usize, env: &GraphEnv, fuse_norm: bool)
        ensures
            final(ops)@ == old(ops)@ + activate_ops(self, env, i, fuse_norm),
    {
        let m: usize = one_or_more(env.batch);
        let dot: bool = dot_fused_ok(env, env.hidden);
        let q80: bool = self.q80.gate && self.q80.up;
        if fuse_norm && env.fused_residual && dot && q80 {
            ops.push(
                GraphOp::FusedAddNormGateUp {
                    layer: i,
                    m,
                    n: self.ffn_gate.outputs,
                    hidden: env.hidden,
                },
            );
        } else {
            if fuse_norm {
                ops.push(GraphOp::FusedAddNorm { layer: i });
            } else {
                ops.push(
                    GraphOp::RmsNorm {
                        src: Slot::LayerOutput(i),
                        weight: WeightRef::FfnNorm,
                        dst: Slot::Norm(i),
                    },
                );
            }
            if dot && q80 {
                ops.push(
                    GraphOp::FusedGateUp { layer: i, n: self.ffn_gate.outputs, hidden: env.hidden },
                );
            } else if dot && self.w_gate_up_q80_fused.is_some() {
                let fused = self.w_gate_up_q80_fused.unwrap();
                ops.push(
                    GraphOp::Quantise {
                        src: Slot::Norm(i),
                        dst: Slot::Quantised(i),
                        m,
                        hidden: env.hidden,
                    },
                );
                ops.push(
                    GraphOp::GateUpBlob {
                        layer: i,
                        n_gate: fused.n_gate,
                        n_up: fused.n_up,
                        hidden: env.hidden,
                    },
                );
                ops.push(
                    GraphOp::CopySlice {
                        src: Slot::GateUp(i),
                        from: 0,
                        len: fused.n_gate,
                        dst: Slot::Gate(i),
                    },
                );
                ops.push(
                    GraphOp::CopySlice {
                        src: Slot::GateUp(i),
                        from: fused.n_gate,
                        len: fused.n_up,
                        dst: Slot::Up(i),
                    },
                );
                ops.push(GraphOp::SiluMul { layer: i });
            } else {
                push_linear(ops, Slot::Norm(i), WeightRef::Gate, Slot::Gate(i), i);
                push_linear(ops, Slot::Norm(i), WeightRef::Up, Slot::Up(i), i);
                ops.push(GraphOp::SiluMul { layer: i });
            }
        }
        assert(ops@ =~= old(ops)@ + activate_ops(self, env, i, fuse_norm));
    }

    /// The launches of a dense feed-forward part that leaves its result in
    /// `residual_dst`.
    pub fn ffn_forward_graph(
        &self,
        layer_idx: usize,
        env: &GraphEnv,
        residual_dst: Slot,
        fuse_norm: bool,
    ) -> (ops: Vec<GraphOp>)
        ensures
            ops@ == ffn_graph_ops(self, env, layer_idx, residual_dst, fuse_norm),
    {
        let i: usize = layer_idx;
        let mut ops: Vec<GraphOp> = Vec::new();
        ops.push(GraphOp::CheckTopology { layer: i });
        self.push_activate(&mut ops, i, env, fuse_norm);
        if dot_fused_ok(env, env.ffn_width) && self.q80.down {
            ops.push(
                GraphOp::DownAdd {
                    layer: i,
                    dst: residual_dst,
                    m: one_or_more(env.batch),
                    n: self.ffn_down.outputs,
                    k: env.ffn_width,
                },
            );
        } else {
            push_linear(&mut ops, Slot::Activated(i), WeightRef::Down, Slot::Norm(i), i);
            ops.push(
                GraphOp::Add { a: Slot::LayerOutput(i), b: Slot::Norm(i), dst: residual_dst },
            );
        }
        assert(ops@ =~= ffn_graph_ops(self, env, i, residual_dst, fuse_norm));
        ops
    }

    /// The launches of a recurrent layer, or the part that it lacks.
    pub fn shortconv_forward_graph(&self, layer_idx: usize, env: &GraphEnv) -> (result: Result<
        Vec<GraphOp>,
        Error,
    >)
        ensures
            match shortconv_graph_missing(self) {
                Some(part) => result == Err::<Vec<GraphOp>, Error>(
                    Error::GraphPart { stage: "shortconv_forward_graph", part },
                ),
                None => result matches Ok(ops) && ops@ == shortconv_graph_ops(
                    self,
                    env,
                    layer_idx,
                ),
            },
    {
        let i: usize = layer_idx;
        let in_proj = match self.shortconv_in_proj {
            Some(in_proj) => in_proj,
            None => {
                return Err(
                    Error::GraphPart { stage: "shortconv_forward_graph", part: "in_proj" },
                );
            },
        };
        if self.shortconv_conv.is_none() {
            return Err(Error::GraphPart { stage: "shortconv_forward_graph", part: "conv" });
        }
        if self.shortconv_out_proj.is_none() {
            return Err(Error::GraphPart { stage: "shortconv_forward_graph", part: "out_proj" });
        }
        let m: usize = one_or_more(env.batch);
        let mut ops: Vec<GraphOp> = Vec::new();
        if dot_fused_ok(env, env.hidden) && self.q80.in_proj {
            ops.push(
                GraphOp::FusedNormShortConvIn {
                    layer: i,
                    m,
                    n: in_proj.outputs,
                    hidden: env.hidden,
                },
            );
        } else {
            push_attn_norm(&mut ops, i);
            push_linear(&mut ops, Slot::Norm(i), WeightRef::ShortConvIn, Slot::ShortConvIn(i), i);
        }
        ops.push(GraphOp::ShortConv { layer: i, batch: m, hidden: env.hidden, taps: 3 });
        push_close(&mut ops, Slot::ShortConvOut(i), WeightRef::ShortConvOut, i, !self.is_moe);
        assert(ops@ =~= shortconv_graph_ops(self, env, i));
        Ok(ops)
    }

    /// The launches of an expert feed-forward part, or the part that it lacks.
    /// `expert_width` is the hidden width of the loaded experts.
    pub fn moe_forward_graph(
        &self,
        layer_idx: usize,
        env: &GraphEnv,
        residual_dst: Slot,
        expert_width: Option<usize>,
    ) -> (result: Result<Vec<GraphOp>, Error>)
        requires
            at_least_one(env.batch) * routed_experts(self) <= usize::MAX,
        ensures
            self.ffn_gate_inp is None ==> result == Err::<Vec<GraphOp>, Error>(
                Error::GraphPart { stage: "moe_forward_graph", part: "router gate" },
            ),
            self.ffn_gate_inp is Some && expert_width is None ==> result == Err::<
                Vec<GraphOp>,
                Error,
            >(Error::GraphExperts),
            self.ffn_gate_inp is Some && expert_width is Some ==> (result matches Ok(ops) && ops@
                == moe_graph_ops(self, env, layer_idx, residual_dst, expert_width->0)),
    {
        let i: usize = layer_idx;
        if self.ffn_gate_inp.is_none() {
            return Err(Error::GraphPart { stage: "moe_forward_graph", part: "router gate" });
        }
        let n_ff: usize = match expert_width {
            Some(n_ff) => n_ff,
            None => {
                return Err(Error::GraphExperts);
            },
        };
        let batch: usize = one_or_more(env.batch);
        let top_k: usize = one_or_more(
            if self.n_expert_used <= self.n_expert {
                self.n_expert_used
            } else {
                self.n_expert
            },
        );
        let mut ops: Vec<GraphOp> = Vec::new();
        ops.push(
            GraphOp::RmsNorm {
                src: Slot::LayerOutput(i),
                weight: WeightRef::FfnNorm,
                dst: Slot::Norm(i),
            },
        );
        push_linear(&mut ops, Slot::Norm(i), WeightRef::Router, Slot::RouterScores(i), i);
        ops.push(GraphOp::Route { layer: i, batch, experts: self.n_expert, top_k });
        ops.push(GraphOp::Dispatch { layer: i, slots: batch * top_k, hidden: env.hidden, n_ff });
        ops.push(
            GraphOp::Add { a: Slot::LayerOutput(i), b: Slot::ExpertsOut(i), dst: residual_dst },
        );
        assert(ops@ =~= moe_graph_ops(self, env, i, residual_dst, n_ff));
        Ok(ops)
    }
}

/// The launches of a layer's mixer, or why it cannot be captured.
pub open spec fn mixer_graph(
    block: &Lfm2Block,
    env: &GraphEnv,
    i: usize,
    gdl: Option<GdlBuffers>,
) -> Result<Seq<GraphOp>, Error> {
    let fuse_norm = !block.is_moe;
    if block.wq is None {
        if block.shortconv_in_proj is None {
            Err(Error::NoShortConv)
        } else {
            match shortconv_graph_missing(block) {
                Some(part) => Err(Error::GraphPart { stage: "shortconv_forward_graph", part }),
                None => Ok(shortconv_graph_ops(block, env, i)),
            }
        }
    } else if is_gdl(block) {
        match crate::gla_graph::gdl_refusal(block, gdl) {
            Some(e) => Err(e),
            None => Ok(gdl_ops(block, env, i, fuse_norm)),
        }
    } else {
        match attn_graph_missing(block) {
            Some((stage, part)) => Err(Error::GraphPart { stage, part }),
            None => Ok(attn_graph_ops(block, env, i, fuse_norm)),
        }
    }
}

/// The launches of a layer's feed-forward part, or why it cannot be captured.
pub open spec fn ffn_graph(
    block: &Lfm2Block,
    env: &GraphEnv,
    i: usize,
    expert_width: Option<usize>,
) -> Result<Seq<GraphOp>, Error> {
    let dst = residual_slot(env, i);
    if block.is_moe {
        if block.ffn_gate_inp is None {
            Err(Error::GraphPart { stage: "moe_forward_graph", part: "router gate" })
        } else {
            match expert_width {
                None => Err(Error::GraphExperts),
                Some(n_ff) => Ok(moe_graph_ops(block, env, i, dst, n_ff)),
            }
        }
    } else {
        Ok(ffn_graph_ops(block, env, i, dst, true))
    }
}

/// The launches of a layer, or why it cannot be captured.
pub open spec fn layer_graph(
    block: &Lfm2Block,
    env: &GraphEnv,
    i: usize,
    gdl: Option<GdlBuffers>,
    expert_width: Option<usize>,
) -> Result<Seq<GraphOp>, Error> {
    match mixer_graph(block, env, i, gdl) {
        Err(e) => Err(e),
        Ok(mixer) => match ffn_graph(block, env, i, expert_width) {
            Err(e) => Err(e),
            Ok(ffn) => Ok(seq![GraphOp::CheckTopology { layer: i }] + mixer + ffn),
        },
    }
}

/// A layer can be planned: its sizes fit, and its heads can be divided.
pub open spec fn layer_plannable(block: &Lfm2Block, env: &GraphEnv) -> bool {
    &&& layer_fits(block, env)
    &&& block.attention_mode == Lfm2AttentionMode::Gdl ==> block.num_kv_heads > 0
    &&& at_least_one(env.batch) * routed_experts(block) <= usize::MAX
}

/// An executed plan agrees with its specification.
pub open spec fn agrees(result: Result<Vec<GraphOp>, Error>, spec: Result<Seq<GraphOp>, Error>) -> bool {
    match spec {
        Err(e) => result == Err::<Vec<GraphOp>, Error>(e),
        Ok(ops) => result matches Ok(planned) && planned@ == ops,
    }
}

impl Lfm2Block {
    fn mixer_forward_graph(&self, i: usize, env: &GraphEnv, gdl: Option<GdlBuffers>) -> (result:
        Result<Vec<GraphOp>, Error>)
        requires
            layer_plannable(self, env),
        ensures
            agrees(result, mixer_graph(self, env, i, gdl)),
    {
        let fuse_norm: bool = !self.is_moe;
        if !self.is_attention() {
            if self.shortconv_in_proj.is_none() {
                return Err(Error::NoShortConv);
            }
            self.shortconv_forward_graph(i, env)
        } else if is_gdl_layer(self) {
            gdl_forward_graph(self, i, env, gdl, fuse_norm)
        } else {
            self.attn_forward_graph(i, env, fuse_norm)
        }
    }

    /// The launches of a layer, or why it cannot be captured.
    ///
    /// A dense layer fuses the residual sum of its mixer with the norm of its
    /// feed-forward part. The result goes straight to where the next layer
    /// reads it.
    pub fn forward_graph(
        &self,
        layer_idx: usize,
        env: &GraphEnv,
        gdl: Option<GdlBuffers>,
        expert_width: Option<usize>,
    ) -> (result: Result<Vec<GraphOp>, Error>)
        requires
            layer_plannable(self, env),
            layer_idx < env.layers,
        ensures
            agrees(result, layer_graph(self, env, layer_idx, gdl, expert_width)),
    {
        let i: usize = layer_idx;
        let mut mixer = match self.mixer_forward_graph(i, env, gdl) {
            Ok(ops) => ops,
            Err(e) => {
                return Err(e);
            },
        };
        let dst: Slot = if i + 1 < env.layers {
            Slot::LayerInput(i + 1)
        } else {
            Slot::HeadInput
        };
        let mut ffn = if self.is_moe {
            match self.moe_forward_graph(i, env, dst, expert_width) {
                Ok(ops) => ops,
                Err(e) => {
                    return Err(e);
                },
            }
        } else {
            self.ffn_forward_graph(i, env, dst, true)
        };
        let mut ops: Vec<GraphOp> = Vec::new();
        ops.push(GraphOp::CheckTopology { layer: i });
        ops.append(&mut mixer);
        ops.append(&mut ffn);
        Ok(ops)
    }
}

/// The launches of the head.
pub open spec fn head_ops(model: &Lfm2, env: &GraphEnv) -> Seq<GraphOp> {
    let hidden = model.cfg.hidden_size;
    if dot_ok(env, hidden) && model.output_q80 {
        seq![
            GraphOp::FusedNormHead {
                m: at_least_one((env.head_elements / at_least_one(hidden)) as usize),
                n: model.output.outputs,
                hidden,
            },
        ]
    } else {
        seq![
            GraphOp::RmsNorm {
                src: Slot::HeadInput,
                weight: WeightRef::OutputNorm,
                dst: Slot::HeadInput,
            },
            GraphOp::Linear {
                src: Slot::HeadInput,
                weight: WeightRef::Output,
                dst: Slot::HeadOutput,
                layer: 0,
            },
        ]
    }
}

/// The recurrent buffers of layer `i`, where there are any.
pub open spec fn gdl_of(gdl: Seq<Option<GdlBuffers>>, i: int) -> Option<GdlBuffers> {
    if i < gdl.len() {
        gdl[i]
    } else {
        None
    }
}

/// The launches of the first `n` layers, or why the first that cannot be
/// captured cannot.
pub open spec fn stack_graph(
    layers: Seq<Lfm2Block>,
    env: &GraphEnv,
    gdl: Seq<Option<GdlBuffers>>,
    widths: Seq<Option<usize>>,
    n: nat,
) -> Result<Seq<GraphOp>, Error>
    decreases n,
{
    if n == 0 {
        Ok(Seq::empty())
    } else {
        let i = (n - 1) as usize;
        match stack_graph(layers, env, gdl, widths, (n - 1) as nat) {
            Err(e) => Err(e),
            Ok(before) => match layer_graph(
                &layers[n - 1],
                env,
                i,
                gdl_of(gdl, n - 1),
                widths[n - 1],
            ) {
                Err(e) => Err(e),
                Ok(ops) => Ok(before + ops),
            },
        }
    }
}

/// Once a layer cannot be captured, no longer stack can.
proof fn lemma_stack_error_stays(
    layers: Seq<Lfm2Block>,
    env: &GraphEnv,
    gdl: Seq<Option<GdlBuffers>>,
    widths: Seq<Option<usize>>,
    n: nat,
    m: nat,
)
    requires
        n <= m,
        stack_graph(layers, env, gdl, widths, n) is Err,
    ensures
        stack_graph(layers, env, gdl, widths, m) == stack_graph(layers, env, gdl, widths, n),
    decreases m,
{
    if n < m {
        lemma_stack_error_stays(layers, env, gdl, widths, n, (m - 1) as nat);
    }
}

/// The launches of one replay: the lookup, every layer, the head.
pub open spec fn replay_graph(
    model: &Lfm2,
    env: &GraphEnv,
    gdl: Seq<Option<GdlBuffers>>,
    widths: Seq<Option<usize>>,
) -> Result<Seq<GraphOp>, Error> {
    match stack_graph(model.layers@, env, gdl, widths, model.layers@.len()) {
        Err(e) => Err(e),
        Ok(layers) => Ok(
            seq![
                GraphOp::EmbeddingGather {
                    hidden: model.cfg.hidden_size,
                    elements: (at_least_one(env.batch) * model.cfg.hidden_size) as usize,
                },
            ] + layers + head_ops(model, env),
        ),
    }
}

/// What a capture allocates.
pub struct GraphAllocation {
    pub dims: GraphDims,
    pub layers: usize,
    pub batch: usize,
    pub experts: usize,
    pub experts_used: usize,
    /// Width and taps of the convolution buffers; zero without convolutions.
    pub shortconv_width: usize,
    pub shortconv_taps: usize,
    /// The layers that get recurrent buffers, with their sizes.
    pub gdl: Vec<GdlLayer>,
}

/// The recurrent buffers of one layer.
#[derive(Debug, Clone, Copy, PartialEq, Eq, Structural)]
pub struct GdlLayer {
    pub layer: usize,
    pub batch: usize,
    pub heads: usize,
    pub kv_heads: usize,
    pub dk: usize,
    pub dv: usize,
}

/// Some layer has a convolution.
pub open spec fn has_shortconv(layers: Seq<Lfm2Block>) -> bool {
    exists|i: int| 0 <= i < layers.len() && (#[trigger] layers[i]).shortconv_in_proj is Some
}

/// The recurrent buffers of the first `n` layers.
pub open spec fn gdl_layers(layers: Seq<Lfm2Block>, batch: usize, n: nat) -> Seq<GdlLayer>
    decreases n,
{
    if n == 0 {
        Seq::empty()
    } else {
        let before = gdl_layers(layers, batch, (n - 1) as nat);
        let block = layers[n - 1];
        if is_gdl(&block) {
            before.push(
                GdlLayer {
                    layer: (n - 1) as usize,
                    batch: at_least_one(batch),
                    heads: block.num_heads,
                    kv_heads: block.num_kv_heads,
                    dk: block.head_dim,
                    dv: block.head_dim,
                },
            )
        } else {
            before
        }
    }
}

/// A captured decode step, as far as its bookkeeping goes.
#[derive(Debug, Clone, Copy)]
pub struct DecodeGraph {
    pub capturing: bool,
    pub is_captured: bool,
    pub batch: usize,
    pub current_pos: usize,
}

/// What a capture does before it records.
#[derive(Debug, Clone, Copy, PartialEq, Eq, Structural)]
pub struct CaptureStart {
    /// Token ids are written to the device first.
    pub write_tokens: bool,
}

/// What a replay does, in order: write the token ids, write the position,
/// launch.
#[derive(Debug, Clone, Copy, PartialEq, Eq, Structural)]
pub enum ReplayOp {
    WriteTokens,
    WritePosition(usize),
    Launch,
}

/// Where the history of one layer lies for seeding a capture.
#[derive(Debug, Clone, Copy, PartialEq, Eq, Structural)]
pub struct EagerKvSource {
    pub k_dev: u64,
    pub v_dev: u64,
    pub prefill_len: u32,
    pub kv_stride: usize,
    pub gdl_state: Option<u64>,
}

/// The address of a buffer that lives on a ROCm device and has one.
pub open spec fn address(buffer: crate::device::DeviceBuffer) -> Option<u64> {
    if buffer.rocm && buffer.ptr != Some(0u64) {
        buffer.ptr
    } else {
        None
    }
}

fn address_of(buffer: &crate::device::DeviceBuffer) -> (r: Option<u64>)
    ensures
        r == address(*buffer),
{
    match buffer.ptr {
        Some(p) => if buffer.rocm && p != 0 {
            Some(p)
        } else {
            None
        },
        None => None,
    }
}

/// What seeds a capture for one layer, where `valid_rows > 0` rows are there to
/// seed.
pub open spec fn seed_source<T>(
    layer: &Lfm2Block,
    cache: Option<Lfm2LayerCache<T>>,
    valid_rows: u32,
) -> Result<Option<EagerKvSource>, Error> {
    if layer.wq is None {
        Ok(None)
    } else if layer.attention_mode == Lfm2AttentionMode::Gdl {
        Ok(
            Some(
                EagerKvSource {
                    k_dev: 0,
                    v_dev: 0,
                    prefill_len: 0,
                    kv_stride: 0,
                    gdl_state: match cache {
                        Some(Lfm2LayerCache::Gdl { dev_state: Some(state) }) => address(state),
                        _ => None,
                    },
                },
            ),
        )
    } else {
        match cache {
            Some(Lfm2LayerCache::Attention(a)) => match (a.k_dev, a.v_dev) {
                (Some(k), Some(v)) => if !k.rocm || !v.rocm {
                    Err(Error::SeedSource { missing: "KV arenas not ROCm-resident" })
                } else if k.cols == 0 {
                    Err(Error::SeedSource { missing: "zero-width KV arena" })
                } else if address(k) is None || address(v) is None {
                    Err(Error::SeedSource { missing: "KV arenas have no device pointer" })
                } else {
                    Ok(
                        Some(
                            EagerKvSource {
                                k_dev: address(k)->0,
                                v_dev: address(v)->0,
                                prefill_len: valid_rows,
                                kv_stride: k.cols,
                                gdl_state: None,
                            },
                        ),
                    )
                },
                _ => Err(Error::SeedSource { missing: "dense layer missing device KV arenas" }),
            },
            _ => Err(Error::SeedSource { missing: "dense layer missing attention cache" }),
        }
    }
}

fn seed_layer<T>(layer: &Lfm2Block, cache: &Option<Lfm2LayerCache<T>>, valid_rows: u32) -> (result:
    Result<Option<EagerKvSource>, Error>)
    ensures
        result == seed_source(layer, *cache, valid_rows),
{
    if layer.wq.is_none() {
        return Ok(None);
    }
    if layer.attention_mode == Lfm2AttentionMode::Gdl {
        let gdl_state: Option<u64> = match cache {
            Some(Lfm2LayerCache::Gdl { dev_state }) => match dev_state {
                Some(state) => address_of(state),
                None => None,
            },
            _ => None,
        };
        return Ok(
            Some(EagerKvSource { k_dev: 0, v_dev: 0, prefill_len: 0, kv_stride: 0, gdl_state }),
        );
    }
    match cache {
        Some(Lfm2LayerCache::Attention(a)) => {
            match (a.k_dev, a.v_dev) {
                (Some(k), Some(v)) => {
                    if !k.rocm || !v.rocm {
                        return Err(Error::SeedSource { missing: "KV arenas not ROCm-resident" });
                    }
                    if k.cols == 0 {
                        return Err(Error::SeedSource { missing: "zero-width KV arena" });
                    }
                    match (address_of(&k), address_of(&v)) {
                        (Some(k_dev), Some(v_dev)) => Ok(
                            Some(
                                EagerKvSource {
                                    k_dev,
                                    v_dev,
                                    prefill_len: valid_rows,
                                    kv_stride: k.cols,
                                    gdl_state: None,
                                },
                            ),
                        ),
                        _ => Err(
                            Error::SeedSource { missing: "KV arenas have no device pointer" },
                        ),
                    }
                },
                _ => Err(Error::SeedSource { missing: "dense layer missing device KV arenas" }),
            }
        },
        _ => Err(Error::SeedSource { missing: "dense layer missing attention cache" }),
    }
}

impl Lfm2 {
    /// The launches of the head: norm and projection, in one kernel where the
    /// projection takes it.
    pub fn output_forward_graph(&self, env: &GraphEnv) -> (ops: Vec<GraphOp>)
        ensures
            ops@ == head_ops(self, env),
    {
        let hidden: usize = self.cfg.hidden_size;
        if dot_fused_ok(env, hidden) && self.output_q80 {
            vec![
                GraphOp::FusedNormHead {
                    m: one_or_more(env.head_elements / one_or_more(hidden)),
                    n: self.output.outputs,
                    hidden,
                },
            ]
        } else {
            vec![
                GraphOp::RmsNorm {
                    src: Slot::HeadInput,
                    weight: WeightRef::OutputNorm,
                    dst: Slot::HeadInput,
                },
                GraphOp::Linear {
                    src: Slot::HeadInput,
                    weight: WeightRef::Output,
                    dst: Slot::HeadOutput,
                    layer: 0,
                },
            ]
        }
    }

    /// The launches of one replay, or why the stack cannot be captured.
    pub fn embed_and_forward_graph(
        &self,
        env: &GraphEnv,
        gdl: &[Option<GdlBuffers>],
        expert_widths: &[Option<usize>],
    ) -> (result: Result<Vec<GraphOp>, Error>)
        requires
            self.layers@.len() <= env.layers,
            expert_widths@.len() == self.layers@.len(),
            at_least_one(env.batch) * self.cfg.hidden_size <= usize::MAX,
            forall|i: int|
                0 <= i < self.layers@.len() ==> layer_plannable(&#[trigger] self.layers@[i], env),
        ensures
            agrees(result, replay_graph(self, env, gdl@, expert_widths@)),
    {
        let hidden: usize = self.cfg.hidden_size;
        let n: usize = self.layers.len();
        let gather = GraphOp::EmbeddingGather { hidden, elements: one_or_more(env.batch) * hidden };
        let mut ops: Vec<GraphOp> = Vec::new();
        ops.push(gather);
        let mut i: usize = 0;
        while i < n
            invariant
                i <= n,
                n == self.layers@.len(),
                n <= env.layers,
                expert_widths@.len() == n,
                forall|i: int|
                    0 <= i < self.layers@.len() ==> layer_plannable(
                        &#[trigger] self.layers@[i],
                        env,
                    ),
                stack_graph(self.layers@, env, gdl@, expert_widths@, i as nat) matches Ok(before)
                    && ops@ == seq![gather] + before,
            decreases n - i,
        {
            let buffers: Option<GdlBuffers> = if i < gdl.len() {
                gdl[i]
            } else {
                None
            };
            let ghost before = stack_graph(self.layers@, env, gdl@, expert_widths@, i as nat)->Ok_0;
            match self.layers[i].forward_graph(i, env, buffers, expert_widths[i]) {
                Ok(mut layer) => {
                    ops.append(&mut layer);
                    proof {
                        let next = stack_graph(
                            self.layers@,
                            env,
                            gdl@,
                            expert_widths@,
                            (i + 1) as nat,
                        );
                        assert(next is Ok);
                        assert(ops@ =~= seq![gather] + next->Ok_0);
                    }
                },
                Err(e) => {
                    proof {
                        assert(stack_graph(
                            self.layers@,
                            env,
                            gdl@,
                            expert_widths@,
                            (i + 1) as nat,
                        ) == Err::<Seq<GraphOp>, Error>(e));
                        lemma_stack_error_stays(
                            self.layers@,
                            env,
                            gdl@,
                            expert_widths@,
                            (i + 1) as nat,
                            n as nat,
                        );
                    }
                    return Err(e);
                },
            }
            i = i + 1;
        }
        let mut head = self.output_forward_graph(env);
        ops.append(&mut head);
        Ok(ops)
    }

    /// What a capture of this model allocates, or why there is none.
    pub fn get_or_create_decode_graph(
        &self,
        max_ctx: usize,
        batch: usize,
        enabled: bool,
    ) -> (result: Result<GraphAllocation, Error>)
        requires
            enabled && self.device.rocm() ==> self.cfg.heads_fit(),
        ensures
            !enabled ==> result == Err::<GraphAllocation, Error>(Error::GraphDisabled),
            enabled && !self.device.rocm() ==> result == Err::<GraphAllocation, Error>(
                Error::GraphDevice,
            ),
            enabled && self.device.rocm() ==> {
                &&& result matches Ok(plan)
                &&& plan.dims == (GraphDims {
                    hidden: self.cfg.hidden_size,
                    n_q: (self.cfg.num_heads * self.cfg.head_dim) as usize,
                    n_k: (self.cfg.num_kv_heads * self.cfg.head_dim) as usize,
                    inter: self.cfg.intermediate_size,
                    vocab: at_least_one(self.cfg.vocab_size),
                    ctx: at_least_one(max_ctx),
                    heads: self.cfg.num_heads,
                })
                &&& plan.layers == self.layers@.len()
                &&& plan.batch == batch
                &&& plan.experts == self.cfg.n_expert
                &&& plan.experts_used == self.cfg.n_expert_used
                &&& plan.shortconv_width == (if has_shortconv(self.layers@) {
                    self.cfg.hidden_size
                } else {
                    0
                })
                &&& plan.shortconv_taps == (if has_shortconv(self.layers@) {
                    if self.cfg.n_shortconv_l_cache < 2 {
                        2
                    } else {
                        self.cfg.n_shortconv_l_cache
                    }
                } else {
                    0
                })
                &&& plan.gdl@ == gdl_layers(self.layers@, batch, self.layers@.len())
            },
    {
        if !enabled {
            return Err(Error::GraphDisabled);
        }
        if !self.device.is_rocm() {
            return Err(Error::GraphDevice);
        }
        let dims = graph_dims(self, max_ctx);
        let n: usize = self.layers.len();
        let mut gdl: Vec<GdlLayer> = Vec::new();
        let mut shortconv: bool = false;
        let mut i: usize = 0;
        while i < n
            invariant
                i <= n,
                n == self.layers@.len(),
                gdl@ == gdl_layers(self.layers@, batch, i as nat),
                shortconv == exists|j: int|
                    0 <= j < i && (#[trigger] self.layers@[j]).shortconv_in_proj is Some,
            decreases n - i,
        {
            let block = &self.layers[i];
            if is_gdl_layer(block) {
                gdl.push(
                    GdlLayer {
                        layer: i,
                        batch: one_or_more(batch),
                        heads: block.num_heads,
                        kv_heads: block.num_kv_heads,
                        dk: block.head_dim,
                        dv: block.head_dim,
                    },
                );
            }
            if block.shortconv_in_proj.is_some() {
                shortconv = true;
                assert(self.layers@[i as int].shortconv_in_proj is Some);
            }
            i = i + 1;
        }
        let taps: usize = if self.cfg.n_shortconv_l_cache < 2 {
            2
        } else {
            self.cfg.n_shortconv_l_cache
        };
        Ok(
            GraphAllocation {
                dims,
                layers: n,
                batch,
                experts: self.cfg.n_expert,
                experts_used: self.cfg.n_expert_used,
                shortconv_width: if shortconv {
                    self.cfg.hidden_size
                } else {
                    0
                },
                shortconv_taps: if shortconv {
                    taps
                } else {
                    0
                },
                gdl,
            },
        )
    }

    /// Where each layer's history lies, for seeding a capture with `valid_rows`
    /// rows.
    ///
    /// With rows to seed, a dense attention layer whose history is not on a
    /// ROCm device fails the request, so that no capture starts without its
    /// prompt. Without rows there is nothing to seed for any layer.
    pub fn eager_kv_seed_sources<T>(
        &self,
        caches: &[Option<Lfm2LayerCache<T>>],
        valid_rows: u32,
    ) -> (result: Result<Vec<Option<EagerKvSource>>, Error>)
        ensures
            caches@.len() != self.layers@.len() ==> result == Err::<
                Vec<Option<EagerKvSource>>,
                Error,
            >(
                Error::SeedCaches {
                    caches: caches@.len() as usize,
                    layers: self.layers@.len() as usize,
                },
            ),
            caches@.len() == self.layers@.len() && valid_rows == 0 ==> (result matches Ok(sources)
                && sources@ == Seq::new(self.layers@.len(), |i: int| None::<EagerKvSource>)),
            caches@.len() == self.layers@.len() && valid_rows > 0 ==> {
                &&& result matches Ok(sources) ==> sources@.len() == self.layers@.len() && forall|
                    i: int,
                |
                    0 <= i < sources@.len() ==> seed_source(
                        &self.layers@[i],
                        caches@[i],
                        valid_rows,
                    ) == Ok::<Option<EagerKvSource>, Error>(#[trigger] sources@[i])
                &&& result matches Err(e) ==> exists|i: int|
                    0 <= i < self.layers@.len() && #[trigger] seed_source(
                        &self.layers@[i],
                        caches@[i],
                        valid_rows,
                    ) == Err::<Option<EagerKvSource>, Error>(e) && forall|j: int|
                        0 <= j < i ==> #[trigger] seed_source(
                            &self.layers@[j],
                            caches@[j],
                            valid_rows,
                        ) is Ok
            },
    {
        let n: usize = self.layers.len();
        if caches.len() != n {
            return Err(Error::SeedCaches { caches: caches.len(), layers: n });
        }
        let mut sources: Vec<Option<EagerKvSource>> = Vec::new();
        let mut i: usize = 0;
        while i < n
            invariant
                i <= n,
                n == self.layers@.len(),
                n == caches@.len(),
                sources@.len() == i,
                valid_rows == 0 ==> sources@ == Seq::new(i as nat, |j: int| None::<EagerKvSource>),
                valid_rows > 0 ==> forall|j: int|
                    0 <= j < i ==> seed_source(&self.layers@[j], caches@[j], valid_rows) == Ok::<
                        Option<EagerKvSource>,
                        Error,
                    >(#[trigger] sources@[j]),
            decreases n - i,
        {
            if valid_rows == 0 {
                sources.push(None);
            } else {
                match seed_layer(&self.layers[i], &caches[i], valid_rows) {
                    Ok(source) => {
                        sources.push(source);
                    },
                    Err(e) => {
                        proof {
                            assert forall|j: int| 0 <= j < i implies #[trigger] seed_source(
                                &self.layers@[j],
                                caches@[j],
                                valid_rows,
                            ) is Ok by {
                                let source = sources@[j];
                            }
                        }
                        return Err(e);
                    },
                }
            }
            i = i + 1;
        }
        Ok(sources)
    }

    /// What a capture does before it records, or why there is none. Token ids
    /// are written only while nothing is recorded: a recorded write would bake
    /// a host address in.
    pub fn forward_capture(&self, graph: &DecodeGraph, enabled: bool) -> (result: Result<
        CaptureStart,
        Error,
    >)
        ensures
            result == (if !enabled {
                Err::<CaptureStart, Error>(Error::CaptureDisabled)
            } else if !self.device.rocm() {
                Err(Error::GraphDevice)
            } else {
                Ok(CaptureStart { write_tokens: !graph.capturing })
            }),
    {
        if !enabled {
            return Err(Error::CaptureDisabled);
        }
        if !self.device.is_rocm() {
            return Err(Error::GraphDevice);
        }
        Ok(CaptureStart { write_tokens: !graph.capturing })
    }

    /// The same for a capture of a whole batch.
    pub fn forward_capture_batch(&self, graph: &DecodeGraph, enabled: bool) -> (result: Result<
        CaptureStart,
        Error,
    >)
        ensures
            result == (if !enabled {
                Err::<CaptureStart, Error>(Error::CaptureDisabled)
            } else if !self.device.rocm() {
                Err(Error::GraphDevice)
            } else {
                Ok(CaptureStart { write_tokens: !graph.capturing })
            }),
    {
        self.forward_capture(graph, enabled)
    }

    /// What a replay of one token does, or why there is none.
    pub fn forward_replay(&self, graph: &DecodeGraph) -> (result: Result<Vec<ReplayOp>, Error>)
        ensures
            !graph.is_captured ==> result == Err::<Vec<ReplayOp>, Error>(
                Error::ReplayBeforeCapture { batched: false },
            ),
            graph.is_captured && !self.device.rocm() ==> result == Err::<Vec<ReplayOp>, Error>(
                Error::GraphDevice,
            ),
            graph.is_captured && self.device.rocm() ==> (result matches Ok(ops) && ops@ == seq![
                ReplayOp::WriteTokens,
                ReplayOp::WritePosition(graph.current_pos),
                ReplayOp::Launch,
            ]),
    {
        if !graph.is_captured {
            return Err(Error::ReplayBeforeCapture { batched: false });
        }
        if !self.device.is_rocm() {
            return Err(Error::GraphDevice);
        }
        Ok(
            vec![
                ReplayOp::WriteTokens,
                ReplayOp::WritePosition(graph.current_pos),
                ReplayOp::Launch,
            ],
        )
    }

    /// What a replay of `tokens` tokens does, or why there is none.
    pub fn forward_replay_batch(&self, graph: &DecodeGraph, tokens: usize) -> (result: Result<
        Vec<ReplayOp>,
        Error,
    >)
        ensures
            !graph.is_captured ==> result == Err::<Vec<ReplayOp>, Error>(
                Error::ReplayBeforeCapture { batched: true },
            ),
            graph.is_captured && tokens != graph.batch ==> result == Err::<Vec<ReplayOp>, Error>(
                Error::ReplayBatch { tokens, batch: graph.batch },
            ),
            graph.is_captured && tokens == graph.batch && !self.device.rocm() ==> result == Err::<
                Vec<ReplayOp>,
                Error,
            >(Error::GraphDevice),
            graph.is_captured && tokens == graph.batch && self.device.rocm() ==> (result matches Ok(
                ops,
            ) && ops@ == seq![
                ReplayOp::WriteTokens,
                ReplayOp::WritePosition(graph.current_pos),
                ReplayOp::Launch,
            ]),
    {
        if !graph.is_captured {
            return Err(Error::ReplayBeforeCapture { batched: true });
        }
        if tokens != graph.batch {
            return Err(Error::ReplayBatch { tokens, batch: graph.batch });
        }
        if !self.device.is_rocm() {
            return Err(Error::GraphDevice);
        }
        Ok(
            vec![
                ReplayOp::WriteTokens,
                ReplayOp::WritePosition(graph.current_pos),
                ReplayOp::Launch,
            ],
        )
    }
}

/// Refuses a buffer without a device address.
pub fn require_device_ptr(ptr: Option<u64>, name: &'static str) -> (result: Result<(), Error>)
    ensures
        ptr is Some ==> result is Ok,
        ptr is None ==> result == Err::<(), Error>(Error::NoDevicePointer { name }),
{
    match ptr {
        Some(_) => Ok(()),
        None => Err(Error::NoDevicePointer { name }),
    }
}

/// A norm from a buffer with a device address.
pub fn rms_norm_graph(input: Option<u64>, src: Slot, weight: WeightRef, dst: Slot) -> (result:
    Result<GraphOp, Error>)
    ensures
        result == (match input {
            Some(_) => Ok::<GraphOp, Error>(GraphOp::RmsNorm { src, weight, dst }),
            None => Err(Error::NoDevicePointer { name: "rms_norm_graph input" }),
        }),
{
    match require_device_ptr(input, "rms_norm_graph input") {
        Ok(_) => Ok(GraphOp::RmsNorm { src, weight, dst }),
        Err(e) => Err(e),
    }
}

/// A sum whose first operand has a device address.
pub fn add_graph(first: Option<u64>, a: Slot, b: Slot, dst: Slot) -> (result: Result<
    GraphOp,
    Error,
>)
    ensures
        result == (match first {
            Some(_) => Ok::<GraphOp, Error>(GraphOp::Add { a, b, dst }),
            None => Err(Error::NoDevicePointer { name: "add_graph a" }),
        }),
{
    match require_device_ptr(first, "add_graph a") {
        Ok(_) => Ok(GraphOp::Add { a, b, dst }),
        Err(e) => Err(e),
    }
}

/// No capture starts without its prompt: where seeding with rows succeeds, every
/// dense softmax layer is seeded from two device addresses with all its rows.
pub proof fn law_seeding_fails_closed<T>(
    layer: &Lfm2Block,
    cache: Option<Lfm2LayerCache<T>>,
    valid_rows: u32,
)
    requires
        layer.wq is Some,
        layer.attention_mode != Lfm2AttentionMode::Gdl,
        seed_source(layer, cache, valid_rows) is Ok,
    ensures
        ({
            let source = seed_source(layer, cache, valid_rows)->Ok_0;
            &&& source is Some
            &&& source->0.k_dev != 0
            &&& source->0.v_dev != 0
            &&& source->0.kv_stride > 0
            &&& source->0.prefill_len == valid_rows
        }),
{
}

} // verus!
