//! What the launches of a capture read and write.

use crate::gla_graph::{gdl_ops, gdl_qkv_ops, is_gdl, GdlBuffers};
use crate::lfm2::Lfm2Block;
use crate::lfm2_graph::{
    activate_ops, attention_graph_ops, attn_graph_ops, attn_norm_op, close_ops, down_ops, ffn_graph,
    ffn_graph_ops, fuses_norm_rope, layer_graph, mixer_graph, moe_graph_ops, qkv_ops, residual_slot,
    rotate_append_ops, shortconv_graph_ops, uses_mxfp4, GraphEnv, GraphOp, Slot, WeightRef,
};
use vstd::prelude::*;

verus! {

/// The buffers that a launch reads.
pub open spec fn reads(op: GraphOp) -> Set<Slot> {
    match op {
        GraphOp::EmbeddingGather { .. } => set![Slot::TokenIds],
        GraphOp::RmsNorm { src, .. } => set![src],
        GraphOp::HeadNorm { slot, .. } => set![slot],
        GraphOp::Linear { src, .. } => set![src],
        GraphOp::FusedMxfp4Qkv { layer, .. } => set![Slot::Norm(layer), Slot::Position],
        GraphOp::FusedNormQkv { layer, .. } => set![Slot::LayerInput(layer)],
        GraphOp::FusedQkv { layer, .. } => set![Slot::Norm(layer)],
        GraphOp::NormRope { slot, .. } => set![slot, Slot::Position],
        GraphOp::NormRopeAppend { layer, .. } => set![
            Slot::Key(layer),
            Slot::Value(layer),
            Slot::Position,
        ],
        GraphOp::Rope { slot, .. } => set![slot, Slot::Position],
        GraphOp::Append { src, .. } => set![src, Slot::Position],
        GraphOp::Attend { layer, .. } => set![
            Slot::Query(layer),
            Slot::KeyArena(layer),
            Slot::ValueArena(layer),
            Slot::Position,
        ],
        GraphOp::AdvancePosition { .. } => set![Slot::Position],
        GraphOp::Add { a, b, .. } => set![a, b],
        GraphOp::FusedAddNormGateUp { layer, .. } => set![
            Slot::LayerInput(layer),
            Slot::Norm(layer),
        ],
        GraphOp::FusedAddNorm { layer } => set![Slot::LayerInput(layer), Slot::Norm(layer)],
        GraphOp::FusedGateUp { layer, .. } => set![Slot::Norm(layer)],
        GraphOp::Quantise { src, .. } => set![src],
        GraphOp::GateUpBlob { layer, .. } => set![Slot::Quantised(layer)],
        GraphOp::CopySlice { src, .. } => set![src],
        GraphOp::SiluMul { layer } => set![Slot::Gate(layer), Slot::Up(layer)],
        GraphOp::DownAdd { layer, .. } => set![Slot::Activated(layer), Slot::LayerOutput(layer)],
        GraphOp::FusedNormShortConvIn { layer, .. } => set![Slot::LayerInput(layer)],
        GraphOp::ShortConv { layer, .. } => set![
            Slot::ShortConvIn(layer),
            Slot::ShortConvState(layer),
        ],
        GraphOp::Route { layer, .. } => set![Slot::RouterScores(layer)],
        GraphOp::Dispatch { layer, .. } => set![Slot::Norm(layer), Slot::Routing(layer)],
        GraphOp::HeadRepeat { layer, .. } => set![Slot::Key(layer), Slot::Value(layer)],
        GraphOp::GdlStep { layer, repeated, .. } => if repeated {
            set![
                Slot::Query(layer),
                Slot::KeyRepeated(layer),
                Slot::ValueRepeated(layer),
                Slot::GdlState(layer),
            ]
        } else {
            set![
                Slot::Query(layer),
                Slot::Key(layer),
                Slot::Value(layer),
                Slot::GdlState(layer),
            ]
        },
        GraphOp::FusedNormHead { .. } => set![Slot::HeadInput],
        _ => Set::empty(),
    }
}

/// The buffers that a launch writes.
pub open spec fn writes(op: GraphOp) -> Set<Slot> {
    match op {
        GraphOp::EmbeddingGather { .. } => set![Slot::LayerInput(0)],
        GraphOp::RmsNorm { dst, .. } => set![dst],
        GraphOp::HeadNorm { slot, .. } => set![slot],
        GraphOp::Linear { dst, .. } => set![dst],
        GraphOp::FusedMxfp4Qkv { layer, .. } => set![
            Slot::Query(layer),
            Slot::KeyArena(layer),
            Slot::ValueArena(layer),
        ],
        GraphOp::FusedNormQkv { layer, .. } => set![
            Slot::Query(layer),
            Slot::Key(layer),
            Slot::Value(layer),
        ],
        GraphOp::FusedQkv { layer, .. } => set![
            Slot::Query(layer),
            Slot::Key(layer),
            Slot::Value(layer),
        ],
        GraphOp::NormRope { slot, .. } => set![slot],
        GraphOp::NormRopeAppend { layer, .. } => set![
            Slot::Key(layer),
            Slot::KeyArena(layer),
            Slot::ValueArena(layer),
        ],
        GraphOp::Rope { slot, .. } => set![slot],
        GraphOp::Append { arena, .. } => set![arena],
        GraphOp::Attend { layer, .. } => set![Slot::AttentionOut(layer)],
        GraphOp::AdvancePosition { .. } => set![Slot::Position],
        GraphOp::Add { dst, .. } => set![dst],
        GraphOp::FusedAddNormGateUp { layer, .. } => set![
            Slot::LayerOutput(layer),
            Slot::Activated(layer),
        ],
        GraphOp::FusedAddNorm { layer } => set![Slot::LayerOutput(layer), Slot::Norm(layer)],
        GraphOp::FusedGateUp { layer, .. } => set![Slot::Activated(layer)],
        GraphOp::Quantise { dst, .. } => set![dst],
        GraphOp::GateUpBlob { layer, .. } => set![Slot::GateUp(layer)],
        GraphOp::CopySlice { dst, .. } => set![dst],
        GraphOp::SiluMul { layer } => set![Slot::Activated(layer)],
        GraphOp::DownAdd { dst, .. } => set![dst],
        GraphOp::FusedNormShortConvIn { layer, .. } => set![Slot::ShortConvIn(layer)],
        GraphOp::ShortConv { layer, .. } => set![
            Slot::ShortConvState(layer),
            Slot::ShortConvOut(layer),
        ],
        GraphOp::Route { layer, .. } => set![Slot::Routing(layer)],
        GraphOp::Dispatch { layer, .. } => set![Slot::ExpertsOut(layer)],
        GraphOp::HeadRepeat { layer, .. } => set![
            Slot::KeyRepeated(layer),
            Slot::ValueRepeated(layer),
        ],
        GraphOp::GdlStep { layer, .. } => set![Slot::GdlState(layer), Slot::AttentionOut(layer)],
        GraphOp::FusedNormHead { .. } => set![Slot::HeadOutput],
        _ => Set::empty(),
    }
}

/// Every buffer that some launch writes.
pub open spec fn written(ops: Seq<GraphOp>) -> Set<Slot>
    decreases ops.len(),
{
    if ops.len() == 0 {
        Set::empty()
    } else {
        written(ops.drop_last()).union(writes(ops.last()))
    }
}

/// Every launch reads only what was there before the first or was written by a
/// launch before it.
pub open spec fn fed(ops: Seq<GraphOp>, start: Set<Slot>) -> bool
    decreases ops.len(),
{
    if ops.len() == 0 {
        true
    } else {
        fed(ops.drop_last(), start) && reads(ops.last()).subset_of(
            start.union(written(ops.drop_last())),
        )
    }
}

/// One more launch.
proof fn step(ops: Seq<GraphOp>, op: GraphOp, start: Set<Slot>)
    requires
        fed(ops, start),
        reads(op).subset_of(start.union(written(ops))),
    ensures
        fed(ops.push(op), start),
        written(ops.push(op)) == written(ops).union(writes(op)),
{
    assert(ops.push(op).drop_last() =~= ops);
}

/// Two stretches of launches in a row.
proof fn concat(a: Seq<GraphOp>, b: Seq<GraphOp>, start: Set<Slot>)
    requires
        fed(a, start),
        fed(b, start.union(written(a))),
    ensures
        fed(a + b, start),
        written(a + b) == written(a).union(written(b)),
    decreases b.len(),
{
    if b.len() == 0 {
        assert(a + b =~= a);
        assert(written(a).union(written(b)) =~= written(a));
    } else {
        concat(a, b.drop_last(), start);
        assert((a + b).drop_last() =~= a + b.drop_last());
        assert((a + b).last() == b.last());
        assert(start.union(written(a)).union(written(b.drop_last())) =~= start.union(
            written(a + b.drop_last()),
        ));
        assert(written(a + b) =~= written(a).union(written(b)));
    }
}

/// More to start from does no harm.
proof fn widen(ops: Seq<GraphOp>, small: Set<Slot>, big: Set<Slot>)
    requires
        fed(ops, small),
        small.subset_of(big),
    ensures
        fed(ops, big),
    decreases ops.len(),
{
    if ops.len() > 0 {
        widen(ops.drop_last(), small, big);
    }
}

/// What a layer may count on: its input, and what it keeps between replays.
pub open spec fn kept(i: usize) -> Set<Slot> {
    set![
        Slot::LayerInput(i),
        Slot::KeyArena(i),
        Slot::ValueArena(i),
        Slot::ShortConvState(i),
        Slot::GdlState(i),
        Slot::Position,
    ]
}

proof fn flow_close(src: Slot, weight: WeightRef, i: usize, fuse_norm: bool, start: Set<Slot>)
    requires
        start.contains(src),
        start.contains(Slot::LayerInput(i)),
    ensures
        fed(close_ops(src, weight, i, fuse_norm), start),
        written(close_ops(src, weight, i, fuse_norm)).contains(Slot::Norm(i)),
        !fuse_norm ==> written(close_ops(src, weight, i, fuse_norm)).contains(
            Slot::LayerOutput(i),
        ),
{
    let none = Seq::<GraphOp>::empty();
    let project = GraphOp::Linear { src, weight, dst: Slot::Norm(i), layer: i };
    let ops = close_ops(src, weight, i, fuse_norm);
    step(none, project, start);
    if fuse_norm {
        assert(ops =~= none.push(project));
    } else {
        step(none.push(project), ops[1], start);
        assert(ops =~= none.push(project).push(ops[1]));
    }
}

proof fn flow_three_linears(ops: Seq<GraphOp>, i: usize, start: Set<Slot>)
    requires
        fed(ops, start),
        start.union(written(ops)).contains(Slot::Norm(i)),
    ensures
        ({
            let q = GraphOp::Linear {
                src: Slot::Norm(i),
                weight: WeightRef::Query,
                dst: Slot::Query(i),
                layer: i,
            };
            let k = GraphOp::Linear {
                src: Slot::Norm(i),
                weight: WeightRef::Key,
                dst: Slot::Key(i),
                layer: i,
            };
            let v = GraphOp::Linear {
                src: Slot::Norm(i),
                weight: WeightRef::Value,
                dst: Slot::Value(i),
                layer: i,
            };
            let all = ops.push(q).push(k).push(v);
            &&& fed(all, start)
            &&& written(all).contains(Slot::Query(i))
            &&& written(all).contains(Slot::Key(i))
            &&& written(all).contains(Slot::Value(i))
        }),
{
    let q = GraphOp::Linear {
        src: Slot::Norm(i),
        weight: WeightRef::Query,
        dst: Slot::Query(i),
        layer: i,
    };
    let k = GraphOp::Linear {
        src: Slot::Norm(i),
        weight: WeightRef::Key,
        dst: Slot::Key(i),
        layer: i,
    };
    let v = GraphOp::Linear {
        src: Slot::Norm(i),
        weight: WeightRef::Value,
        dst: Slot::Value(i),
        layer: i,
    };
    step(ops, q, start);
    step(ops.push(q), k, start);
    step(ops.push(q).push(k), v, start);
}

proof fn flow_qkv(block: &Lfm2Block, env: &GraphEnv, i: usize)
    ensures
        fed(qkv_ops(block, env, i), kept(i)),
        written(qkv_ops(block, env, i)).contains(Slot::Query(i)),
        !uses_mxfp4(block) ==> written(qkv_ops(block, env, i)).contains(Slot::Key(i)) && written(
            qkv_ops(block, env, i),
        ).contains(Slot::Value(i)),
{
    let none = Seq::<GraphOp>::empty();
    let start = kept(i);
    let ops = qkv_ops(block, env, i);
    if uses_mxfp4(block) {
        step(none, attn_norm_op(i), start);
        step(none.push(attn_norm_op(i)), ops[1], start);
        assert(ops =~= none.push(attn_norm_op(i)).push(ops[1]));
    } else if crate::lfm2_graph::qkv_dot_ok(block, env) {
        step(none, ops[0], start);
        assert(ops =~= none.push(ops[0]));
    } else {
        step(none, attn_norm_op(i), start);
        flow_three_linears(none.push(attn_norm_op(i)), i, start);
        assert(ops =~= none.push(attn_norm_op(i)).push(ops[1]).push(ops[2]).push(ops[3]));
    }
}

proof fn flow_rotate_append(block: &Lfm2Block, env: &GraphEnv, i: usize, start: Set<Slot>)
    requires
        start.contains(Slot::Query(i)),
        start.contains(Slot::Key(i)),
        start.contains(Slot::Value(i)),
        start.contains(Slot::Position),
    ensures
        fed(rotate_append_ops(block, env, i), start),
{
    let none = Seq::<GraphOp>::empty();
    let ops = rotate_append_ops(block, env, i);
    if fuses_norm_rope(block) {
        step(none, ops[0], start);
        step(none.push(ops[0]), ops[1], start);
        assert(ops =~= none.push(ops[0]).push(ops[1]));
    } else if block.attn_q_norm is Some && block.attn_k_norm is Some {
        flow_prefix(ops, start, 8);
    } else {
        flow_prefix(ops, start, 6);
    }
}

/// Launches that each read only what is there from the start.
proof fn flow_prefix(ops: Seq<GraphOp>, start: Set<Slot>, n: nat)
    requires
        n <= ops.len(),
        forall|k: int| 0 <= k < n ==> reads(#[trigger] ops[k]).subset_of(start),
    ensures
        fed(ops.take(n as int), start),
        n == ops.len() ==> fed(ops, start),
    decreases n,
{
    if n > 0 {
        flow_prefix(ops, start, (n - 1) as nat);
        assert(ops.take(n as int).drop_last() =~= ops.take(n - 1));
        assert(ops.take(n as int).last() == ops[n - 1]);
    }
    if n == ops.len() {
        assert(ops.take(n as int) =~= ops);
    }
}

proof fn flow_attention(
    block: &Lfm2Block,
    env: &GraphEnv,
    i: usize,
    appended: bool,
    start: Set<Slot>,
)
    requires
        start.contains(Slot::Query(i)),
        start.contains(Slot::KeyArena(i)),
        start.contains(Slot::ValueArena(i)),
        start.contains(Slot::Position),
        !appended ==> start.contains(Slot::Key(i)) && start.contains(Slot::Value(i)),
    ensures
        fed(attention_graph_ops(block, env, i, appended), start),
        written(attention_graph_ops(block, env, i, appended)).contains(Slot::AttentionOut(i)),
{
    let none = Seq::<GraphOp>::empty();
    let check = GraphOp::CheckTopology { layer: i };
    let ops = attention_graph_ops(block, env, i, appended);
    let n = ops.len() as int;
    step(none, check, start);
    let head = none.push(check);
    let rotate = if appended {
        Seq::empty()
    } else {
        rotate_append_ops(block, env, i)
    };
    if !appended {
        flow_rotate_append(block, env, i, start);
        widen(rotate, start, start.union(written(head)));
    }
    concat(head, rotate, start);
    let before = head + rotate;
    step(before, ops[n - 2], start);
    step(before.push(ops[n - 2]), ops[n - 1], start);
    assert(ops =~= before.push(ops[n - 2]).push(ops[n - 1]));
}

proof fn flow_attn(block: &Lfm2Block, env: &GraphEnv, i: usize, fuse_norm: bool)
    ensures
        fed(attn_graph_ops(block, env, i, fuse_norm), kept(i)),
        written(attn_graph_ops(block, env, i, fuse_norm)).contains(Slot::Norm(i)),
        !fuse_norm ==> written(attn_graph_ops(block, env, i, fuse_norm)).contains(
            Slot::LayerOutput(i),
        ),
{
    let start = kept(i);
    let a = qkv_ops(block, env, i);
    let b = attention_graph_ops(block, env, i, uses_mxfp4(block));
    let c = close_ops(Slot::AttentionOut(i), WeightRef::AttnOut, i, fuse_norm);
    flow_qkv(block, env, i);
    flow_attention(block, env, i, uses_mxfp4(block), start.union(written(a)));
    concat(a, b, start);
    flow_close(
        Slot::AttentionOut(i),
        WeightRef::AttnOut,
        i,
        fuse_norm,
        start.union(written(a + b)),
    );
    concat(a + b, c, start);
}

proof fn flow_gdl(block: &Lfm2Block, env: &GraphEnv, i: usize, fuse_norm: bool)
    requires
        block.num_kv_heads > 0,
    ensures
        fed(gdl_ops(block, env, i, fuse_norm), kept(i)),
        written(gdl_ops(block, env, i, fuse_norm)).contains(Slot::Norm(i)),
        !fuse_norm ==> written(gdl_ops(block, env, i, fuse_norm)).contains(Slot::LayerOutput(i)),
{
    let start = kept(i);
    let none = Seq::<GraphOp>::empty();
    let norm = none.push(attn_norm_op(i));
    step(none, attn_norm_op(i), start);
    let qkv = gdl_qkv_ops(block, env, i);
    let projected = norm + qkv;
    if crate::lfm2_graph::qkv_dot_ok(block, env) {
        step(norm, qkv[0], start);
        assert(projected =~= norm.push(qkv[0]));
    } else {
        flow_three_linears(norm, i, start);
        assert(projected =~= norm.push(qkv[0]).push(qkv[1]).push(qkv[2]));
    }
    assert(0 <= block.num_heads / block.num_kv_heads <= block.num_heads) by (nonlinear_arith)
        requires
            block.num_kv_heads > 0,
    ;
    let repeat = GraphOp::HeadRepeat {
        layer: i,
        kv_heads: block.num_kv_heads,
        heads: block.num_heads,
        times: block.num_heads / block.num_kv_heads,
    };
    if block.num_heads != block.num_kv_heads {
        step(projected, repeat, start);
        assert(gdl_ops(block, env, i, fuse_norm) =~= projected.push(repeat).push(
            GraphOp::GdlStep {
                layer: i,
                repeated: true,
                heads: block.num_heads,
                batch: crate::lfm2_graph::at_least_one(env.batch),
            },
        ) + close_ops(Slot::AttentionOut(i), WeightRef::AttnOut, i, fuse_norm));
        flow_gdl_tail(block, env, i, fuse_norm, projected.push(repeat));
    } else {
        flow_gdl_tail(block, env, i, fuse_norm, projected);
    }
}

/// The recurrent step and what closes it, after the operands are there.
proof fn flow_gdl_tail(
    block: &Lfm2Block,
    env: &GraphEnv,
    i: usize,
    fuse_norm: bool,
    before: Seq<GraphOp>,
)
    requires
        fed(before, kept(i)),
        written(before).contains(Slot::Query(i)),
        block.num_heads == block.num_kv_heads ==> written(before).contains(Slot::Key(i))
            && written(before).contains(Slot::Value(i)),
        block.num_heads != block.num_kv_heads ==> written(before).contains(Slot::KeyRepeated(i))
            && written(before).contains(Slot::ValueRepeated(i)),
        gdl_ops(block, env, i, fuse_norm) == before.push(
            GraphOp::GdlStep {
                layer: i,
                repeated: block.num_heads != block.num_kv_heads,
                heads: block.num_heads,
                batch: crate::lfm2_graph::at_least_one(env.batch),
            },
        ) + close_ops(Slot::AttentionOut(i), WeightRef::AttnOut, i, fuse_norm),
    ensures
        fed(gdl_ops(block, env, i, fuse_norm), kept(i)),
        written(gdl_ops(block, env, i, fuse_norm)).contains(Slot::Norm(i)),
        !fuse_norm ==> written(gdl_ops(block, env, i, fuse_norm)).contains(Slot::LayerOutput(i)),
{
    let start = kept(i);
    let gdl = GraphOp::GdlStep {
        layer: i,
        repeated: block.num_heads != block.num_kv_heads,
        heads: block.num_heads,
        batch: crate::lfm2_graph::at_least_one(env.batch),
    };
    step(before, gdl, start);
    let mixed = before.push(gdl);
    let c = close_ops(Slot::AttentionOut(i), WeightRef::AttnOut, i, fuse_norm);
    flow_close(Slot::AttentionOut(i), WeightRef::AttnOut, i, fuse_norm, start.union(written(mixed)));
    concat(mixed, c, start);
}

proof fn flow_shortconv(block: &Lfm2Block, env: &GraphEnv, i: usize)
    ensures
        fed(shortconv_graph_ops(block, env, i), kept(i)),
        written(shortconv_graph_ops(block, env, i)).contains(Slot::Norm(i)),
        block.is_moe ==> written(shortconv_graph_ops(block, env, i)).contains(
            Slot::LayerOutput(i),
        ),
{
    let start = kept(i);
    let none = Seq::<GraphOp>::empty();
    let ops = shortconv_graph_ops(block, env, i);
    let fused = crate::lfm2_graph::dot_ok(env, env.hidden) && block.q80.in_proj;
    let project = if fused {
        none.push(ops[0])
    } else {
        none.push(ops[0]).push(ops[1])
    };
    step(none, ops[0], start);
    if !fused {
        step(none.push(ops[0]), ops[1], start);
    }
    let conv = ops[project.len() as int];
    step(project, conv, start);
    let mixed = project.push(conv);
    let c = close_ops(Slot::ShortConvOut(i), WeightRef::ShortConvOut, i, !block.is_moe);
    flow_close(
        Slot::ShortConvOut(i),
        WeightRef::ShortConvOut,
        i,
        !block.is_moe,
        start.union(written(mixed)),
    );
    concat(mixed, c, start);
    assert(ops =~= mixed + c);
}

proof fn flow_activate(block: &Lfm2Block, env: &GraphEnv, i: usize, start: Set<Slot>)
    requires
        start.contains(Slot::LayerInput(i)),
        start.contains(Slot::Norm(i)),
    ensures
        fed(activate_ops(block, env, i, true), start),
        written(activate_ops(block, env, i, true)).contains(Slot::LayerOutput(i)),
        written(activate_ops(block, env, i, true)).contains(Slot::Activated(i)),
{
    let none = Seq::<GraphOp>::empty();
    let ops = activate_ops(block, env, i, true);
    let n = ops.len() as int;
    step(none, ops[0], start);
    let s1 = none.push(ops[0]);
    if n == 1 {
        assert(ops =~= s1);
    } else {
        step(s1, ops[1], start);
        let s2 = s1.push(ops[1]);
        if n == 2 {
            assert(ops =~= s2);
        } else {
            step(s2, ops[2], start);
            let s3 = s2.push(ops[2]);
            step(s3, ops[3], start);
            let s4 = s3.push(ops[3]);
            if n == 4 {
                assert(ops =~= s4);
            } else {
                step(s4, ops[4], start);
                let s5 = s4.push(ops[4]);
                step(s5, ops[5], start);
                assert(ops =~= s5.push(ops[5]));
            }
        }
    }
}

proof fn flow_ffn(block: &Lfm2Block, env: &GraphEnv, i: usize, dst: Slot, start: Set<Slot>)
    requires
        start.contains(Slot::LayerInput(i)),
        start.contains(Slot::Norm(i)),
    ensures
        fed(ffn_graph_ops(block, env, i, dst, true), start),
        written(ffn_graph_ops(block, env, i, dst, true)).contains(dst),
{
    let none = Seq::<GraphOp>::empty();
    let check = GraphOp::CheckTopology { layer: i };
    step(none, check, start);
    let head = none.push(check);
    let a = activate_ops(block, env, i, true);
    flow_activate(block, env, i, start.union(written(head)));
    concat(head, a, start);
    let active = head + a;
    let d = down_ops(block, env, i, dst);
    step(active, d[0], start);
    if d.len() == 1 {
        assert(ffn_graph_ops(block, env, i, dst, true) =~= active.push(d[0]));
    } else {
        step(active.push(d[0]), d[1], start);
        assert(ffn_graph_ops(block, env, i, dst, true) =~= active.push(d[0]).push(d[1]));
    }
}

proof fn flow_moe(
    block: &Lfm2Block,
    env: &GraphEnv,
    i: usize,
    dst: Slot,
    n_ff: usize,
    start: Set<Slot>,
)
    requires
        start.contains(Slot::LayerOutput(i)),
    ensures
        fed(moe_graph_ops(block, env, i, dst, n_ff), start),
        written(moe_graph_ops(block, env, i, dst, n_ff)).contains(dst),
{
    let none = Seq::<GraphOp>::empty();
    let ops = moe_graph_ops(block, env, i, dst, n_ff);
    step(none, ops[0], start);
    let s1 = none.push(ops[0]);
    step(s1, ops[1], start);
    let s2 = s1.push(ops[1]);
    step(s2, ops[2], start);
    let s3 = s2.push(ops[2]);
    step(s3, ops[3], start);
    let s4 = s3.push(ops[3]);
    step(s4, ops[4], start);
    assert(ops =~= s4.push(ops[4]));
}

proof fn flow_mixer(block: &Lfm2Block, env: &GraphEnv, i: usize, gdl: Option<GdlBuffers>)
    requires
        mixer_graph(block, env, i, gdl) is Ok,
        is_gdl(block) ==> block.num_kv_heads > 0,
    ensures
        ({
            let ops = mixer_graph(block, env, i, gdl)->Ok_0;
            &&& fed(ops, kept(i))
            &&& written(ops).contains(Slot::Norm(i))
            &&& block.is_moe ==> written(ops).contains(Slot::LayerOutput(i))
        }),
{
    if block.wq is None {
        flow_shortconv(block, env, i);
    } else if is_gdl(block) {
        flow_gdl(block, env, i, !block.is_moe);
    } else {
        flow_attn(block, env, i, !block.is_moe);
    }
}

/// A captured layer is complete: every launch reads only the layer's input,
/// what the layer keeps between replays, or what an earlier launch of the same
/// replay wrote; and the layer's result is written where the next one reads it.
pub proof fn law_layer_reads_what_was_written(
    block: &Lfm2Block,
    env: &GraphEnv,
    i: usize,
    gdl: Option<GdlBuffers>,
    expert_width: Option<usize>,
)
    requires
        layer_graph(block, env, i, gdl, expert_width) is Ok,
        is_gdl(block) ==> block.num_kv_heads > 0,
    ensures
        ({
            let ops = layer_graph(block, env, i, gdl, expert_width)->Ok_0;
            &&& fed(ops, kept(i))
            &&& written(ops).contains(residual_slot(env, i))
        }),
{
    let start = kept(i);
    let none = Seq::<GraphOp>::empty();
    let check = GraphOp::CheckTopology { layer: i };
    step(none, check, start);
    let head = none.push(check);
    let mixer = mixer_graph(block, env, i, gdl)->Ok_0;
    flow_mixer(block, env, i, gdl);
    widen(mixer, start, start.union(written(head)));
    concat(head, mixer, start);
    let mixed = head + mixer;
    let ffn = ffn_graph(block, env, i, expert_width)->Ok_0;
    let dst = residual_slot(env, i);
    let after = start.union(written(mixed));
    if block.is_moe {
        flow_moe(block, env, i, dst, expert_width->0, after);
    } else {
        flow_ffn(block, env, i, dst, after);
    }
    concat(mixed, ffn, start);
    assert(seq![check] =~= head);
}

} // verus!
