//! Captured steps of gated delta-rule layers: one kernel updates and reads the
//! recurrent state in place of appending and attending.

use crate::error::Error;
use crate::lfm2::{Lfm2AttentionMode, Lfm2Block};
use crate::lfm2_graph::{
    at_least_one, attn_norm_op, close_ops, layer_fits, push_close, qkv_dot_fused, qkv_dot_ok,
    GraphEnv, GraphOp, Slot, WeightRef,
};
use vstd::prelude::*;

verus! {

/// The recurrent buffers of one layer.
#[derive(Debug, Clone, Copy, PartialEq, Eq, Structural)]
pub struct GdlBuffers {
    pub heads: usize,
    pub dk: usize,
    pub dv: usize,
    /// There is room for keys repeated for every query head.
    pub key_repeat: bool,
    pub value_repeat: bool,
}

/// The layer is served by the recurrent branch.
pub open spec fn is_gdl(block: &Lfm2Block) -> bool {
    block.attention_mode == Lfm2AttentionMode::Gdl && block.wq is Some
}

/// Tells whether a layer is served by the recurrent branch.
pub fn is_gdl_layer(block: &Lfm2Block) -> (r: bool)
    ensures
        r == is_gdl(block),
{
    block.attention_mode == Lfm2AttentionMode::Gdl && block.wq.is_some()
}

/// Why the recurrent branch refuses a layer.
pub open spec fn gdl_refusal(block: &Lfm2Block, buffers: Option<GdlBuffers>) -> Option<Error> {
    if block.attention_mode != Lfm2AttentionMode::Gdl {
        Some(Error::NotGdl)
    } else if block.num_heads % block.num_kv_heads != 0 {
        Some(Error::GdlHeads { heads: block.num_heads, kv_heads: block.num_kv_heads })
    } else if block.head_dim != 64 {
        Some(Error::GdlHeadDim { head_dim: block.head_dim })
    } else if block.wq is None {
        Some(Error::GraphPart { stage: "gdl_forward_graph", part: "wq" })
    } else if block.wk is None {
        Some(Error::GraphPart { stage: "gdl_forward_graph", part: "wk" })
    } else if block.wv is None {
        Some(Error::GraphPart { stage: "gdl_forward_graph", part: "wv" })
    } else if block.wo is None {
        Some(Error::GraphPart { stage: "gdl_forward_graph", part: "wo" })
    } else {
        match buffers {
            None => Some(Error::GdlBuffers),
            Some(b) => if b.heads != block.num_heads || b.dk != 64 || b.dv != 64 {
                Some(Error::GdlBufferShape)
            } else if block.num_heads != block.num_kv_heads && !b.key_repeat {
                Some(Error::GraphPart { stage: "gdl_forward_graph", part: "k_exp_buf" })
            } else if block.num_heads != block.num_kv_heads && !b.value_repeat {
                Some(Error::GraphPart { stage: "gdl_forward_graph", part: "v_exp_buf" })
            } else {
                None
            },
        }
    }
}

/// The launches that project to queries, keys and values.
pub open spec fn gdl_qkv_ops(block: &Lfm2Block, env: &GraphEnv, i: usize) -> Seq<GraphOp> {
    if qkv_dot_ok(block, env) {
        seq![
            GraphOp::FusedQkv {
                layer: i,
                n_q: (block.num_heads * block.head_dim) as usize,
                n_kv: (block.num_kv_heads * block.head_dim) as usize,
                hidden: env.hidden,
            },
        ]
    } else {
        seq![
            GraphOp::Linear {
                src: Slot::Norm(i),
                weight: WeightRef::Query,
                dst: Slot::Query(i),
                layer: i,
            },
            GraphOp::Linear {
                src: Slot::Norm(i),
                weight: WeightRef::Key,
                dst: Slot::Key(i),
                layer: i,
            },
            GraphOp::Linear {
                src: Slot::Norm(i),
                weight: WeightRef::Value,
                dst: Slot::Value(i),
                layer: i,
            },
        ]
    }
}

/// The launches of a recurrent step.
pub open spec fn gdl_ops(
    block: &Lfm2Block,
    env: &GraphEnv,
    i: usize,
    fuse_norm: bool,
) -> Seq<GraphOp> {
    let repeated = block.num_heads != block.num_kv_heads;
    let repeat = if repeated {
        seq![
            GraphOp::HeadRepeat {
                layer: i,
                kv_heads: block.num_kv_heads,
                heads: block.num_heads,
                times: block.num_heads / block.num_kv_heads,
            },
        ]
    } else {
        Seq::empty()
    };
    seq![attn_norm_op(i)] + gdl_qkv_ops(block, env, i) + repeat + seq![
        GraphOp::GdlStep {
            layer: i,
            repeated,
            heads: block.num_heads,
            batch: at_least_one(env.batch),
        },
    ] + close_ops(Slot::AttentionOut(i), WeightRef::AttnOut, i, fuse_norm)
}

fn refuse(block: &Lfm2Block, buffers: Option<GdlBuffers>) -> (r: Result<(), Error>)
    requires
        block.attention_mode == Lfm2AttentionMode::Gdl ==> block.num_kv_heads > 0,
    ensures
        r is Ok <==> gdl_refusal(block, buffers) is None,
        r matches Err(e) ==> gdl_refusal(block, buffers) == Some(e),
{
    if block.attention_mode != Lfm2AttentionMode::Gdl {
        return Err(Error::NotGdl);
    }
    if block.num_heads % block.num_kv_heads != 0 {
        return Err(Error::GdlHeads { heads: block.num_heads, kv_heads: block.num_kv_heads });
    }
    if block.head_dim != 64 {
        return Err(Error::GdlHeadDim { head_dim: block.head_dim });
    }
    if block.wq.is_none() {
        return Err(Error::GraphPart { stage: "gdl_forward_graph", part: "wq" });
    }
    if block.wk.is_none() {
        return Err(Error::GraphPart { stage: "gdl_forward_graph", part: "wk" });
    }
    if block.wv.is_none() {
        return Err(Error::GraphPart { stage: "gdl_forward_graph", part: "wv" });
    }
    if block.wo.is_none() {
        return Err(Error::GraphPart { stage: "gdl_forward_graph", part: "wo" });
    }
    match buffers {
        None => Err(Error::GdlBuffers),
        Some(b) => {
            if b.heads != block.num_heads || b.dk != 64 || b.dv != 64 {
                Err(Error::GdlBufferShape)
            } else if block.num_heads != block.num_kv_heads && !b.key_repeat {
                Err(Error::GraphPart { stage: "gdl_forward_graph", part: "k_exp_buf" })
            } else if block.num_heads != block.num_kv_heads && !b.value_repeat {
                Err(Error::GraphPart { stage: "gdl_forward_graph", part: "v_exp_buf" })
            } else {
                Ok(())
            }
        },
    }
}

/// The launches of a recurrent step of layer `layer_idx`, or why it cannot be
/// captured.
pub fn gdl_forward_graph(
    block: &Lfm2Block,
    layer_idx: usize,
    env: &GraphEnv,
    buffers: Option<GdlBuffers>,
    fuse_norm: bool,
) -> (result: Result<Vec<GraphOp>, Error>)
    requires
        layer_fits(block, env),
        block.attention_mode == Lfm2AttentionMode::Gdl ==> block.num_kv_heads > 0,
    ensures
        result is Ok <==> gdl_refusal(block, buffers) is None,
        result matches Err(e) ==> gdl_refusal(block, buffers) == Some(e),
        result matches Ok(ops) ==> ops@ == gdl_ops(block, env, layer_idx, fuse_norm),
{
    match refuse(block, buffers) {
        Err(e) => return Err(e),
        Ok(_) => {},
    }
    let i: usize = layer_idx;
    let mut ops: Vec<GraphOp> = Vec::new();
    ops.push(
        GraphOp::RmsNorm {
            src: Slot::LayerInput(i),
            weight: WeightRef::AttnNorm,
            dst: Slot::Norm(i),
        },
    );
    if qkv_dot_fused(block, env) {
        ops.push(
            GraphOp::FusedQkv {
                layer: i,
                n_q: block.num_heads * block.head_dim,
                n_kv: block.num_kv_heads * block.head_dim,
                hidden: env.hidden,
            },
        );
    } else {
        ops.push(
            GraphOp::Linear {
                src: Slot::Norm(i),
                weight: WeightRef::Query,
                dst: Slot::Query(i),
                layer: i,
            },
        );
        ops.push(
            GraphOp::Linear {
                src: Slot::Norm(i),
                weight: WeightRef::Key,
                dst: Slot::Key(i),
                layer: i,
            },
        );
        ops.push(
            GraphOp::Linear {
                src: Slot::Norm(i),
                weight: WeightRef::Value,
                dst: Slot::Value(i),
                layer: i,
            },
        );
    }
    let repeated: bool = block.num_heads != block.num_kv_heads;
    if repeated {
        ops.push(
            GraphOp::HeadRepeat {
                layer: i,
                kv_heads: block.num_kv_heads,
                heads: block.num_heads,
                times: block.num_heads / block.num_kv_heads,
            },
        );
    }
    let batch: usize = if env.batch == 0 {
        1
    } else {
        env.batch
    };
    ops.push(GraphOp::GdlStep { layer: i, repeated, heads: block.num_heads, batch });
    push_close(&mut ops, Slot::AttentionOut(i), WeightRef::AttnOut, i, fuse_norm);
    assert(ops@ =~= gdl_ops(block, env, i, fuse_norm));
    Ok(ops)
}

} // verus!
