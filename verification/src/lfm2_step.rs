//! One eager step of an LFM2 layer: which operations it runs, and what it
//! moves and computes between them.

use crate::device::Device;
use crate::lfm2::{ConvKernel, Lfm2Block};
use crate::rows::{
    append_all, columns, copy_range, lemma_flat_index, suffix, take_columns, transpose, transposed,
};
use crate::surroundings::HeadShape;
use vstd::prelude::*;

verus! {

/// What a step runs under.
#[derive(Debug, Clone, Copy)]
pub struct StepEnv {
    /// Where the layer's input lives.
    pub device: Device,
    /// Tokens in the step.
    pub steps: usize,
    /// Steps are being captured for replay.
    pub capture: bool,
    /// Rotations may take their base position from a device buffer.
    pub rope_dev_base: bool,
}

/// An operation of a step. The layer's input and the results so far are the
/// operands; a mixer leaves its output for the first residual sum, and a
/// feed-forward part for the second.
#[derive(Debug, Clone, Copy, PartialEq, Eq, Structural)]
pub enum ForwardOp {
    /// Normalise the layer's input.
    AttnNorm,
    /// Project the normalised input to gate, input and output rows.
    ShortConvInProj,
    /// Take the kept rows of the convolution from the cache.
    ShortConvState,
    /// Convolve on the device; where the device cannot, the host step runs.
    ShortConvDevice { sync_host: bool },
    /// Convolve on the host, unless the device did.
    ShortConvHost,
    /// Project the convolved rows.
    ShortConvOutProj,
    /// Run the expert feed-forward part.
    MoeFfn,
    /// Project, normalise, rotate and append in one kernel.
    FusedMxfp4Qkv,
    /// Project to queries, keys and values from one blob.
    FusedDot4Qkv,
    /// Project to queries, keys and values one by one.
    SplitQkv,
    /// Normalise queries and keys head by head.
    QkNorm,
    /// Make and seed the device counter where it is not there.
    SeedCounter,
    /// Rotate from a base position on the device.
    RopeDeviceBase { write_base: bool },
    /// Rotate by positions counted on the host.
    RopeHostPositions,
    /// Append and attend on the device.
    DeviceAttention { heads: HeadShape },
    /// Append to the host history and mirror it to the arenas.
    AppendHistory,
    /// Attend over the history.
    Attend { heads: HeadShape },
    /// Project the attention output.
    AttnOutProj,
    /// Add the sublayer's output to its input.
    ResidualAdd,
    /// Normalise the first residual sum.
    FfnNorm,
    /// Run the dense feed-forward part.
    DenseFfn,
}

/// The step is captured: capture was asked for, and the device can.
pub open spec fn capturing(env: &StepEnv) -> bool {
    env.capture && env.device.rocm()
}

/// The operations that mix tokens in a recurrent layer.
pub open spec fn shortconv_ops(env: &StepEnv) -> Seq<ForwardOp> {
    let on_device = if env.steps == 1 {
        seq![ForwardOp::ShortConvDevice { sync_host: !capturing(env) }]
    } else {
        Seq::empty()
    };
    seq![ForwardOp::ShortConvInProj, ForwardOp::ShortConvState] + on_device + seq![
        ForwardOp::ShortConvHost,
        ForwardOp::ShortConvOutProj,
    ]
}

/// The operations that mix tokens in an attention layer.
pub open spec fn attention_ops(block: &Lfm2Block, env: &StepEnv) -> Seq<ForwardOp> {
    let project = if block.wqkv_codes is Some && env.device.rocm() {
        seq![ForwardOp::FusedMxfp4Qkv]
    } else {
        let qkv = if block.wqkv_q80_fused is Some {
            ForwardOp::FusedDot4Qkv
        } else {
            ForwardOp::SplitQkv
        };
        let counter = if capturing(env) {
            seq![ForwardOp::SeedCounter]
        } else {
            Seq::empty()
        };
        let rope = if env.device.rocm() && env.rope_dev_base {
            ForwardOp::RopeDeviceBase { write_base: !capturing(env) }
        } else {
            ForwardOp::RopeHostPositions
        };
        let append = if capturing(env) {
            ForwardOp::DeviceAttention { heads: block.head_shape() }
        } else {
            ForwardOp::AppendHistory
        };
        seq![qkv, ForwardOp::QkNorm] + counter + seq![rope, append]
    };
    project + seq![ForwardOp::Attend { heads: block.head_shape() }, ForwardOp::AttnOutProj]
}

/// The operations that mix tokens.
pub open spec fn mixer_ops(block: &Lfm2Block, env: &StepEnv) -> Seq<ForwardOp> {
    if block.shortconv_in_proj is Some {
        shortconv_ops(env)
    } else {
        attention_ops(block, env)
    }
}

/// The operations of a step.
pub open spec fn forward_ops(block: &Lfm2Block, env: &StepEnv) -> Seq<ForwardOp> {
    let ffn = if block.is_moe {
        ForwardOp::MoeFfn
    } else {
        ForwardOp::DenseFfn
    };
    seq![ForwardOp::AttnNorm] + mixer_ops(block, env) + seq![
        ForwardOp::ResidualAdd,
        ForwardOp::FfnNorm,
        ffn,
        ForwardOp::ResidualAdd,
    ]
}

/// The operation reads device results back to the host, or hands host values
/// to the device, or may.
pub open spec fn crosses_host(op: ForwardOp) -> bool {
    match op {
        ForwardOp::ShortConvHost => true,
        ForwardOp::MoeFfn => true,
        ForwardOp::ShortConvDevice { sync_host } => sync_host,
        ForwardOp::FusedMxfp4Qkv => true,
        ForwardOp::RopeDeviceBase { write_base } => write_base,
        ForwardOp::RopeHostPositions => true,
        ForwardOp::AppendHistory => true,
        _ => false,
    }
}

impl Lfm2Block {
    /// The operations that one step of this layer runs, in order.
    pub fn forward(&self, env: &StepEnv) -> (ops: Vec<ForwardOp>)
        ensures
            ops@ == forward_ops(self, env),
    {
        let rocm: bool = env.device.is_rocm();
        let capture: bool = env.capture && rocm;
        let mut ops: Vec<ForwardOp> = Vec::new();
        ops.push(ForwardOp::AttnNorm);
        if self.shortconv_in_proj.is_some() {
            ops.push(ForwardOp::ShortConvInProj);
            ops.push(ForwardOp::ShortConvState);
            if env.steps == 1 {
                ops.push(ForwardOp::ShortConvDevice { sync_host: !capture });
            }
            ops.push(ForwardOp::ShortConvHost);
            ops.push(ForwardOp::ShortConvOutProj);
        } else {
            if self.wqkv_codes.is_some() && rocm {
                ops.push(ForwardOp::FusedMxfp4Qkv);
            } else {
                if self.wqkv_q80_fused.is_some() {
                    ops.push(ForwardOp::FusedDot4Qkv);
                } else {
                    ops.push(ForwardOp::SplitQkv);
                }
                ops.push(ForwardOp::QkNorm);
                if capture {
                    ops.push(ForwardOp::SeedCounter);
                }
                if rocm && env.rope_dev_base {
                    ops.push(ForwardOp::RopeDeviceBase { write_base: !capture });
                } else {
                    ops.push(ForwardOp::RopeHostPositions);
                }
                if capture {
                    ops.push(ForwardOp::DeviceAttention { heads: self.head_shape() });
                } else {
                    ops.push(ForwardOp::AppendHistory);
                }
            }
            ops.push(ForwardOp::Attend { heads: self.head_shape() });
            ops.push(ForwardOp::AttnOutProj);
        }
        ops.push(ForwardOp::ResidualAdd);
        ops.push(ForwardOp::FfnNorm);
        if self.is_moe {
            ops.push(ForwardOp::MoeFfn);
        } else {
            ops.push(ForwardOp::DenseFfn);
        }
        ops.push(ForwardOp::ResidualAdd);
        assert(ops@ =~= forward_ops(self, env));
        ops
    }

    /// The tap count of the convolution: the kernel's last dimension, or three
    /// for a kernel without one.
    pub open spec fn taps(&self) -> usize {
        match self.shortconv_conv {
            Some(ConvKernel { taps: Some(taps) }) => taps,
            _ => 3,
        }
    }

    /// The tap count of the convolution.
    pub fn l_cache(&self) -> (taps: usize)
        ensures
            taps == self.taps(),
    {
        match self.shortconv_conv {
            Some(kernel) => match kernel.taps {
                Some(taps) => taps,
                None => 3,
            },
            None => 3,
        }
    }
}

/// While steps are captured, nothing crosses between host and device, for an
/// attention layer with a dense feed-forward part, whose projections are not
/// one fused kernel and where rotations take their base from the device.
pub proof fn law_captured_step_stays_on_device(block: &Lfm2Block, env: &StepEnv, i: int)
    requires
        capturing(env),
        env.rope_dev_base,
        block.shortconv_in_proj is None,
        !block.is_moe,
        block.wqkv_codes is None,
        0 <= i < forward_ops(block, env).len(),
    ensures
        !crosses_host(forward_ops(block, env)[i]),
{
    let ops = forward_ops(block, env);
    let mixer = mixer_ops(block, env);
    assert forall|j: int| 0 <= j < mixer.len() implies !crosses_host(#[trigger] mixer[j]) by {}
    if 1 <= i < 1 + mixer.len() {
        assert(ops[i] == mixer[i - 1]);
    }
}

/// A step adds its sublayers' outputs back twice: once between mixer and
/// feed-forward part, and once at the end.
pub proof fn law_step_ends_in_residual_sums(block: &Lfm2Block, env: &StepEnv)
    ensures
        ({
            let ops = forward_ops(block, env);
            let n = ops.len() as int;
            &&& n >= 6
            &&& ops[0] == ForwardOp::AttnNorm
            &&& ops[n - 4] == ForwardOp::ResidualAdd
            &&& ops[n - 3] == ForwardOp::FfnNorm
            &&& ops[n - 1] == ForwardOp::ResidualAdd
        }),
{
}

/// The tokens in a projected buffer of three parts of `h_dim` each.
pub fn shortconv_steps(h_dim: usize, proj_elems: usize) -> (steps: usize)
    requires
        3 * h_dim <= usize::MAX,
    ensures
        steps == (if h_dim > 0 {
            proj_elems as int / (3 * h_dim)
        } else {
            0
        }),
{
    if h_dim > 0 {
        proj_elems / (3 * h_dim)
    } else {
        0
    }
}

/// The three parts of a projected row: what gates the input, what gates the
/// output, and the input itself.
pub struct ShortConvRows<T> {
    pub b: Vec<T>,
    pub c: Vec<T>,
    pub x: Vec<T>,
}

/// Cuts projected rows into their three parts.
pub fn shortconv_parts<T: Copy>(proj: &[T], steps: usize, h_dim: usize) -> (parts: ShortConvRows<T>)
    requires
        3 * h_dim <= usize::MAX,
        steps * (3 * h_dim) <= proj@.len(),
    ensures
        parts.b@ == columns(proj@, steps as nat, (3 * h_dim) as nat, 0, h_dim as nat),
        parts.c@ == columns(proj@, steps as nat, (3 * h_dim) as nat, h_dim as nat, h_dim as nat),
        parts.x@ == columns(
            proj@,
            steps as nat,
            (3 * h_dim) as nat,
            (2 * h_dim) as nat,
            h_dim as nat,
        ),
{
    let width: usize = 3 * h_dim;
    ShortConvRows {
        b: take_columns(proj, steps, width, 0, h_dim),
        c: take_columns(proj, steps, width, h_dim, h_dim),
        x: take_columns(proj, steps, width, 2 * h_dim, h_dim),
    }
}

/// The kept rows as a device kernel reads them: one channel after the other.
pub fn channel_major_state<T: Copy>(state: &[T], kept: usize, h_dim: usize) -> (out: Vec<T>)
    requires
        kept * h_dim <= state@.len(),
    ensures
        out@ == transposed(state@, kept as nat, h_dim as nat),
{
    transpose(state, kept, h_dim)
}

/// Slides the kept rows by one: the oldest leaves, `row` joins.
pub fn slide_state<T: Copy>(state: &mut Vec<T>, row: &[T])
    requires
        row@.len() <= old(state)@.len(),
        old(state)@.len() + row@.len() <= usize::MAX,
    ensures
        final(state)@ == suffix(old(state)@ + row@, old(state)@.len()),
{
    let keep: usize = state.len();
    let drop: usize = row.len();
    let mut next = copy_range(state.as_slice(), drop, keep - drop);
    append_all(&mut next, row);
    assert(next@ =~= suffix(old(state)@ + row@, old(state)@.len()));
    *state = next;
}

/// How a convolution on the device ended.
#[derive(Debug, Clone, Copy, PartialEq, Eq, Structural)]
pub enum DeviceStep {
    /// It left its rows on the device.
    Done,
    /// The device cannot do it.
    Unimplemented,
    /// It failed.
    Failed,
}

/// What follows a convolution on the device.
#[derive(Debug, Clone, Copy, PartialEq, Eq, Structural)]
pub enum AfterDeviceStep {
    /// Project the rows that the device left.
    ProjectDeviceRows,
    /// Run the step on the host.
    RunOnHost,
    /// Hand the failure on.
    Fail,
}

/// Decides what follows a convolution on the device.
pub fn after_device_step(outcome: DeviceStep) -> (next: AfterDeviceStep)
    ensures
        next == (match outcome {
            DeviceStep::Done => AfterDeviceStep::ProjectDeviceRows,
            DeviceStep::Unimplemented => AfterDeviceStep::RunOnHost,
            DeviceStep::Failed => AfterDeviceStep::Fail,
        }),
{
    match outcome {
        DeviceStep::Done => AfterDeviceStep::ProjectDeviceRows,
        DeviceStep::Unimplemented => AfterDeviceStep::RunOnHost,
        DeviceStep::Failed => AfterDeviceStep::Fail,
    }
}

/// The position of every head of every token: each token's position, once per
/// head.
pub fn rope_positions(cache_offset: usize, steps: usize, heads: usize) -> (positions: Vec<u32>)
    requires
        cache_offset + steps <= usize::MAX,
        steps * heads <= usize::MAX,
    ensures
        positions@ == Seq::new(
            (steps * heads) as nat,
            |i: int| (cache_offset + i / heads as int) as u32,
        ),
{
    let total: usize = steps * heads;
    let mut positions: Vec<u32> = Vec::new();
    let mut i: usize = 0;
    while i < total
        invariant
            i <= total,
            total == steps * heads,
            cache_offset + steps <= usize::MAX,
            positions@ == Seq::new(i as nat, |i: int| (cache_offset + i / heads as int) as u32),
        decreases total - i,
    {
        proof {
            lemma_flat_index(i as int, steps as int, heads as int);
        }
        positions.push((cache_offset + i / heads) as u32);
        i = i + 1;
    }
    positions
}

} // verus!
