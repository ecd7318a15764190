//! Static instruction streams for the persistent decode kernel.
//!
//! A schedule is compiled once and dispatched as it is: each task waits for one
//! counter and posts another, so that stages need no barrier between them.

use crate::error::Error;
use crate::lfm2::{Lfm2, Lfm2AttentionMode, Lfm2Block};
use vstd::prelude::*;

verus! {

/// What a task does.
#[derive(Debug, Clone, Copy, PartialEq, Eq, Structural)]
pub enum GlaOpType {
    RmsNorm,
    Dot4Gemv,
    Gdn2Recurrent,
    ShortConvFused,
    FfnGateUpSilu,
    ResidualAdd,
}

impl GlaOpType {
    /// The number by which the kernel knows the operation.
    #[verifier::allow_in_spec]
    pub fn code(self) -> i32
        returns
            (match self {
                GlaOpType::RmsNorm => 1i32,
                GlaOpType::Dot4Gemv => 2i32,
                GlaOpType::Gdn2Recurrent => 3i32,
                GlaOpType::ShortConvFused => 4i32,
                GlaOpType::FfnGateUpSilu => 5i32,
                GlaOpType::ResidualAdd => 6i32,
            }),
    {
        match self {
            GlaOpType::RmsNorm => 1i32,
            GlaOpType::Dot4Gemv => 2i32,
            GlaOpType::Gdn2Recurrent => 3i32,
            GlaOpType::ShortConvFused => 4i32,
            GlaOpType::FfnGateUpSilu => 5i32,
            GlaOpType::ResidualAdd => 6i32,
        }
    }
}

/// One task as the kernel reads it.
#[derive(Debug, Clone, Copy, PartialEq, Eq, Structural)]
pub struct GlaMegakernelTask {
    pub op_type: i32,
    pub layer_idx: i32,
    pub in_offset: i32,
    pub weight_offset: i32,
    pub out_offset: i32,
    pub aux_offset: i32,
    pub dim_m: i32,
    pub dim_n: i32,
    pub dim_k: i32,
    pub dep_counter_idx: i32,
    pub dep_counter_val: i32,
    pub post_counter_idx: i32,
}

/// A compiled schedule.
#[derive(Debug)]
pub struct MegaSchedule {
    pub tasks: Vec<GlaMegakernelTask>,
    pub num_counters: usize,
    pub staging_pool_size: usize,
}

/// The operands of a task, without its place in the chain of counters.
pub struct Operands {
    pub op: GlaOpType,
    pub input: i32,
    pub output: i32,
    pub aux: i32,
    pub n: i32,
    pub k: i32,
}

/// The third task of a layer: what mixes tokens.
pub open spec fn mixer_operands(layer: &Lfm2Block, l: int, hidden: int) -> Operands {
    let norm = hidden as i32;
    let qkv = (2 * hidden) as i32;
    if layer.attention_mode == Lfm2AttentionMode::Gdl {
        Operands {
            op: GlaOpType::Gdn2Recurrent,
            input: qkv,
            output: norm,
            aux: (l * layer.num_heads * 64 * 64) as i32,
            n: layer.num_heads as i32,
            k: 64,
        }
    } else if layer.shortconv_in_proj is Some {
        Operands {
            op: GlaOpType::ShortConvFused,
            input: qkv,
            output: norm,
            aux: (l * hidden * 2) as i32,
            n: 1,
            k: hidden as i32,
        }
    } else {
        Operands {
            op: GlaOpType::Dot4Gemv,
            input: qkv,
            output: norm,
            aux: 0,
            n: hidden as i32,
            k: hidden as i32,
        }
    }
}

/// The operands of stage `stage` of layer `l`.
///
/// The staging pool holds the residual at its start, the norm output behind it,
/// the projections from `2 * hidden` on and the feed-forward buffers from
/// `6 * hidden` on.
pub open spec fn stage_operands(layer: &Lfm2Block, l: int, hidden: int, stage: int) -> Operands {
    let norm = hidden as i32;
    let qkv = (2 * hidden) as i32;
    let ffn = (6 * hidden) as i32;
    let k = hidden as i32;
    if stage == 0 || stage == 4 {
        Operands { op: GlaOpType::RmsNorm, input: 0, output: norm, aux: 0, n: 1, k }
    } else if stage == 1 {
        Operands {
            op: GlaOpType::Dot4Gemv,
            input: norm,
            output: qkv,
            aux: 0,
            n: (layer.num_heads * 64 * 3) as i32,
            k,
        }
    } else if stage == 2 {
        mixer_operands(layer, l, hidden)
    } else if stage == 3 {
        Operands { op: GlaOpType::ResidualAdd, input: 0, output: 0, aux: norm, n: 1, k }
    } else if stage == 5 {
        Operands {
            op: GlaOpType::FfnGateUpSilu,
            input: norm,
            output: ffn,
            aux: (ffn + k) as i32,
            n: 1,
            k: (hidden * 2) as i32,
        }
    } else {
        Operands { op: GlaOpType::ResidualAdd, input: 0, output: 0, aux: ffn, n: 1, k }
    }
}

/// A task with operands `o`, in layer `l`, at place `at` of the stream: it
/// waits for the counter that the task before it posts and posts its own.
pub open spec fn task_of(o: Operands, l: int, at: int) -> GlaMegakernelTask {
    GlaMegakernelTask {
        op_type: o.op.code(),
        layer_idx: l as i32,
        in_offset: o.input,
        weight_offset: 0,
        out_offset: o.output,
        aux_offset: o.aux,
        dim_m: 1,
        dim_n: o.n,
        dim_k: o.k,
        dep_counter_idx: (at - 1) as i32,
        dep_counter_val: 1,
        post_counter_idx: at as i32,
    }
}

/// The norm behind the last layer.
pub open spec fn final_operands(hidden: int) -> Operands {
    Operands {
        op: GlaOpType::RmsNorm,
        input: 0,
        output: hidden as i32,
        aux: 0,
        n: 1,
        k: hidden as i32,
    }
}

/// Task `at` of the schedule of `layers`.
pub open spec fn scheduled_task(
    layers: Seq<Lfm2Block>,
    hidden: int,
    at: int,
) -> GlaMegakernelTask {
    if at < 7 * layers.len() {
        task_of(stage_operands(&layers[at / 7], at / 7, hidden, at % 7), at / 7, at)
    } else {
        task_of(final_operands(hidden), layers.len() as int, at)
    }
}

/// The whole schedule of `layers`: seven tasks for each, and a final norm.
pub open spec fn schedule_of(layers: Seq<Lfm2Block>, hidden: int) -> Seq<GlaMegakernelTask> {
    Seq::new(7 * layers.len() + 1, |at: int| scheduled_task(layers, hidden, at))
}

/// The numbers that the schedule is made of fit their types.
pub open spec fn schedule_fits(layers: Seq<Lfm2Block>, hidden: int) -> bool {
    &&& 16 * hidden <= usize::MAX
    &&& i32::MIN <= (6 * hidden) as i32 + hidden as i32 <= i32::MAX
    &&& 7 * layers.len() + 1 <= i32::MAX
    &&& forall|l: int|
        0 <= l < layers.len() ==> {
            &&& (#[trigger] layers[l]).num_heads * 64 * 3 <= usize::MAX
            &&& l * layers[l].num_heads <= usize::MAX
            &&& l * layers[l].num_heads * 64 * 64 <= usize::MAX
            &&& l * hidden * 2 <= usize::MAX
        }
}

fn push_task(tasks: &mut Vec<GlaMegakernelTask>, o: Operands, l: usize, at: usize)
    requires
        at <= i32::MAX,
    ensures
        final(tasks)@ == old(tasks)@.push(task_of(o, l as int, at as int)),
{
    let post: i32 = at as i32;
    tasks.push(
        GlaMegakernelTask {
            op_type: o.op.code(),
            layer_idx: l as i32,
            in_offset: o.input,
            weight_offset: 0,
            out_offset: o.output,
            aux_offset: o.aux,
            dim_m: 1,
            dim_n: o.n,
            dim_k: o.k,
            dep_counter_idx: post - 1,
            dep_counter_val: 1,
            post_counter_idx: post,
        },
    );
}

fn mixer(layer: &Lfm2Block, l: usize, hidden: usize) -> (o: Operands)
    requires
        16 * hidden <= usize::MAX,
        l * layer.num_heads <= usize::MAX,
        l * layer.num_heads * 64 * 64 <= usize::MAX,
        l * hidden * 2 <= usize::MAX,
    ensures
        o == mixer_operands(layer, l as int, hidden as int),
{
    let norm: i32 = hidden as i32;
    let qkv: i32 = (2 * hidden) as i32;
    if layer.attention_mode == Lfm2AttentionMode::Gdl {
        Operands {
            op: GlaOpType::Gdn2Recurrent,
            input: qkv,
            output: norm,
            aux: (l * layer.num_heads * 64 * 64) as i32,
            n: layer.num_heads as i32,
            k: 64,
        }
    } else if layer.shortconv_in_proj.is_some() {
        Operands {
            op: GlaOpType::ShortConvFused,
            input: qkv,
            output: norm,
            aux: (l * hidden * 2) as i32,
            n: 1,
            k: hidden as i32,
        }
    } else {
        Operands {
            op: GlaOpType::Dot4Gemv,
            input: qkv,
            output: norm,
            aux: 0,
            n: hidden as i32,
            k: hidden as i32,
        }
    }
}

/// The tasks of layer `l` join the stream.
fn push_layer(
    tasks: &mut Vec<GlaMegakernelTask>,
    layers: &Vec<Lfm2Block>,
    l: usize,
    hidden: usize,
)
    requires
        l < layers@.len(),
        schedule_fits(layers@, hidden as int),
        old(tasks)@ == schedule_of(layers@, hidden as int).take(7 * l as int),
    ensures
        final(tasks)@ == schedule_of(layers@, hidden as int).take(7 * (l + 1)),
{
    let layer = &layers[l];
    let at: usize = 7 * l;
    let norm: i32 = hidden as i32;
    let qkv: i32 = (2 * hidden) as i32;
    let ffn: i32 = (6 * hidden) as i32;
    let k: i32 = hidden as i32;
    proof {
        assert(layers@[l as int].num_heads * 64 * 3 <= usize::MAX);
        assert forall|s: int| 0 <= s < 7 implies (#[trigger] (7 * l + s)) / 7 == l && (7 * l + s)
            % 7 == s by {}
    }
    push_task(
        tasks,
        Operands { op: GlaOpType::RmsNorm, input: 0, output: norm, aux: 0, n: 1, k },
        l,
        at,
    );
    push_task(
        tasks,
        Operands {
            op: GlaOpType::Dot4Gemv,
            input: norm,
            output: qkv,
            aux: 0,
            n: (layer.num_heads * 64 * 3) as i32,
            k,
        },
        l,
        at + 1,
    );
    push_task(tasks, mixer(layer, l, hidden), l, at + 2);
    push_task(
        tasks,
        Operands { op: GlaOpType::ResidualAdd, input: 0, output: 0, aux: norm, n: 1, k },
        l,
        at + 3,
    );
    push_task(
        tasks,
        Operands { op: GlaOpType::RmsNorm, input: 0, output: norm, aux: 0, n: 1, k },
        l,
        at + 4,
    );
    push_task(
        tasks,
        Operands {
            op: GlaOpType::FfnGateUpSilu,
            input: norm,
            output: ffn,
            aux: ffn + k,
            n: 1,
            k: (hidden * 2) as i32,
        },
        l,
        at + 5,
    );
    push_task(
        tasks,
        Operands { op: GlaOpType::ResidualAdd, input: 0, output: 0, aux: ffn, n: 1, k },
        l,
        at + 6,
    );
    assert(tasks@ =~= schedule_of(layers@, hidden as int).take(7 * (l + 1)));
}

impl MegaSchedule {
    /// Compiles a full decode step of `model` into a static stream.
    pub fn compile(model: &Lfm2, hidden: usize) -> (result: Result<MegaSchedule, Error>)
        requires
            schedule_fits(model.layers@, hidden as int),
        ensures
            model.layers@.len() == 0 ==> result == Err::<MegaSchedule, Error>(Error::ZeroLayers),
            model.layers@.len() > 0 ==> {
                &&& result matches Ok(schedule)
                &&& schedule.tasks@ == schedule_of(model.layers@, hidden as int)
                &&& schedule.num_counters == 7 * model.layers@.len() + 1
                &&& schedule.staging_pool_size == 16 * hidden
            },
    {
        let n: usize = model.layers.len();
        if n == 0 {
            return Err(Error::ZeroLayers);
        }
        let mut tasks: Vec<GlaMegakernelTask> = Vec::new();
        assert(tasks@ =~= schedule_of(model.layers@, hidden as int).take(0));
        let mut l: usize = 0;
        while l < n
            invariant
                l <= n,
                n == model.layers@.len(),
                schedule_fits(model.layers@, hidden as int),
                tasks@ == schedule_of(model.layers@, hidden as int).take(7 * l as int),
            decreases n - l,
        {
            push_layer(&mut tasks, &model.layers, l, hidden);
            l = l + 1;
        }
        push_task(
            &mut tasks,
            Operands {
                op: GlaOpType::RmsNorm,
                input: 0,
                output: hidden as i32,
                aux: 0,
                n: 1,
                k: hidden as i32,
            },
            n,
            7 * n,
        );
        assert(tasks@ =~= schedule_of(model.layers@, hidden as int));
        Ok(MegaSchedule { tasks, num_counters: 7 * n + 1, staging_pool_size: 16 * hidden })
    }
}

/// The stream is a chain: every task but the first waits for the counter that
/// the task before it posts, the first waits for none, and so no task waits
/// for one that comes later.
pub proof fn law_schedule_is_a_chain(layers: Seq<Lfm2Block>, hidden: int, at: int)
    requires
        7 * layers.len() + 1 <= i32::MAX,
        0 <= at < schedule_of(layers, hidden).len(),
    ensures
        schedule_of(layers, hidden)[at].post_counter_idx == at,
        schedule_of(layers, hidden)[at].dep_counter_idx == at - 1,
        at > 0 ==> schedule_of(layers, hidden)[at].dep_counter_idx == schedule_of(
            layers,
            hidden,
        )[at - 1].post_counter_idx,
{
}

/// Every counter is posted by exactly one task, and there are as many counters
/// as tasks.
pub proof fn law_each_counter_is_posted_once(layers: Seq<Lfm2Block>, hidden: int, a: int, b: int)
    requires
        7 * layers.len() + 1 <= i32::MAX,
        0 <= a < schedule_of(layers, hidden).len(),
        0 <= b < schedule_of(layers, hidden).len(),
        schedule_of(layers, hidden)[a].post_counter_idx == schedule_of(
            layers,
            hidden,
        )[b].post_counter_idx,
    ensures
        a == b,
{
    law_schedule_is_a_chain(layers, hidden, a);
    law_schedule_is_a_chain(layers, hidden, b);
}

/// What every task reads and writes lies in the staging pool, where the pool
/// can be addressed at all. The third task of a layer keeps its own state
/// outside the pool.
pub proof fn law_offsets_lie_in_pool(layers: Seq<Lfm2Block>, hidden: int, at: int)
    requires
        0 < hidden,
        16 * hidden <= i32::MAX,
        7 * layers.len() + 1 <= i32::MAX,
        0 <= at < schedule_of(layers, hidden).len(),
    ensures
        ({
            let task = schedule_of(layers, hidden)[at];
            &&& 0 <= task.in_offset < 16 * hidden
            &&& 0 <= task.out_offset < 16 * hidden
            &&& at % 7 != 2 ==> 0 <= task.aux_offset < 16 * hidden
        }),
{
}

/// What the seven tasks of a layer do, in their order.
pub proof fn law_layer_instruction_mix(layers: Seq<Lfm2Block>, hidden: int, l: int)
    requires
        0 <= l < layers.len(),
    ensures
        ({
            let s = schedule_of(layers, hidden);
            &&& s[7 * l].op_type == GlaOpType::RmsNorm.code()
            &&& s[7 * l + 1].op_type == GlaOpType::Dot4Gemv.code()
            &&& s[7 * l + 2].op_type == (if layers[l].attention_mode == Lfm2AttentionMode::Gdl {
                GlaOpType::Gdn2Recurrent.code()
            } else if layers[l].shortconv_in_proj is Some {
                GlaOpType::ShortConvFused.code()
            } else {
                GlaOpType::Dot4Gemv.code()
            })
            &&& s[7 * l + 3].op_type == GlaOpType::ResidualAdd.code()
            &&& s[7 * l + 4].op_type == GlaOpType::RmsNorm.code()
            &&& s[7 * l + 5].op_type == GlaOpType::FfnGateUpSilu.code()
            &&& s[7 * l + 6].op_type == GlaOpType::ResidualAdd.code()
        }),
{
}

/// A stack with a recurrent or a convolution layer uses at least five kinds of
/// instructions: five tasks of that layer are of five different kinds.
pub proof fn law_mixed_stack_uses_five_kinds(layers: Seq<Lfm2Block>, hidden: int, l: int)
    requires
        0 <= l < layers.len(),
        layers[l].attention_mode == Lfm2AttentionMode::Gdl || layers[l].shortconv_in_proj is Some,
    ensures
        ({
            let s = schedule_of(layers, hidden);
            let kinds = seq![
                s[7 * l].op_type,
                s[7 * l + 1].op_type,
                s[7 * l + 2].op_type,
                s[7 * l + 3].op_type,
                s[7 * l + 5].op_type,
            ];
            forall|a: int, b: int|
                0 <= a < b < 5 ==> #[trigger] kinds[a] != #[trigger] kinds[b]
        }),
{
    law_layer_instruction_mix(layers, hidden, l);
}

} // verus!
