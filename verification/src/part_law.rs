//! Which weights reach which rows: every part of a layer works on its own rows, and a
//! block uses every weight once, in one order.

use crate::block_program::{BlockDesign, BlockOp, Part, Reg};
use crate::lfm2::Lfm2Block;
use crate::lfm2_run::{HostState, Lfm2HostWeights, Lfm2Part, Lfm2Rows};
use crate::scalar::{Number, Relation, ScalarOp, Scalars};
use crate::surroundings::{HeadShape, Surroundings};
use vstd::prelude::*;

verus! {

/// A part gives the rows that it is handed.
pub open spec fn leaves_rows<P, T, G, R, H>(outside: &Surroundings<G, R, H>, part: P) -> bool where
    G: Fn(P, Vec<T>) -> Vec<T>,
 {
    forall|before: Seq<T>, after: Seq<T>| #[trigger]
        outside.part_ran(part, before, after) ==> after == before
}

/// Every norm of a layer works on its own rows: one that changes nothing leaves what
/// it stands before as it is, whatever the other norms do.
pub proof fn law_norms_reach_their_own_rows<
    T: Copy,
    F: Fn(ScalarOp, T, T) -> T,
    C: Fn(Number) -> T,
    Z: Fn(Relation, T, T) -> bool,
    G: Fn(Lfm2Part, Vec<T>) -> Vec<T>,
    R: Fn(Vec<T>, Vec<u32>) -> Vec<T>,
    H: Fn(HeadShape, Vec<T>, Vec<T>, Vec<T>) -> Vec<T>,
>(
    x: &Scalars<T, F, C, Z>,
    outside: &Surroundings<G, R, H>,
    block: &Lfm2Block,
    w: &Lfm2HostWeights<T>,
    hidden: nat,
    steps: nat,
    before: HostState<T>,
    after: HostState<T>,
    input: Seq<T>,
    rows: Lfm2Rows<T>,
    out: Seq<T>,
)
    requires
        x.step_ran(outside, block, w, hidden, steps, before, after, input, rows, out),
    ensures
        leaves_rows(outside, Lfm2Part::AttnNorm) ==> rows.normed == input,
        leaves_rows(outside, Lfm2Part::FfnNorm) ==> rows.ffn_normed == x.residual(
            input,
            rows.mixed,
            None,
        ),
        !block.convolves() && leaves_rows(outside, Lfm2Part::QueryNorm) ==> rows.q_norm == rows.q,
        !block.convolves() && leaves_rows(outside, Lfm2Part::KeyNorm) ==> rows.k_norm == rows.k,
{
}

/// A layer whose mixer and whose feed-forward part give zeros passes its rows on.
pub proof fn law_silent_layer_passes_rows_on<
    T: Copy,
    F: Fn(ScalarOp, T, T) -> T,
    C: Fn(Number) -> T,
    Z: Fn(Relation, T, T) -> bool,
    G: Fn(Lfm2Part, Vec<T>) -> Vec<T>,
    R: Fn(Vec<T>, Vec<u32>) -> Vec<T>,
    H: Fn(HeadShape, Vec<T>, Vec<T>, Vec<T>) -> Vec<T>,
>(
    x: &Scalars<T, F, C, Z>,
    outside: &Surroundings<G, R, H>,
    block: &Lfm2Block,
    w: &Lfm2HostWeights<T>,
    hidden: nat,
    steps: nat,
    before: HostState<T>,
    after: HostState<T>,
    input: Seq<T>,
    rows: Lfm2Rows<T>,
    out: Seq<T>,
)
    requires
        x.ring(),
        input.len() == steps * hidden,
        x.step_ran(outside, block, w, hidden, steps, before, after, input, rows, out),
        rows.mixed == Seq::new(input.len(), |i: int| x.zero()),
        rows.down == Seq::new(input.len(), |i: int| x.zero()),
    ensures
        out == input,
{
    assert forall|i: int| 0 <= i < input.len() implies out[i] == input[i] by {
        x.plus_zero(input[i]);
    }
    assert(out =~= input);
}

/// The weight that an operation of a block works with.
pub open spec fn weight_of(op: BlockOp) -> Option<Part> {
    match op {
        BlockOp::Norm { part, .. } => Some(part),
        BlockOp::Linear { part, .. } => Some(part),
        BlockOp::HeadNorm { part, .. } => Some(part),
        _ => None,
    }
}

/// Where a weight stands in the order in which a block uses them.
pub open spec fn turn_of(part: Part) -> int {
    match part {
        Part::InputNorm => 0,
        Part::Qkv => 1,
        Part::Query => 2,
        Part::Key => 3,
        Part::Value => 4,
        Part::QueryNorm => 5,
        Part::KeyNorm => 6,
        Part::AttnOut => 7,
        Part::PostAttnNorm => 8,
        Part::FfnNorm => 9,
        Part::Gate => 10,
        Part::Up => 11,
        Part::Down => 12,
        Part::PostFfnNorm => 13,
    }
}

/// The weights of some operations follow each other, all of them from turn `low`
/// and before turn `high`.
spec fn in_turn(ops: Seq<BlockOp>, low: int, high: int) -> bool {
    &&& forall|i: int|
        0 <= i < ops.len() ==> (weight_of(#[trigger] ops[i]) matches Some(p) ==> low <= turn_of(p)
            < high)
    &&& forall|i: int, j: int|
        0 <= i < j < ops.len() ==> (weight_of(#[trigger] ops[i]) matches Some(p) ==> (weight_of(
            #[trigger] ops[j],
        ) matches Some(q) ==> turn_of(p) < turn_of(q)))
}

proof fn lemma_in_turn(a: Seq<BlockOp>, b: Seq<BlockOp>, low: int, mid: int, high: int)
    requires
        low <= mid <= high,
        in_turn(a, low, mid),
        in_turn(b, mid, high),
    ensures
        in_turn(a + b, low, high),
{
    let both = a + b;
    assert forall|i: int| 0 <= i < both.len() implies (weight_of(#[trigger] both[i]) matches Some(
        p,
    ) ==> low <= turn_of(p) < high) by {
        if i < a.len() {
            assert(both[i] == a[i]);
        } else {
            assert(both[i] == b[i - a.len()]);
        }
    }
    assert forall|i: int, j: int| 0 <= i < j < both.len() implies (weight_of(
        #[trigger] both[i],
    ) matches Some(p) ==> (weight_of(#[trigger] both[j]) matches Some(q) ==> turn_of(p) < turn_of(
        q,
    ))) by {
        if i < a.len() {
            assert(both[i] == a[i]);
        } else {
            assert(both[i] == b[i - a.len()]);
        }
        if j < a.len() {
            assert(both[j] == a[j]);
        } else {
            assert(both[j] == b[j - a.len()]);
        }
    }
}

/// A block uses every weight at most once, and its weights in one order, whatever
/// its design; the norms of queries and keys each go over their own heads.
pub proof fn law_block_uses_every_weight_once(design: &BlockDesign, i: int, j: int)
    requires
        0 <= i < design.ops().len(),
        0 <= j < design.ops().len(),
    ensures
        i < j && weight_of(design.ops()[i]) is Some && weight_of(design.ops()[j]) is Some
            ==> turn_of(weight_of(design.ops()[i])->0) < turn_of(weight_of(design.ops()[j])->0),
        weight_of(design.ops()[i]) is Some && weight_of(design.ops()[i]) == weight_of(
            design.ops()[j],
        ) ==> i == j,
        design.ops()[i] matches BlockOp::HeadNorm { reg, part, heads, .. } ==> {
            ||| reg == Reg::Query && part == Part::QueryNorm && heads == design.attention.heads
            ||| reg == Reg::Key && part == Part::KeyNorm && heads == design.attention.kv_heads
        },
{
    let (a, b, c, d) = (
        design.project_ops(),
        design.shape_ops(),
        design.attend_ops(),
        design.tail_ops(),
    );
    assert(in_turn(a, 0, 5));
    assert(in_turn(b, 5, 7));
    assert(in_turn(c, 7, 9));
    lemma_tail_in_turn(design);
    lemma_in_turn(a, b, 0, 5, 7);
    lemma_in_turn(a + b, c, 0, 7, 9);
    lemma_in_turn(a + b + c, d, 0, 9, 14);
    assert(design.ops() == a + b + c + d);
    if i < a.len() {
        assert(design.ops()[i] == a[i]);
    } else if i < a.len() + b.len() {
        assert(design.ops()[i] == b[i - a.len()]);
    } else if i < a.len() + b.len() + c.len() {
        assert(design.ops()[i] == c[i - a.len() - b.len()]);
    } else {
        let at = i - a.len() - b.len() - c.len();
        assert(design.ops()[i] == d[at]);
        assert(!(d[at] is HeadNorm));
    }
}

proof fn lemma_tail_in_turn(design: &BlockDesign)
    ensures
        in_turn(design.tail_ops(), 9, 14),
        forall|i: int|
            0 <= i < design.tail_ops().len() ==> !((#[trigger] design.tail_ops()[i]) is HeadNorm),
{
}

} // verus!
