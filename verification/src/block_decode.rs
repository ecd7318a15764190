//! A block gives one result, with a history or without, and decodes token by
//! token to what it prefills.

use crate::block_law::{
    gives_rows, law_block_in_two_calls, law_prefill_matches_cacheless, lemma_attended_once, stacks,
};
use crate::block_program::{law_block_is_well_shaped, AttentionDesign, BlockDesign, BlockOp, Reg};
use crate::block_run::{
    applied, input_only, is_applied, source_of, target_of, Attends, BlockValues,
};
use crate::rows::stacked;
use crate::scalar::{Number, Relation, ScalarOp, Scalars};
use vstd::prelude::*;

verus! {

/// What `some` and `other` give for the same rows is the same.
pub open spec fn agree_on<T, G, S>(some: G, other: S, op: BlockOp) -> bool where
    G: Fn(BlockOp, Vec<T>) -> Vec<T>,
    S: Fn(BlockOp, Vec<T>) -> Vec<T>,
 {
    forall|a: Seq<T>, r: Seq<T>, s: Seq<T>|
        #![trigger applied(some, op, a, r), applied(other, op, a, s)]
        applied(some, op, a, r) && applied(other, op, a, s) ==> r == s
}

/// Every part gives one result for the same rows.
pub open spec fn gives_once<T, G: Fn(BlockOp, Vec<T>) -> Vec<T>>(
    apply: G,
    design: &BlockDesign,
) -> bool {
    forall|op: BlockOp|
        is_applied(op) && design.well_shaped(op) ==> #[trigger] agree_on::<T, G, G>(
            apply,
            apply,
            op,
        )
}

/// Attention gives one result for the same rows.
pub open spec fn looks_once<T>(attends: Attends<T>) -> bool {
    forall|a: AttentionDesign, q: Seq<T>, k: Seq<T>, v: Seq<T>, o: Seq<T>, o2: Seq<T>|
        #![trigger attends(a, q, k, v, o), attends(a, q, k, v, o2)]
        attends(a, q, k, v, o) && attends(a, q, k, v, o2) ==> o == o2
}

proof fn lemma_causal_looks_once<
    T: Copy,
    F: Fn(ScalarOp, T, T) -> T,
    C: Fn(Number) -> T,
    Z: Fn(Relation, T, T) -> bool,
>(x: &Scalars<T, F, C, Z>, tokens: nat, past: nat)
    ensures
        looks_once(x.attends_causally(tokens, past)),
{
    let attends = x.attends_causally(tokens, past);
    assert forall|a: AttentionDesign, q: Seq<T>, k: Seq<T>, v: Seq<T>, o: Seq<T>, o2: Seq<T>|
        #![trigger attends(a, q, k, v, o), attends(a, q, k, v, o2)]
        attends(a, q, k, v, o) && attends(a, q, k, v, o2) implies o == o2 by {
        lemma_attended_once(x, a, tokens, past, q, k, v, o, o2);
    }
}

/// An operation on which two runs agree leads from the same values to the same.
pub(crate) proof fn lemma_steps_agree<
    T: Copy,
    F: Fn(ScalarOp, T, T) -> T,
    C: Fn(Number) -> T,
    Z: Fn(Relation, T, T) -> bool,
    G: Fn(BlockOp, Vec<T>) -> Vec<T>,
    S: Fn(BlockOp, Vec<T>) -> Vec<T>,
>(
    x: &Scalars<T, F, C, Z>,
    some: G,
    other: S,
    attends: Attends<T>,
    op: BlockOp,
    tokens: nat,
    before: BlockValues<T>,
    after: BlockValues<T>,
    after2: BlockValues<T>,
)
    requires
        is_applied(op) ==> agree_on::<T, G, S>(some, other, op),
        looks_once(attends),
        x.stepped(some, attends, op, tokens, before, after),
        x.stepped(other, attends, op, tokens, before, after2),
    ensures
        after == after2,
{
    match op {
        BlockOp::Attend { attention } => {
            assert(attends(
                attention,
                before.regs[Reg::Query],
                before.regs[Reg::Key],
                before.regs[Reg::Value],
                after.regs[Reg::Attended],
            ));
            assert(attends(
                attention,
                before.regs[Reg::Query],
                before.regs[Reg::Key],
                before.regs[Reg::Value],
                after2.regs[Reg::Attended],
            ));
        },
        BlockOp::SplitQkv { .. }
        | BlockOp::AppendHistory { .. }
        | BlockOp::Activate { .. }
        | BlockOp::Add { .. } => {},
        _ => {
            let (src, dst) = (source_of(op), target_of(op));
            assert(applied(some, op, before.regs[src], after.regs[dst]));
            assert(applied(other, op, before.regs[src], after2.regs[dst]));
        },
    }
}

/// Where two runs agree on every operation and causal attention does the rest,
/// an operation leads from the same values to the same.
pub(crate) proof fn lemma_causal_steps_agree<
    T: Copy,
    F: Fn(ScalarOp, T, T) -> T,
    C: Fn(Number) -> T,
    Z: Fn(Relation, T, T) -> bool,
    G: Fn(BlockOp, Vec<T>) -> Vec<T>,
    S: Fn(BlockOp, Vec<T>) -> Vec<T>,
>(
    x: &Scalars<T, F, C, Z>,
    some: G,
    other: S,
    op: BlockOp,
    tokens: nat,
    past: nat,
    before: BlockValues<T>,
    after: BlockValues<T>,
    after2: BlockValues<T>,
)
    requires
        is_applied(op) ==> agree_on::<T, G, S>(some, other, op),
        x.stepped(some, x.attends_causally(tokens, past), op, tokens, before, after),
        x.stepped(other, x.attends_causally(tokens, past), op, tokens, before, after2),
    ensures
        after == after2,
{
    lemma_causal_looks_once(x, tokens, past);
    lemma_steps_agree(
        x,
        some,
        other,
        x.attends_causally(tokens, past),
        op,
        tokens,
        before,
        after,
        after2,
    );
}

pub(crate) proof fn lemma_traces_agree<
    T: Copy,
    F: Fn(ScalarOp, T, T) -> T,
    C: Fn(Number) -> T,
    Z: Fn(Relation, T, T) -> bool,
    G: Fn(BlockOp, Vec<T>) -> Vec<T>,
>(
    x: &Scalars<T, F, C, Z>,
    apply: G,
    attends: Attends<T>,
    design: &BlockDesign,
    tokens: nat,
    trace: Seq<BlockValues<T>>,
    other: Seq<BlockValues<T>>,
    i: int,
)
    requires
        design.fits(),
        gives_once(apply, design),
        looks_once(attends),
        x.block_ran(apply, attends, design, tokens, trace),
        x.block_ran(apply, attends, design, tokens, other),
        trace[0] == other[0],
        0 <= i <= design.ops().len(),
    ensures
        trace[i] == other[i],
    decreases i,
{
    if i > 0 {
        lemma_traces_agree(x, apply, attends, design, tokens, trace, other, i - 1);
        law_block_is_well_shaped(design, i - 1);
        let op = design.ops()[i - 1];
        assert(x.stepped(apply, attends, op, tokens, trace[i - 1], trace[i]));
        assert(x.stepped(apply, attends, op, tokens, other[i - 1], other[i]));
        lemma_steps_agree(
            x,
            apply,
            apply,
            attends,
            op,
            tokens,
            trace[i - 1],
            trace[i],
            other[i],
        );
    }
}

/// A block gives one result: two runs on the same rows and the same history give
/// the same rows and leave the same history, where every part gives one result.
pub proof fn law_block_gives_once<
    T: Copy,
    F: Fn(ScalarOp, T, T) -> T,
    C: Fn(Number) -> T,
    Z: Fn(Relation, T, T) -> bool,
    G: Fn(BlockOp, Vec<T>) -> Vec<T>,
>(
    x: &Scalars<T, F, C, Z>,
    apply: G,
    design: &BlockDesign,
    tokens: nat,
    past: nat,
    input: Seq<T>,
    k: Seq<T>,
    v: Seq<T>,
    out: Seq<T>,
    k_after: Seq<T>,
    v_after: Seq<T>,
    out2: Seq<T>,
    k_after2: Seq<T>,
    v_after2: Seq<T>,
)
    requires
        design.fits(),
        gives_once(apply, design),
        x.block_done(
            apply,
            x.attends_causally(tokens, past),
            design,
            tokens,
            input,
            k,
            v,
            out,
            k_after,
            v_after,
        ),
        x.block_done(
            apply,
            x.attends_causally(tokens, past),
            design,
            tokens,
            input,
            k,
            v,
            out2,
            k_after2,
            v_after2,
        ),
    ensures
        out == out2,
        k_after == k_after2,
        v_after == v_after2,
{
    let attends = x.attends_causally(tokens, past);
    let start = BlockValues { regs: input_only(input), k, v };
    let trace = choose|trace: Seq<BlockValues<T>>| #[trigger]
        x.block_ran(apply, attends, design, tokens, trace) && trace[0] == start
            && trace.last().regs[Reg::Output] == out && trace.last().k == k_after
            && trace.last().v == v_after;
    let other = choose|trace: Seq<BlockValues<T>>| #[trigger]
        x.block_ran(apply, attends, design, tokens, trace) && trace[0] == start
            && trace.last().regs[Reg::Output] == out2 && trace.last().k == k_after2
            && trace.last().v == v_after2;
    lemma_causal_looks_once(x, tokens, past);
    lemma_traces_agree(
        x,
        apply,
        attends,
        design,
        tokens,
        trace,
        other,
        design.ops().len() as int,
    );
}

/// The rows of a prefill are those of the cacheless run: a block on an empty
/// history and the same block without one give the same rows.
pub proof fn law_prefill_gives_cacheless_rows<
    T: Copy,
    F: Fn(ScalarOp, T, T) -> T,
    C: Fn(Number) -> T,
    Z: Fn(Relation, T, T) -> bool,
    G: Fn(BlockOp, Vec<T>) -> Vec<T>,
>(
    x: &Scalars<T, F, C, Z>,
    apply: G,
    design: &BlockDesign,
    tokens: nat,
    input: Seq<T>,
    out: Seq<T>,
    k_after: Seq<T>,
    v_after: Seq<T>,
    k: Seq<T>,
    v: Seq<T>,
    bare_out: Seq<T>,
    bare_k: Seq<T>,
    bare_v: Seq<T>,
)
    requires
        design.attention.cached,
        design.cacheless().fits(),
        gives_once(apply, &design.cacheless()),
        x.block_done(
            apply,
            x.attends_causally(tokens, 0),
            design,
            tokens,
            input,
            Seq::empty(),
            Seq::empty(),
            out,
            k_after,
            v_after,
        ),
        x.block_done(
            apply,
            x.attends_causally(tokens, 0),
            &design.cacheless(),
            tokens,
            input,
            k,
            v,
            bare_out,
            bare_k,
            bare_v,
        ),
    ensures
        bare_out == out,
        bare_k == k,
        bare_v == v,
{
    law_prefill_matches_cacheless(x, apply, design, tokens, input, out, k_after, v_after, k, v);
    law_block_gives_once(
        x,
        apply,
        &design.cacheless(),
        tokens,
        0,
        input,
        k,
        v,
        bare_out,
        bare_k,
        bare_v,
        out,
        k,
        v,
    );
}

/// A call of a block: the rows it takes, the rows it gives, and the history that
/// it leaves.
pub struct BlockCall<T> {
    pub input: Seq<T>,
    pub out: Seq<T>,
    pub k: Seq<T>,
    pub v: Seq<T>,
}

impl<T: Copy, F: Fn(ScalarOp, T, T) -> T, C: Fn(Number) -> T, Z: Fn(Relation, T, T) -> bool> Scalars<T, F, C, Z> {
    /// A call ran on `tokens` tokens behind `past` others, whose history is `k`
    /// and `v`.
    pub open spec fn block_called<G: Fn(BlockOp, Vec<T>) -> Vec<T>>(
        &self,
        apply: G,
        design: &BlockDesign,
        tokens: nat,
        past: nat,
        k: Seq<T>,
        v: Seq<T>,
        call: BlockCall<T>,
    ) -> bool {
        &&& call.input.len() == tokens * design.hidden
        &&& self.block_done(
            apply,
            self.attends_causally(tokens, past),
            design,
            tokens,
            call.input,
            k,
            v,
            call.out,
            call.k,
            call.v,
        )
    }

    /// One call for every token, each behind what the one before it left.
    pub open spec fn block_decoded<G: Fn(BlockOp, Vec<T>) -> Vec<T>>(
        &self,
        apply: G,
        design: &BlockDesign,
        past: nat,
        k: Seq<T>,
        v: Seq<T>,
        calls: Seq<BlockCall<T>>,
    ) -> bool {
        forall|i: int|
            0 <= i < calls.len() ==> self.block_called(
                apply,
                design,
                1,
                (past + i) as nat,
                if i == 0 {
                    k
                } else {
                    calls[i - 1].k
                },
                if i == 0 {
                    v
                } else {
                    calls[i - 1].v
                },
                #[trigger] calls[i],
            )
    }
}

/// The rows that calls take, one after the other.
pub open spec fn inputs_of<T>(calls: Seq<BlockCall<T>>) -> Seq<T> {
    stacked(Seq::new(calls.len(), |i: int| calls[i].input))
}

/// The rows that calls give, one after the other.
pub open spec fn outs_of<T>(calls: Seq<BlockCall<T>>) -> Seq<T> {
    stacked(Seq::new(calls.len(), |i: int| calls[i].out))
}

proof fn lemma_calls_unfold<T>(calls: Seq<BlockCall<T>>)
    requires
        calls.len() > 0,
    ensures
        inputs_of(calls) == inputs_of(calls.drop_last()) + calls.last().input,
        outs_of(calls) == outs_of(calls.drop_last()) + calls.last().out,
{
    let n = calls.len();
    let inputs = Seq::new(n, |i: int| calls[i].input);
    let outs = Seq::new(n, |i: int| calls[i].out);
    let fewer = calls.drop_last();
    assert(inputs.drop_last() =~= Seq::new(fewer.len(), |i: int| fewer[i].input));
    assert(outs.drop_last() =~= Seq::new(fewer.len(), |i: int| fewer[i].out));
}

/// Decoding token by token is prefilling: calls of one row each, sharing a
/// history, give the rows that one call on all of them gives, and leave the same
/// history. `prefills` are the calls on the first token, on the first two, and
/// so on.
pub proof fn law_block_decode_matches_prefill<
    T: Copy,
    F: Fn(ScalarOp, T, T) -> T,
    C: Fn(Number) -> T,
    Z: Fn(Relation, T, T) -> bool,
    G: Fn(BlockOp, Vec<T>) -> Vec<T>,
>(
    x: &Scalars<T, F, C, Z>,
    apply: G,
    design: &BlockDesign,
    past: nat,
    k: Seq<T>,
    v: Seq<T>,
    calls: Seq<BlockCall<T>>,
    prefills: Seq<BlockCall<T>>,
)
    requires
        design.fits(),
        design.attention.cached,
        design.attention.kv_heads > 0,
        calls.len() >= 1,
        prefills.len() == calls.len(),
        gives_once(apply, design),
        forall|n: nat| 1 <= n < calls.len() ==> #[trigger] stacks::<T, G, G, G>(
            apply,
            apply,
            apply,
            design,
            n,
            1,
        ),
        forall|n: nat| 1 <= n <= calls.len() ==> #[trigger] gives_rows::<T, G>(apply, design, n),
        k.len() == past * design.kv_dim(),
        v.len() == past * design.kv_dim(),
        x.block_decoded(apply, design, past, k, v, calls),
        forall|i: int|
            0 <= i < calls.len() ==> x.block_called(
                apply,
                design,
                (i + 1) as nat,
                past,
                k,
                v,
                #[trigger] prefills[i],
            ) && prefills[i].input == inputs_of(calls.take(i + 1)),
    ensures
        prefills.last().out == outs_of(calls),
        prefills.last().k == calls.last().k,
        prefills.last().v == calls.last().v,
    decreases calls.len(),
{
    let n = calls.len();
    let last = n - 1;
    assert(calls.take(n as int) =~= calls);
    lemma_calls_unfold(calls);
    assert(calls[last] == calls.last());
    assert(prefills[last] == prefills.last());
    if n == 1 {
        assert(calls.drop_last().len() == 0);
        assert(outs_of(calls) =~= calls[0].out);
        assert(inputs_of(calls) =~= calls[0].input);
        law_block_gives_once(
            x,
            apply,
            design,
            1,
            past,
            calls[0].input,
            k,
            v,
            prefills[0].out,
            prefills[0].k,
            prefills[0].v,
            calls[0].out,
            calls[0].k,
            calls[0].v,
        );
    } else {
        let fewer = calls.drop_last();
        let shorter = prefills.drop_last();
        assert forall|i: int| 0 <= i < fewer.len() implies x.block_called(
            apply,
            design,
            1,
            (past + i) as nat,
            if i == 0 {
                k
            } else {
                fewer[i - 1].k
            },
            if i == 0 {
                v
            } else {
                fewer[i - 1].v
            },
            #[trigger] fewer[i],
        ) by {
            assert(fewer[i] == calls[i]);
        }
        assert forall|i: int| 0 <= i < fewer.len() implies x.block_called(
            apply,
            design,
            (i + 1) as nat,
            past,
            k,
            v,
            #[trigger] shorter[i],
        ) && shorter[i].input == inputs_of(fewer.take(i + 1)) by {
            assert(shorter[i] == prefills[i]);
            assert(fewer.take(i + 1) =~= calls.take(i + 1));
        }
        law_block_decode_matches_prefill(x, apply, design, past, k, v, fewer, shorter);
        assert(shorter.last() == prefills[last - 1]);
        assert(fewer.last() == calls[last - 1]);
        assert(calls.take(last) =~= fewer);
        law_block_in_two_calls(
            x,
            apply,
            apply,
            apply,
            design,
            last as nat,
            1,
            past,
            prefills[last - 1].input,
            calls[last].input,
            k,
            v,
            prefills[last - 1].out,
            prefills[last - 1].k,
            prefills[last - 1].v,
            calls[last].out,
            calls[last].k,
            calls[last].v,
            prefills[last].out,
            prefills[last].k,
            prefills[last].v,
        );
    }
}

} // verus!
