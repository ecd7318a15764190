//! What a MiniCPM pass promises: pages hold rotated keys, and a session with pages
//! gives what a session without them gives.

use crate::block_decode::{gives_once, lemma_traces_agree, looks_once};
use crate::block_law::lemma_heads_decide;
use crate::block_program::{AttentionDesign, BlockOp, Reg};
use crate::block_run::{applied, input_only, lemma_attends_once, Attends, BlockValues};
use crate::device::DeviceBuffer;
use crate::kv_attention::head_block;
use crate::minicpm::{law_paged_attention_is_prefilled, part, MiniCpmBlock, MiniCpmConfig};
use crate::minicpm_pass::{end_ran, MiniCpmPart, MiniCpmRun};
use crate::minicpm_run::{PagedHandles, PagedHistory, PagedSession};
use crate::scalar::{Number, Relation, ScalarOp, Scalars};
use vstd::prelude::*;

verus! {

/// The operation rotates keys.
pub open spec fn rotates_keys(op: BlockOp) -> bool {
    op matches BlockOp::Rope { reg, .. } && reg == Reg::Key
}

/// The pages of a session get rotated keys: what a block puts into them, and
/// returns, are keys that its rotation gave, and its values.
pub proof fn law_pages_get_rotated_keys<
    T: Copy,
    F: Fn(ScalarOp, T, T) -> T,
    C: Fn(Number) -> T,
    Z: Fn(Relation, T, T) -> bool,
    A: Fn(usize, Vec<T>, Vec<T>) -> bool,
    B: Fn(usize) -> Option<PagedHandles>,
    E: Fn(DeviceBuffer, Vec<usize>, usize, usize, usize) -> Option<Vec<T>>,
    K,
    G: Fn(BlockOp, Vec<T>) -> Vec<T>,
>(
    x: &Scalars<T, F, C, Z>,
    block: &MiniCpmBlock,
    session: &PagedSession<A, B, E, K>,
    apply: G,
    layer: usize,
    past: nat,
    tokens: nat,
    history: PagedHistory<T>,
    input: Seq<T>,
    out: Seq<T>,
    k: Seq<T>,
    v: Seq<T>,
)
    requires
        x.layer_paged(
            block,
            session,
            apply,
            layer,
            past,
            tokens,
            history,
            input,
            out,
            k,
            v,
        ),
    ensures
        session.has_pages ==> session.appended(layer, k, v, true) || session.appended(
            layer,
            k,
            v,
            false,
        ),
        exists|op: BlockOp, raw: Seq<T>|
            rotates_keys(op) && #[trigger] applied(apply, op, raw, k),
{
    let design = block.design();
    let attends = block.attends_paged(x, session, layer, past, tokens, history);
    let front = design.front();
    let trace = choose|trace: Seq<BlockValues<T>>| #[trigger]
        x.block_ran(apply, attends, &design, tokens, trace) && trace[0] == (BlockValues {
            regs: input_only(input),
            k: Seq::empty(),
            v: Seq::empty(),
        }) && trace.last().regs[Reg::Output] == out && trace[front].regs[Reg::Key] == k
            && trace[front].regs[Reg::Value] == v;
    assert(front == 6);
    assert(rotates_keys(design.ops()[5]));
    lemma_attends_once(&design, front);
    assert(x.stepped(apply, attends, design.ops()[front], tokens, trace[front], trace[front + 1]));
    assert(x.stepped(apply, attends, design.ops()[5], tokens, trace[5], trace[6]));
    assert(applied(apply, design.ops()[5], trace[5].regs[Reg::Key], k));
}

impl MiniCpmBlock {
    /// Attention over the rows of the call themselves.
    pub open spec fn attends_own<
        T: Copy,
        F: Fn(ScalarOp, T, T) -> T,
        C: Fn(Number) -> T,
        Z: Fn(Relation, T, T) -> bool,
    >(&self, x: &Scalars<T, F, C, Z>, tokens: nat) -> Attends<T> {
        |a: AttentionDesign, q: Seq<T>, k: Seq<T>, v: Seq<T>, out: Seq<T>|
            out.len() == tokens * self.q_row() && self.prefilled_done(x, q, k, v, tokens, out, 0)
    }
}

proof fn lemma_own_looks_once<
    T: Copy,
    F: Fn(ScalarOp, T, T) -> T,
    C: Fn(Number) -> T,
    Z: Fn(Relation, T, T) -> bool,
>(x: &Scalars<T, F, C, Z>, block: &MiniCpmBlock, tokens: nat)
    ensures
        looks_once(block.attends_own(x, tokens)),
{
    let attends = block.attends_own(x, tokens);
    let heads = block.cfg.local_num_heads as nat;
    let dim = block.cfg.head_dim as nat;
    let row = heads * dim;
    let kv_row = (block.cfg.local_num_kv_heads * block.cfg.head_dim) as nat;
    assert(block.q_row() == row) by {
        assert(0 <= heads * dim) by (nonlinear_arith);
    }
    assert forall|a: AttentionDesign, q: Seq<T>, k: Seq<T>, v: Seq<T>, o: Seq<T>, o2: Seq<T>|
        #![trigger attends(a, q, k, v, o), attends(a, q, k, v, o2)]
        attends(a, q, k, v, o) && attends(a, q, k, v, o2) implies o == o2 by {
        assert(part(o, 0, tokens * row) =~= o);
        assert(part(o2, 0, tokens * row) =~= o2);
        assert forall|t: int, h: int| 0 <= t < tokens && 0 <= h < heads implies #[trigger] head_block(
            o,
            t,
            h,
            row,
            dim,
        ) == head_block(o2, t, h, row, dim) by {
            assert(head_block(part(o, 0, tokens * row), t, h, row, dim) == head_block(
                part(o2, 0, tokens * row),
                t,
                h,
                row,
                dim,
            ));
        }
        lemma_heads_decide(o, o2, tokens, heads, dim);
    }
}

/// What came out of pages, if anything did, is what the call put into them.
pub open spec fn reads_own<T>(history: PagedHistory<T>, k: Seq<T>, v: Seq<T>) -> bool {
    history matches Some((k_hist, v_hist)) ==> k_hist == k && v_hist == v
}

/// A layer of a first call whose pages hold the rows of the call runs as one
/// that reads them itself.
proof fn lemma_layer_reads_own<
    T: Copy,
    F: Fn(ScalarOp, T, T) -> T,
    C: Fn(Number) -> T,
    Z: Fn(Relation, T, T) -> bool,
    A: Fn(usize, Vec<T>, Vec<T>) -> bool,
    B: Fn(usize) -> Option<PagedHandles>,
    E: Fn(DeviceBuffer, Vec<usize>, usize, usize, usize) -> Option<Vec<T>>,
    K,
    G: Fn(BlockOp, Vec<T>) -> Vec<T>,
>(
    x: &Scalars<T, F, C, Z>,
    block: &MiniCpmBlock,
    session: &PagedSession<A, B, E, K>,
    apply: G,
    layer: usize,
    tokens: nat,
    history: PagedHistory<T>,
    input: Seq<T>,
    out: Seq<T>,
    k: Seq<T>,
    v: Seq<T>,
) -> (trace: Seq<BlockValues<T>>)
    requires
        0 < block.cfg.local_num_kv_heads,
        block.cfg.local_num_heads % block.cfg.local_num_kv_heads == 0,
        x.layer_paged(block, session, apply, layer, 0, tokens, history, input, out, k, v),
        reads_own(history, k, v),
    ensures
        x.block_ran(apply, block.attends_own(x, tokens), &block.design(), tokens, trace),
        trace[0] == (BlockValues { regs: input_only(input), k: Seq::empty(), v: Seq::empty() }),
        trace.last().regs[Reg::Output] == out,
        trace[block.design().front()].regs[Reg::Key] == k,
        trace[block.design().front()].regs[Reg::Value] == v,
{
    let design = block.design();
    let paged = block.attends_paged(x, session, layer, 0, tokens, history);
    let own = block.attends_own(x, tokens);
    let front = design.front();
    let trace = choose|trace: Seq<BlockValues<T>>| #[trigger]
        x.block_ran(apply, paged, &design, tokens, trace) && trace[0] == (BlockValues {
            regs: input_only(input),
            k: Seq::empty(),
            v: Seq::empty(),
        }) && trace.last().regs[Reg::Output] == out && trace[front].regs[Reg::Key] == k
            && trace[front].regs[Reg::Value] == v;
    assert forall|i: int| 0 <= i < design.ops().len() implies x.stepped(
        apply,
        own,
        #[trigger] design.ops()[i],
        tokens,
        trace[i],
        trace[i + 1],
    ) by {
        assert(x.stepped(apply, paged, design.ops()[i], tokens, trace[i], trace[i + 1]));
        lemma_attends_once(&design, i);
        if i == front {
            let q = trace[i].regs[Reg::Query];
            let o = trace[i + 1].regs[Reg::Attended];
            assert(block.attended_paged(x, session, layer, 0, tokens, history, q, k, v, o));
            law_paged_attention_is_prefilled(x, block, q, k, v, tokens, o);
        }
    }
    assert(x.block_ran(apply, own, &design, tokens, trace));
    trace
}

proof fn lemma_layers_agree<
    T: Copy,
    F: Fn(ScalarOp, T, T) -> T,
    C: Fn(Number) -> T,
    Z: Fn(Relation, T, T) -> bool,
    A: Fn(usize, Vec<T>, Vec<T>) -> bool,
    B: Fn(usize) -> Option<PagedHandles>,
    E: Fn(DeviceBuffer, Vec<usize>, usize, usize, usize) -> Option<Vec<T>>,
    K,
    A2: Fn(usize, Vec<T>, Vec<T>) -> bool,
    B2: Fn(usize) -> Option<PagedHandles>,
    E2: Fn(DeviceBuffer, Vec<usize>, usize, usize, usize) -> Option<Vec<T>>,
    K2,
    G: Fn(BlockOp, Vec<T>) -> Vec<T>,
>(
    x: &Scalars<T, F, C, Z>,
    block: &MiniCpmBlock,
    paged: &PagedSession<A, B, E, K>,
    classic: &PagedSession<A2, B2, E2, K2>,
    applies: Seq<G>,
    tokens: nat,
    input: Seq<T>,
    run: MiniCpmRun<T>,
    other: MiniCpmRun<T>,
    n: int,
)
    requires
        block.design().fits(),
        0 < block.cfg.local_num_kv_heads,
        block.cfg.local_num_heads % block.cfg.local_num_kv_heads == 0,
        forall|l: int|
            0 <= l < applies.len() ==> gives_once::<T, G>(#[trigger] applies[l], &block.design()),
        x.layers_paged(block, paged, applies, 0, tokens, input, run, applies.len() as int),
        x.layers_paged(block, classic, applies, 0, tokens, input, other, applies.len() as int),
        forall|l: int|
            0 <= l < applies.len() ==> reads_own(#[trigger] run.histories[l], run.k[l], run.v[l]),
        forall|l: int|
            0 <= l < applies.len() ==> reads_own(
                #[trigger] other.histories[l],
                other.k[l],
                other.v[l],
            ),
        0 <= n <= applies.len(),
    ensures
        run.rows[n] == other.rows[n],
        forall|l: int|
            0 <= l < n ==> #[trigger] run.k[l] == other.k[l] && run.v[l] == other.v[l],
    decreases n,
{
    if n > 0 {
        let l = n - 1;
        lemma_layers_agree(x, block, paged, classic, applies, tokens, input, run, other, l);
        assert(reads_own(run.histories[l], run.k[l], run.v[l]));
        assert(reads_own(other.histories[l], other.k[l], other.v[l]));
        assert(gives_once::<T, G>(applies[l], &block.design()));
        let trace = lemma_layer_reads_own(
            x,
            block,
            paged,
            applies[l],
            l as usize,
            tokens,
            run.histories[l],
            run.rows[l],
            run.rows[l + 1],
            run.k[l],
            run.v[l],
        );
        let trace2 = lemma_layer_reads_own(
            x,
            block,
            classic,
            applies[l],
            l as usize,
            tokens,
            other.histories[l],
            other.rows[l],
            other.rows[l + 1],
            other.k[l],
            other.v[l],
        );
        let design = block.design();
        let own = block.attends_own(x, tokens);
        lemma_own_looks_once(x, block, tokens);
        lemma_traces_agree(
            x,
            applies[l],
            own,
            &design,
            tokens,
            trace,
            trace2,
            design.ops().len() as int,
        );
        lemma_traces_agree(
            x,
            applies[l],
            own,
            &design,
            tokens,
            trace,
            trace2,
            design.front(),
        );
    }
}

/// Paged matches classic: where pages give back what a first call put into them
/// and every part gives one result, a pass over a session with pages gives the
/// logits of a pass over a session without them, the same normed rows, and the
/// same keys and values.
pub proof fn law_paged_pass_matches_classic<
    T: Copy,
    F: Fn(ScalarOp, T, T) -> T,
    C: Fn(Number) -> T,
    Z: Fn(Relation, T, T) -> bool,
    A: Fn(usize, Vec<T>, Vec<T>) -> bool,
    B: Fn(usize) -> Option<PagedHandles>,
    E: Fn(DeviceBuffer, Vec<usize>, usize, usize, usize) -> Option<Vec<T>>,
    K,
    A2: Fn(usize, Vec<T>, Vec<T>) -> bool,
    B2: Fn(usize) -> Option<PagedHandles>,
    E2: Fn(DeviceBuffer, Vec<usize>, usize, usize, usize) -> Option<Vec<T>>,
    K2,
    G: Fn(BlockOp, Vec<T>) -> Vec<T>,
    P: Fn(MiniCpmPart, Vec<T>) -> Vec<T>,
>(
    x: &Scalars<T, F, C, Z>,
    cfg: &MiniCpmConfig,
    block: &MiniCpmBlock,
    paged: &PagedSession<A, B, E, K>,
    classic: &PagedSession<A2, B2, E2, K2>,
    applies: Seq<G>,
    ends: P,
    tokens: nat,
    input: Seq<T>,
    run: MiniCpmRun<T>,
    logits: Seq<T>,
    other: MiniCpmRun<T>,
    other_logits: Seq<T>,
)
    requires
        block.design().fits(),
        0 < block.cfg.local_num_kv_heads,
        block.cfg.local_num_heads % block.cfg.local_num_kv_heads == 0,
        forall|l: int|
            0 <= l < applies.len() ==> gives_once::<T, G>(#[trigger] applies[l], &block.design()),
        forall|p: MiniCpmPart, a: Seq<T>, r: Seq<T>, s: Seq<T>|
            #![trigger end_ran(ends, p, a, r), end_ran(ends, p, a, s)]
            end_ran(ends, p, a, r) && end_ran(ends, p, a, s) ==> r == s,
        x.decoded_paged(cfg, block, paged, applies, ends, 0, tokens, input, run, logits),
        x.decoded_paged(cfg, block, classic, applies, ends, 0, tokens, input, other, other_logits),
        forall|l: int|
            0 <= l < applies.len() ==> reads_own(#[trigger] run.histories[l], run.k[l], run.v[l]),
        !classic.has_pages,
    ensures
        logits == other_logits,
        run.normed == other.normed,
        run.k == other.k,
        run.v == other.v,
{
    let n = applies.len() as int;
    assert forall|l: int| 0 <= l < n implies reads_own(
        #[trigger] other.histories[l],
        other.k[l],
        other.v[l],
    ) by {
        assert(x.layer_paged(
            block,
            classic,
            applies[l],
            l as usize,
            0,
            tokens,
            other.histories[l],
            other.rows[l],
            other.rows[l + 1],
            other.k[l],
            other.v[l],
        ));
        lemma_no_pages_no_history(
            x,
            block,
            classic,
            applies[l],
            l as usize,
            tokens,
            other.histories[l],
            other.rows[l],
            other.rows[l + 1],
            other.k[l],
            other.v[l],
        );
    }
    lemma_layers_agree(x, block, paged, classic, applies, tokens, input, run, other, n);
    assert forall|l: int| 0 <= l < n implies run.v[l] == other.v[l] by {
        assert(run.k[l] == other.k[l]);
    }
    assert(run.k =~= other.k);
    assert(run.v =~= other.v);
}

/// A session without pages gives no history.
proof fn lemma_no_pages_no_history<
    T: Copy,
    F: Fn(ScalarOp, T, T) -> T,
    C: Fn(Number) -> T,
    Z: Fn(Relation, T, T) -> bool,
    A: Fn(usize, Vec<T>, Vec<T>) -> bool,
    B: Fn(usize) -> Option<PagedHandles>,
    E: Fn(DeviceBuffer, Vec<usize>, usize, usize, usize) -> Option<Vec<T>>,
    K,
    G: Fn(BlockOp, Vec<T>) -> Vec<T>,
>(
    x: &Scalars<T, F, C, Z>,
    block: &MiniCpmBlock,
    session: &PagedSession<A, B, E, K>,
    apply: G,
    layer: usize,
    tokens: nat,
    history: PagedHistory<T>,
    input: Seq<T>,
    out: Seq<T>,
    k: Seq<T>,
    v: Seq<T>,
)
    requires
        x.layer_paged(block, session, apply, layer, 0, tokens, history, input, out, k, v),
        !session.has_pages,
    ensures
        history is None,
{
    let design = block.design();
    let paged = block.attends_paged(x, session, layer, 0, tokens, history);
    let front = design.front();
    let trace = choose|trace: Seq<BlockValues<T>>| #[trigger]
        x.block_ran(apply, paged, &design, tokens, trace) && trace[0] == (BlockValues {
            regs: input_only(input),
            k: Seq::empty(),
            v: Seq::empty(),
        }) && trace.last().regs[Reg::Output] == out && trace[front].regs[Reg::Key] == k
            && trace[front].regs[Reg::Value] == v;
    lemma_attends_once(&design, front);
    assert(x.stepped(apply, paged, design.ops()[front], tokens, trace[front], trace[front + 1]));
}

} // verus!
