//! What the order of a block's operations makes of its queries and keys: norms
//! per head come before rotations, and rotations turn the first columns only.

use crate::block_decode::{agree_on, lemma_causal_steps_agree};
use crate::block_program::{BlockDesign, BlockOp, Part, Reg};
use crate::block_run::{applied, input_only, BlockValues};
use crate::gptj::{gptj_design, GptJConfig};
use crate::hyv3::{hyv3_design, HyV3Config};
use crate::scalar::{Number, Relation, ScalarOp, Scalars};
use vstd::prelude::*;

verus! {

/// The projection that gives the queries of a block.
pub open spec fn query_op(design: &BlockDesign) -> BlockOp {
    BlockOp::Linear {
        src: Reg::Normed,
        part: Part::Query,
        dst: Reg::Query,
        inputs: design.hidden,
        outputs: design.q_dim() as usize,
    }
}

/// The projection that gives the keys of a block.
pub open spec fn key_op(design: &BlockDesign) -> BlockOp {
    BlockOp::Linear {
        src: Reg::Normed,
        part: Part::Key,
        dst: Reg::Key,
        inputs: design.hidden,
        outputs: design.kv_dim() as usize,
    }
}

/// The norm of every head of the queries.
pub open spec fn query_norm_op(design: &BlockDesign) -> BlockOp {
    BlockOp::HeadNorm {
        reg: Reg::Query,
        part: Part::QueryNorm,
        heads: design.attention.heads,
        head_dim: design.attention.head_dim,
    }
}

impl<T: Copy, F: Fn(ScalarOp, T, T) -> T, C: Fn(Number) -> T, Z: Fn(Relation, T, T) -> bool> Scalars<T, F, C, Z> {
    /// Rows, each element times a factor.
    pub open spec fn scaled_rows(&self, factor: T, rows: Seq<T>) -> Seq<T> {
        Seq::new(rows.len(), |i: int| self.times(factor, rows[i]))
    }

    /// `scaled` runs a block with the query weights of `plain` times a factor:
    /// it gives scaled queries and does all else as `plain` does, and the norm
    /// of a head takes no notice of the scale.
    pub open spec fn scales_queries<G, S>(
        &self,
        plain: G,
        scaled: S,
        design: &BlockDesign,
        factor: T,
    ) -> bool where G: Fn(BlockOp, Vec<T>) -> Vec<T>, S: Fn(BlockOp, Vec<T>) -> Vec<T> {
        &&& forall|a: Seq<T>, q: Seq<T>, r: Seq<T>|
            #![trigger applied(plain, query_op(design), a, q), applied(scaled, query_op(design), a, r)]
            applied(plain, query_op(design), a, q) && applied(scaled, query_op(design), a, r)
                ==> r == self.scaled_rows(factor, q)
        &&& forall|q: Seq<T>, n: Seq<T>, r: Seq<T>|
            #![trigger applied(plain, query_norm_op(design), q, n), applied(scaled, query_norm_op(design), self.scaled_rows(factor, q), r)]
            applied(plain, query_norm_op(design), q, n) && applied(
                scaled,
                query_norm_op(design),
                self.scaled_rows(factor, q),
                r,
            ) ==> r == n
        &&& forall|op: BlockOp|
            op != query_op(design) && op != query_norm_op(design) ==> #[trigger] agree_on::<
                T,
                G,
                S,
            >(plain, scaled, op)
    }

    /// The first `rotary` columns of every head are zero.
    pub open spec fn zero_first(&self, rows: Seq<T>, head_dim: int, rotary: int) -> bool {
        forall|i: int|
            0 <= i < rows.len() && i % head_dim < rotary ==> #[trigger] rows[i] == self.zero()
    }

    /// Rotations leave rows as they are whose rotated columns are zero.
    pub open spec fn keeps_zeros<G>(&self, apply: G) -> bool where
        G: Fn(BlockOp, Vec<T>) -> Vec<T>,
     {
        forall|op: BlockOp, a: Seq<T>, r: Seq<T>| #[trigger]
            applied(apply, op, a, r) && (op matches BlockOp::Rope { head_dim, rotary_dim, .. }
                && self.zero_first(a, head_dim as int, rotary_dim as int)) ==> r == a
    }

    /// Queries and keys are zero in the columns that are rotated.
    pub open spec fn zeroes_turned<G>(&self, apply: G, cfg: &GptJConfig) -> bool where
        G: Fn(BlockOp, Vec<T>) -> Vec<T>,
     {
        &&& forall|a: Seq<T>, r: Seq<T>| #[trigger]
            applied(apply, query_op(&gptj_design(cfg)), a, r) ==> self.zero_first(
                r,
                cfg.head_dim as int,
                cfg.rotary_dim as int,
            )
        &&& forall|a: Seq<T>, r: Seq<T>| #[trigger]
            applied(apply, key_op(&gptj_design(cfg)), a, r) ==> self.zero_first(
                r,
                cfg.head_dim as int,
                cfg.rotary_dim as int,
            )
    }

    /// `there` runs a block at other positions than `here`: both differ in
    /// rotations only, and these leave rows as they are whose rotated columns
    /// are zero.
    pub open spec fn moves_positions<G, S>(&self, here: G, there: S) -> bool where
        G: Fn(BlockOp, Vec<T>) -> Vec<T>,
        S: Fn(BlockOp, Vec<T>) -> Vec<T>,
     {
        &&& forall|op: BlockOp| !(op is Rope) ==> #[trigger] agree_on::<T, G, S>(here, there, op)
        &&& self.keeps_zeros(here)
        &&& self.keeps_zeros(there)
    }
}

/// Values whose queries are scaled.
spec fn scaled_at<
    T: Copy,
    F: Fn(ScalarOp, T, T) -> T,
    C: Fn(Number) -> T,
    Z: Fn(Relation, T, T) -> bool,
>(x: &Scalars<T, F, C, Z>, factor: T, a: BlockValues<T>, b: BlockValues<T>) -> bool {
    b == (BlockValues {
        regs: a.regs.insert(Reg::Query, x.scaled_rows(factor, a.regs[Reg::Query])),
        ..a
    })
}

proof fn lemma_scaled_at<
    T: Copy,
    F: Fn(ScalarOp, T, T) -> T,
    C: Fn(Number) -> T,
    Z: Fn(Relation, T, T) -> bool,
    G: Fn(BlockOp, Vec<T>) -> Vec<T>,
    S: Fn(BlockOp, Vec<T>) -> Vec<T>,
>(
    x: &Scalars<T, F, C, Z>,
    plain: G,
    scaled: S,
    cfg: &HyV3Config,
    factor: T,
    tokens: nat,
    past: nat,
    trace: Seq<BlockValues<T>>,
    other: Seq<BlockValues<T>>,
    i: int,
)
    requires
        x.scales_queries(plain, scaled, &hyv3_design(cfg), factor),
        x.block_ran(plain, x.attends_causally(tokens, past), &hyv3_design(cfg), tokens, trace),
        x.block_ran(scaled, x.attends_causally(tokens, past), &hyv3_design(cfg), tokens, other),
        trace[0] == other[0],
        0 <= i <= hyv3_design(cfg).ops().len(),
    ensures
        if 2 <= i <= 4 {
            scaled_at(x, factor, trace[i], other[i])
        } else {
            other[i] == trace[i]
        },
    decreases i,
{
    let design = hyv3_design(cfg);
    let ops = design.ops();
    let attends = x.attends_causally(tokens, past);
    assert(ops[1] == query_op(&design));
    assert(ops[4] == query_norm_op(&design));
    if i > 0 {
        lemma_scaled_at(x, plain, scaled, cfg, factor, tokens, past, trace, other, i - 1);
        let op = ops[i - 1];
        let (a, a2) = (trace[i - 1], trace[i]);
        let (b, b2) = (other[i - 1], other[i]);
        assert(x.stepped(plain, attends, op, tokens, a, a2));
        assert(x.stepped(scaled, attends, op, tokens, b, b2));
        if i == 2 {
            assert(applied(plain, op, a.regs[Reg::Normed], a2.regs[Reg::Query]));
            assert(applied(scaled, op, a.regs[Reg::Normed], b2.regs[Reg::Query]));
            assert(b2.regs =~= a2.regs.insert(Reg::Query, b2.regs[Reg::Query]));
        } else if i == 3 || i == 4 {
            let dst = if i == 3 {
                Reg::Key
            } else {
                Reg::Value
            };
            assert(agree_on::<T, G, S>(plain, scaled, op));
            assert(applied(plain, op, a.regs[Reg::Normed], a2.regs[dst]));
            assert(applied(scaled, op, a.regs[Reg::Normed], b2.regs[dst]));
            assert(b2.regs =~= a2.regs.insert(Reg::Query, b.regs[Reg::Query]));
        } else if i == 5 {
            let q = a.regs[Reg::Query];
            assert(applied(plain, op, q, a2.regs[Reg::Query]));
            assert(applied(scaled, op, x.scaled_rows(factor, q), b2.regs[Reg::Query]));
            assert(b2.regs =~= a2.regs);
        } else {
            assert(op != query_op(&design) && op != query_norm_op(&design));
            assert(agree_on::<T, G, S>(plain, scaled, op));
            lemma_causal_steps_agree(x, plain, scaled, op, tokens, past, a, a2, b2);
        }
    }
}

/// A scale of the query weights cancels under the head norms: a block with the
/// scale gives what the block without it gives.
pub proof fn law_query_scale_cancels<
    T: Copy,
    F: Fn(ScalarOp, T, T) -> T,
    C: Fn(Number) -> T,
    Z: Fn(Relation, T, T) -> bool,
    G: Fn(BlockOp, Vec<T>) -> Vec<T>,
    S: Fn(BlockOp, Vec<T>) -> Vec<T>,
>(
    x: &Scalars<T, F, C, Z>,
    plain: G,
    scaled: S,
    cfg: &HyV3Config,
    factor: T,
    tokens: nat,
    past: nat,
    input: Seq<T>,
    k: Seq<T>,
    v: Seq<T>,
    out: Seq<T>,
    k_after: Seq<T>,
    v_after: Seq<T>,
    out2: Seq<T>,
    k_after2: Seq<T>,
    v_after2: Seq<T>,
)
    requires
        x.scales_queries(plain, scaled, &hyv3_design(cfg), factor),
        x.block_done(
            plain,
            x.attends_causally(tokens, past),
            &hyv3_design(cfg),
            tokens,
            input,
            k,
            v,
            out,
            k_after,
            v_after,
        ),
        x.block_done(
            scaled,
            x.attends_causally(tokens, past),
            &hyv3_design(cfg),
            tokens,
            input,
            k,
            v,
            out2,
            k_after2,
            v_after2,
        ),
    ensures
        out2 == out,
        k_after2 == k_after,
        v_after2 == v_after,
{
    let design = hyv3_design(cfg);
    let attends = x.attends_causally(tokens, past);
    let start = BlockValues { regs: input_only(input), k, v };
    let trace = choose|trace: Seq<BlockValues<T>>| #[trigger]
        x.block_ran(plain, attends, &design, tokens, trace) && trace[0] == start
            && trace.last().regs[Reg::Output] == out && trace.last().k == k_after && trace.last().v
            == v_after;
    let other = choose|trace: Seq<BlockValues<T>>| #[trigger]
        x.block_ran(scaled, attends, &design, tokens, trace) && trace[0] == start
            && trace.last().regs[Reg::Output] == out2 && trace.last().k == k_after2 && trace.last().v
            == v_after2;
    let n = design.ops().len() as int;
    assert(n > 4);
    lemma_scaled_at(x, plain, scaled, cfg, factor, tokens, past, trace, other, n);
}

proof fn lemma_moved_at<
    T: Copy,
    F: Fn(ScalarOp, T, T) -> T,
    C: Fn(Number) -> T,
    Z: Fn(Relation, T, T) -> bool,
    G: Fn(BlockOp, Vec<T>) -> Vec<T>,
    S: Fn(BlockOp, Vec<T>) -> Vec<T>,
>(
    x: &Scalars<T, F, C, Z>,
    here: G,
    there: S,
    cfg: &GptJConfig,
    tokens: nat,
    past: nat,
    trace: Seq<BlockValues<T>>,
    other: Seq<BlockValues<T>>,
    i: int,
)
    requires
        x.moves_positions(here, there),
        x.zeroes_turned(here, cfg),
        x.block_ran(here, x.attends_causally(tokens, past), &gptj_design(cfg), tokens, trace),
        x.block_ran(there, x.attends_causally(tokens, past), &gptj_design(cfg), tokens, other),
        trace[0] == other[0],
        0 <= i <= gptj_design(cfg).ops().len(),
    ensures
        other[i] == trace[i],
    decreases i,
{
    let design = gptj_design(cfg);
    let ops = design.ops();
    let attends = x.attends_causally(tokens, past);
    assert(ops[1] == query_op(&design));
    assert(ops[2] == key_op(&design));
    if i > 0 {
        lemma_moved_at(x, here, there, cfg, tokens, past, trace, other, i - 1);
        let op = ops[i - 1];
        let (a, a2, b2) = (trace[i - 1], trace[i], other[i]);
        assert(x.stepped(here, attends, op, tokens, a, a2));
        assert(x.stepped(there, attends, op, tokens, a, b2));
        if op is Rope {
            assert(x.stepped(here, attends, ops[1], tokens, trace[1], trace[2]));
            assert(x.stepped(here, attends, ops[2], tokens, trace[2], trace[3]));
            assert(x.stepped(here, attends, ops[3], tokens, trace[3], trace[4]));
            assert(x.stepped(here, attends, ops[4], tokens, trace[4], trace[5]));
            assert(trace[4].regs[Reg::Query] == trace[2].regs[Reg::Query]);
            assert(trace[5].regs[Reg::Key] == trace[3].regs[Reg::Key]);
            let reg = if i == 5 {
                Reg::Query
            } else {
                Reg::Key
            };
            assert(applied(here, op, a.regs[reg], a2.regs[reg]));
            assert(applied(there, op, a.regs[reg], b2.regs[reg]));
        } else {
            assert(agree_on::<T, G, S>(here, there, op));
            lemma_causal_steps_agree(x, here, there, op, tokens, past, a, a2, b2);
        }
    }
}

/// Positions drop out where the rotated columns are zero: a block whose queries
/// and keys have zeros there gives the same rows wherever its tokens stand.
pub proof fn law_positions_drop_out<
    T: Copy,
    F: Fn(ScalarOp, T, T) -> T,
    C: Fn(Number) -> T,
    Z: Fn(Relation, T, T) -> bool,
    G: Fn(BlockOp, Vec<T>) -> Vec<T>,
    S: Fn(BlockOp, Vec<T>) -> Vec<T>,
>(
    x: &Scalars<T, F, C, Z>,
    here: G,
    there: S,
    cfg: &GptJConfig,
    tokens: nat,
    past: nat,
    input: Seq<T>,
    k: Seq<T>,
    v: Seq<T>,
    out: Seq<T>,
    k_after: Seq<T>,
    v_after: Seq<T>,
    out2: Seq<T>,
    k_after2: Seq<T>,
    v_after2: Seq<T>,
)
    requires
        x.moves_positions(here, there),
        x.zeroes_turned(here, cfg),
        x.block_done(
            here,
            x.attends_causally(tokens, past),
            &gptj_design(cfg),
            tokens,
            input,
            k,
            v,
            out,
            k_after,
            v_after,
        ),
        x.block_done(
            there,
            x.attends_causally(tokens, past),
            &gptj_design(cfg),
            tokens,
            input,
            k,
            v,
            out2,
            k_after2,
            v_after2,
        ),
    ensures
        out2 == out,
        k_after2 == k_after,
        v_after2 == v_after,
{
    let design = gptj_design(cfg);
    let attends = x.attends_causally(tokens, past);
    let start = BlockValues { regs: input_only(input), k, v };
    let trace = choose|trace: Seq<BlockValues<T>>| #[trigger]
        x.block_ran(here, attends, &design, tokens, trace) && trace[0] == start
            && trace.last().regs[Reg::Output] == out && trace.last().k == k_after && trace.last().v
            == v_after;
    let other = choose|trace: Seq<BlockValues<T>>| #[trigger]
        x.block_ran(there, attends, &design, tokens, trace) && trace[0] == start
            && trace.last().regs[Reg::Output] == out2 && trace.last().k == k_after2 && trace.last().v
            == v_after2;
    lemma_moved_at(
        x,
        here,
        there,
        cfg,
        tokens,
        past,
        trace,
        other,
        design.ops().len() as int,
    );
}

} // verus!
