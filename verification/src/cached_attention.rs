//! Attention of a block that keeps its own history.

use crate::block_program::{AttentionDesign, BlockDesign, BlockOp};
use crate::block_run::{run_block, serves_applied, Attends, BlockValues, Outside};
use crate::head_map::{lemma_spread_below, spread_heads, spread_table};
use crate::kv_attention::{
    causal_attention, head_block, history_reaches, kv_head_of, RefKvCache,
};
use crate::rows::lemma_row_bounds;
use crate::scalar::{Number, Relation, ScalarOp, Scalars};
use vstd::prelude::*;

verus! {

impl<T: Copy, F: Fn(ScalarOp, T, T) -> T, C: Fn(Number) -> T, Z: Fn(Relation, T, T) -> bool> Scalars<T, F, C, Z> {
    /// What an attention keeps its scores within.
    pub open spec fn cap_of(&self, a: AttentionDesign) -> Option<T> {
        match a.softcap {
            Some(cap) => Some(self.constant(cap.bits)),
            None => None,
        }
    }

    /// Every head of every token of a call is attended over the history up to
    /// its token, with scores kept within the attention's cap, and its result
    /// lies in its place of `out`.
    pub open spec fn causally_attended(
        &self,
        tokens: nat,
        past: nat,
        a: AttentionDesign,
        q: Seq<T>,
        k: Seq<T>,
        v: Seq<T>,
        out: Seq<T>,
    ) -> bool {
        let row = (a.heads * a.head_dim) as nat;
        let kv_row = (a.kv_heads * a.head_dim) as nat;
        let table = spread_heads(a.heads as nat, a.kv_heads as nat);
        &&& out.len() == tokens * row
        &&& forall|t: int, h: int|
            0 <= t < tokens && 0 <= h < a.heads ==> #[trigger] head_block(
                out,
                t,
                h,
                row,
                a.head_dim as nat,
            ) == self.head_attended(
                self.cap_of(a),
                q,
                k,
                v,
                past + tokens,
                past,
                a.head_dim as nat,
                row,
                kv_row,
                table,
                t,
                h,
            )
    }

    /// Causal softmax attention of `tokens` rows that follow `past` others.
    pub open spec fn attends_causally(&self, tokens: nat, past: nat) -> Attends<T> {
        |a: AttentionDesign, q: Seq<T>, k: Seq<T>, v: Seq<T>, out: Seq<T>|
            self.causally_attended(tokens, past, a, q, k, v, out)
    }
}

/// Attends the queries of a call over all of a history that holds its keys and
/// values.
pub fn attend_history<
    T: Copy,
    F: Fn(ScalarOp, T, T) -> T,
    C: Fn(Number) -> T,
    Z: Fn(Relation, T, T) -> bool,
>(
    x: &Scalars<T, F, C, Z>,
    a: AttentionDesign,
    q: &[T],
    k: &[T],
    v: &[T],
    tokens: usize,
    past: usize,
) -> (out: Vec<T>)
    requires
        x.wf(),
        a.window is None,
        0 < a.kv_heads,
        a.heads * a.head_dim <= usize::MAX,
        a.kv_heads * a.head_dim <= usize::MAX,
        a.heads * a.kv_heads <= usize::MAX,
        past + tokens <= usize::MAX,
        (past + tokens) * a.head_dim <= usize::MAX,
        q@.len() == tokens * (a.heads * a.head_dim),
        k@.len() == (past + tokens) * (a.kv_heads * a.head_dim),
        v@.len() == (past + tokens) * (a.kv_heads * a.head_dim),
    ensures
        x.causally_attended(tokens as nat, past as nat, a, q@, k@, v@, out@),
{
    let row: usize = a.heads * a.head_dim;
    let kv_row: usize = a.kv_heads * a.head_dim;
    let total: usize = past + tokens;
    let q_len: usize = q.len();
    let table = spread_table(a.heads, a.kv_heads);
    proof {
        if tokens > 0 {
            lemma_row_bounds(tokens - 1, tokens as int, row as int);
            lemma_row_bounds(total - 1, total as int, kv_row as int);
            assert forall|h: int| 0 <= h < a.heads implies {
                let head = #[trigger] kv_head_of(table@, h);
                &&& history_reaches(k@.len(), total - 1, kv_row as nat, head, a.head_dim as nat)
                &&& history_reaches(v@.len(), total - 1, kv_row as nat, head, a.head_dim as nat)
            } by {
                lemma_spread_below(h, a.heads as int, a.kv_heads as int);
                let head = kv_head_of(table@, h) as int;
                let head_dim = a.head_dim;
                let kv_heads = a.kv_heads;
                assert((head + 1) * head_dim <= kv_heads * head_dim) by (nonlinear_arith)
                    requires
                        head + 1 <= kv_heads,
                        0 <= head_dim,
                ;
            }
        }
    }
    let cap: Option<T> = match a.softcap {
        Some(cap) => Some(x.constant(cap.bits)),
        None => None,
    };
    causal_attention(
        x,
        cap,
        q,
        k,
        v,
        tokens,
        total,
        past,
        a.heads,
        a.head_dim,
        row,
        kv_row,
        table.as_slice(),
    )
}

/// Attention that does no more than another leaves a run of a block a run.
pub proof fn lemma_block_done_by<
    T: Copy,
    F: Fn(ScalarOp, T, T) -> T,
    C: Fn(Number) -> T,
    Z: Fn(Relation, T, T) -> bool,
    G: Fn(BlockOp, Vec<T>) -> Vec<T>,
>(
    x: &Scalars<T, F, C, Z>,
    apply: G,
    some: Attends<T>,
    other: Attends<T>,
    design: &BlockDesign,
    tokens: nat,
    input: Seq<T>,
    k: Seq<T>,
    v: Seq<T>,
    out: Seq<T>,
    k_after: Seq<T>,
    v_after: Seq<T>,
)
    requires
        x.block_done(apply, some, design, tokens, input, k, v, out, k_after, v_after),
        forall|a: AttentionDesign, q: Seq<T>, k: Seq<T>, v: Seq<T>, o: Seq<T>| #[trigger]
            some(a, q, k, v, o) ==> other(a, q, k, v, o),
    ensures
        x.block_done(apply, other, design, tokens, input, k, v, out, k_after, v_after),
{
    let trace = choose|trace: Seq<BlockValues<T>>| #[trigger]
        x.block_ran(apply, some, design, tokens, trace) && trace[0] == (BlockValues {
            regs: crate::block_run::input_only(input),
            k,
            v,
        }) && trace.last().regs[crate::block_program::Reg::Output] == out && trace.last().k
            == k_after && trace.last().v == v_after;
    assert forall|i: int| 0 <= i < design.ops().len() implies x.stepped(
        apply,
        other,
        #[trigger] design.ops()[i],
        tokens,
        trace[i],
        trace[i + 1],
    ) by {
        assert(x.stepped(apply, some, design.ops()[i], tokens, trace[i], trace[i + 1]));
    }
    assert(x.block_ran(apply, other, design, tokens, trace));
}

/// Runs a block whose attention is causal and over all that its history holds,
/// or over the call's own tokens where it keeps none. A block that looks back
/// through a window leaves attention to its surroundings.
pub fn run_causal_block<
    T: Copy,
    F: Fn(ScalarOp, T, T) -> T,
    C: Fn(Number) -> T,
    Z: Fn(Relation, T, T) -> bool,
    G: Fn(BlockOp, Vec<T>) -> Vec<T>,
>(
    x: &Scalars<T, F, C, Z>,
    design: &BlockDesign,
    input: Vec<T>,
    tokens: usize,
    cache: &mut RefKvCache<T>,
    apply: G,
) -> (out: Vec<T>)
    requires
        x.wf(),
        design.fits(),
        design.attention.window is None,
        0 < design.attention.kv_heads,
        design.attention.heads * design.attention.kv_heads <= usize::MAX,
        input@.len() == tokens * design.hidden,
        old(cache).wf(design.kv_dim() as nat),
        old(cache).past_len + tokens <= usize::MAX,
        ((if design.attention.cached {
            old(cache).past_len as int
        } else {
            0
        }) + tokens) * design.attention.head_dim <= usize::MAX,
        serves_applied(apply, design, tokens as nat),
    ensures
        out@.len() == tokens * design.hidden,
        x.block_done(
            apply,
            x.attends_causally(
                tokens as nat,
                if design.attention.cached {
                    old(cache).past_len as nat
                } else {
                    0
                },
            ),
            design,
            tokens as nat,
            input@,
            old(cache).k@,
            old(cache).v@,
            out@,
            final(cache).k@,
            final(cache).v@,
        ),
        final(cache).wf(design.kv_dim() as nat),
        final(cache).past_len == old(cache).past_len + (if design.attention.cached {
            tokens as int
        } else {
            0
        }),
        old(cache).k@ == final(cache).k@.take(old(cache).k@.len() as int),
        old(cache).v@ == final(cache).v@.take(old(cache).v@.len() as int),
{
    let past: usize = if design.attention.cached {
        cache.past_len
    } else {
        0
    };
    let a: AttentionDesign = design.attention;
    proof {
        assert(0 <= a.heads * a.head_dim && 0 <= a.kv_heads * a.head_dim) by (nonlinear_arith);
    }
    let attend = |b: AttentionDesign, q: Vec<T>, k: Vec<T>, v: Vec<T>| -> (o: Vec<T>)
        requires
            b == a,
            q@.len() == tokens * (a.heads * a.head_dim),
            k@.len() == (past + tokens) * (a.kv_heads * a.head_dim),
            v@.len() == (past + tokens) * (a.kv_heads * a.head_dim),
        ensures
            x.causally_attended(tokens as nat, past as nat, a, q@, k@, v@, o@) && b == a
        { attend_history(x, a, q.as_slice(), k.as_slice(), v.as_slice(), tokens, past) };
    let outside = Outside { apply, attend };
    let ghost k0 = cache.k@;
    let ghost v0 = cache.v@;
    let ghost given = input@;
    let out = run_block(x, &outside, design, input, tokens, cache);
    proof {
        let causal = x.attends_causally(tokens as nat, past as nat);
        assert forall|b: AttentionDesign, q: Seq<T>, k: Seq<T>, v: Seq<T>, o: Seq<T>|
            #[trigger] (outside.attending::<T>())(b, q, k, v, o) implies causal(b, q, k, v, o) by {
            assert(outside.attended(b, q, k, v, o));
        }
        lemma_block_done_by(
            x,
            outside.apply,
            outside.attending(),
            causal,
            design,
            tokens as nat,
            given,
            k0,
            v0,
            out@,
            cache.k@,
            cache.v@,
        );
    }
    out
}

/// Makes room for the cache of every layer; what is there stays.
pub fn ensure_layers<C>(caches: &mut Vec<Option<C>>, layers: usize)
    ensures
        final(caches)@.len() == (if old(caches)@.len() < layers {
            layers as nat
        } else {
            old(caches)@.len()
        }),
        final(caches)@.take(old(caches)@.len() as int) =~= old(caches)@,
        forall|i: int|
            old(caches)@.len() <= i < final(caches)@.len() ==> (#[trigger] final(caches)@[i])
                is None,
{
    let ghost before = caches@;
    while caches.len() < layers
        invariant
            before.len() <= caches@.len(),
            caches@.len() <= layers || caches@.len() == before.len(),
            caches@.take(before.len() as int) == before,
            forall|i: int| before.len() <= i < caches@.len() ==> (#[trigger] caches@[i]) is None,
        decreases layers - caches@.len(),
    {
        caches.push(None);
        assert(caches@.take(before.len() as int) =~= before);
    }
}

} // verus!
