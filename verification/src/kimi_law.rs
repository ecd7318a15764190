//! Decoding and prefilling give the latent attention of Kimi-K3 the same rows.

use crate::falcon_h1::{expanded, law_expanded_joins};
use crate::kimi_k3::{law_mla_future_is_hidden, row, KimiK3Mla, MlaCache};
use crate::kimi_run::{MlaPart, MlaRows};
use crate::rows::{
    columns, law_columns_of_stack, lemma_cell_coordinates, lemma_flat_index, lemma_row_bounds,
    lemma_widths_add,
};
use crate::scalar::{Number, Relation, ScalarOp, Scalars};
use crate::surroundings::{part_by_rows, turns_by_rows, Surroundings};
use vstd::prelude::*;

verus! {

impl KimiK3Mla {
    /// The parts and rotations treat every row for itself: for `a` tokens and
    /// the `b` tokens that follow, `both` gives what `some` gives for the ones
    /// and `other` for the others.
    pub open spec fn by_rows<T, G1, R1, H1, G2, R2, H2, G, R, H>(
        &self,
        some: &Surroundings<G1, R1, H1>,
        other: &Surroundings<G2, R2, H2>,
        both: &Surroundings<G, R, H>,
        hidden: nat,
        a: nat,
        b: nat,
    ) -> bool where
        G1: Fn(MlaPart, Vec<T>) -> Vec<T>,
        R1: Fn(Vec<T>, Vec<u32>) -> Vec<T>,
        G2: Fn(MlaPart, Vec<T>) -> Vec<T>,
        R2: Fn(Vec<T>, Vec<u32>) -> Vec<T>,
        G: Fn(MlaPart, Vec<T>) -> Vec<T>,
        R: Fn(Vec<T>, Vec<u32>) -> Vec<T>,
     {
        &&& forall|p: MlaPart|
            part_by_rows::<MlaPart, T, G1, R1, H1, G2, R2, H2, G, R, H>(
                some,
                other,
                both,
                p,
                a,
                b,
                #[trigger] self.part_takes(hidden, p),
            )
        &&& turns_by_rows::<T, G1, R1, H1, G2, R2, H2, G, R, H>(
            some,
            other,
            both,
            self.qk_rope_head_dim as nat,
        )
    }
}

proof fn lemma_part<
    T,
    G1: Fn(MlaPart, Vec<T>) -> Vec<T>,
    R1: Fn(Vec<T>, Vec<u32>) -> Vec<T>,
    H1,
    G2: Fn(MlaPart, Vec<T>) -> Vec<T>,
    R2: Fn(Vec<T>, Vec<u32>) -> Vec<T>,
    H2,
    G: Fn(MlaPart, Vec<T>) -> Vec<T>,
    R: Fn(Vec<T>, Vec<u32>) -> Vec<T>,
    H,
>(
    mla: &KimiK3Mla,
    some: &Surroundings<G1, R1, H1>,
    other: &Surroundings<G2, R2, H2>,
    both: &Surroundings<G, R, H>,
    hidden: nat,
    a: nat,
    b: nat,
    p: MlaPart,
    s: Seq<T>,
    rs: Seq<T>,
    t: Seq<T>,
    rt: Seq<T>,
    r: Seq<T>,
)
    requires
        mla.by_rows::<T, G1, R1, H1, G2, R2, H2, G, R, H>(some, other, both, hidden, a, b),
        some.part_ran(p, s, rs),
        other.part_ran(p, t, rt),
        both.part_ran(p, s + t, r),
        s.len() == a * mla.part_takes(hidden, p),
        t.len() == b * mla.part_takes(hidden, p),
    ensures
        r == rs + rt,
{
    assert(part_by_rows::<MlaPart, T, G1, R1, H1, G2, R2, H2, G, R, H>(
        some,
        other,
        both,
        p,
        a,
        b,
        mla.part_takes(hidden, p),
    ));
}

proof fn lemma_row_of_joined<T>(s: Seq<T>, t: Seq<T>, a: nat, b: nat, width: nat, r: int)
    requires
        s.len() == a * width,
        t.len() == b * width,
        0 <= r < a + b,
    ensures
        r < a ==> row(s + t, r, width) == row(s, r, width),
        r >= a ==> row(s + t, r, width) == row(t, r - a, width),
{
    if r < a {
        lemma_row_bounds(r, a as int, width as int);
        assert(row(s + t, r, width) =~= row(s, r, width));
    } else {
        lemma_row_bounds(r - a, b as int, width as int);
        assert(r * width == a * width + (r - a) * width) by (nonlinear_arith);
        assert(row(s + t, r, width) =~= row(t, r - a, width));
    }
}

proof fn lemma_same_rows<T>(s: Seq<T>, t: Seq<T>, n: nat, width: nat)
    requires
        s.len() == n * width,
        t.len() == s.len(),
        forall|r: int| 0 <= r < n ==> #[trigger] row(s, r, width) == row(t, r, width),
    ensures
        s == t,
{
    assert forall|i: int| 0 <= i < s.len() implies s[i] == t[i] by {
        lemma_flat_index(i, n as int, width as int);
        let r = i / width as int;
        let c = i % width as int;
        lemma_row_bounds(r, n as int, width as int);
        assert(row(s, r, width) == row(t, r, width));
        assert(row(s, r, width)[c] == s[i]);
        assert(row(t, r, width)[c] == t[i]);
    }
    assert(s =~= t);
}

/// The first rows of a history are those that were there before more came.
proof fn lemma_history_kept<T>(s: Seq<T>, t: Seq<T>, seen: nat, held: nat, width: nat)
    requires
        s.len() == held * width,
        seen <= held,
    ensures
        seen * width <= s.len(),
        (s + t).take((seen * width) as int) == s.take((seen * width) as int),
{
    assert(seen * width <= held * width) by (nonlinear_arith)
        requires
            seen <= held,
    ;
    assert((s + t).take((seen * width) as int) =~= s.take((seen * width) as int));
}

/// Decoding matches prefill: latent attention on a stretch of tokens in one call
/// gives the rows of two calls that share a history, and leaves the same to look
/// back on.
///
/// `some` and `other` run the parts of the two calls, `both` those of the one.
#[verifier::spinoff_prover]
#[verifier::rlimit(60)]
pub proof fn law_mla_in_two_calls<
    T: Copy,
    F: Fn(ScalarOp, T, T) -> T,
    C: Fn(Number) -> T,
    Z: Fn(Relation, T, T) -> bool,
    G1: Fn(MlaPart, Vec<T>) -> Vec<T>,
    R1: Fn(Vec<T>, Vec<u32>) -> Vec<T>,
    H1,
    G2: Fn(MlaPart, Vec<T>) -> Vec<T>,
    R2: Fn(Vec<T>, Vec<u32>) -> Vec<T>,
    H2,
    G: Fn(MlaPart, Vec<T>) -> Vec<T>,
    R: Fn(Vec<T>, Vec<u32>) -> Vec<T>,
    H,
>(
    x: &Scalars<T, F, C, Z>,
    some: &Surroundings<G1, R1, H1>,
    other: &Surroundings<G2, R2, H2>,
    both: &Surroundings<G, R, H>,
    mla: &KimiK3Mla,
    hidden: nat,
    positions: Seq<u32>,
    positions2: Seq<u32>,
    before: Option<MlaCache<T>>,
    between: MlaCache<T>,
    after: MlaCache<T>,
    after_all: MlaCache<T>,
    input: Seq<T>,
    input2: Seq<T>,
    rows: MlaRows<T>,
    rows2: MlaRows<T>,
    all: MlaRows<T>,
    out: Seq<T>,
    out2: Seq<T>,
    out_all: Seq<T>,
)
    requires
        mla.by_rows::<T, G1, R1, H1, G2, R2, H2, G, R, H>(
            some,
            other,
            both,
            hidden,
            positions.len(),
            positions2.len(),
        ),
        mla.num_heads * mla.qk_nope_head_dim > 0,
        mla.holds(before, mla.cached(before)),
        input.len() == positions.len() * hidden,
        input2.len() == positions2.len() * hidden,
        x.mla_ran(some, mla, positions, before, between, input, rows, out),
        x.mla_ran(other, mla, positions2, Some(between), after, input2, rows2, out2),
        x.mla_ran(
            both,
            mla,
            positions + positions2,
            before,
            after_all,
            input + input2,
            all,
            out_all,
        ),
    ensures
        out_all == out + out2,
        after_all.k@ == after.k@,
        after_all.v@ == after.v@,
        after_all.rope@ == after.rope@,
{
    let (a, b) = (positions.len(), positions2.len());
    let heads = mla.num_heads as nat;
    let nope = mla.qk_nope_head_dim as nat;
    let rope = mla.qk_rope_head_dim as nat;
    let vd = mla.v_head_dim as nat;
    let held = mla.cached(before);
    let (ah, bh) = (a * heads, b * heads);
    assert((a + b) * heads == ah + bh) by (nonlinear_arith)
        requires
            ah == a * heads,
            bh == b * heads,
    ;
    assert(heads > 0) by (nonlinear_arith)
        requires
            heads * nope > 0,
    ;
    lemma_widths_add(a, b, hidden);
    lemma_widths_add(a, b, mla.q_lora_rank as nat);
    lemma_part(
        mla,
        some,
        other,
        both,
        hidden,
        a,
        b,
        MlaPart::QueryDown,
        input,
        rows.q_lat,
        input2,
        rows2.q_lat,
        all.q_lat,
    );
    lemma_part(
        mla,
        some,
        other,
        both,
        hidden,
        a,
        b,
        MlaPart::QueryUp,
        rows.q_lat,
        rows.q_full,
        rows2.q_lat,
        rows2.q_full,
        all.q_full,
    );
    lemma_part(
        mla,
        some,
        other,
        both,
        hidden,
        a,
        b,
        MlaPart::KvDown,
        input,
        rows.latent,
        input2,
        rows2.latent,
        all.latent,
    );
    law_columns_of_stack(rows.q_full, rows2.q_full, ah, bh, mla.query_head(), nope, rope);
    law_columns_of_stack(rows.q_full, rows2.q_full, ah, bh, mla.query_head(), 0, nope);
    law_columns_of_stack(
        rows.latent,
        rows2.latent,
        a,
        b,
        mla.latent_width(),
        0,
        mla.kv_lora_rank as nat,
    );
    law_columns_of_stack(
        rows.latent,
        rows2.latent,
        a,
        b,
        mla.latent_width(),
        mla.kv_lora_rank as nat,
        rope,
    );
    law_expanded_joins(positions, positions2, heads);
    assert(all.q_rope == rows.q_rope + rows2.q_rope) by {
        assert(some.rotated(
            mla.turned_queries(rows.q_full, a),
            expanded(positions, heads),
            rows.q_rope,
        ));
        assert(other.rotated(
            mla.turned_queries(rows2.q_full, b),
            expanded(positions2, heads),
            rows2.q_rope,
        ));
        assert(both.rotated(
            mla.turned_queries(rows.q_full, a) + mla.turned_queries(rows2.q_full, b),
            expanded(positions, heads) + expanded(positions2, heads),
            all.q_rope,
        ));
    }
    assert(all.k_rope == rows.k_rope + rows2.k_rope) by {
        assert(some.rotated(mla.turned_keys(rows.latent, a), positions, rows.k_rope));
        assert(other.rotated(mla.turned_keys(rows2.latent, b), positions2, rows2.k_rope));
        assert(both.rotated(
            mla.turned_keys(rows.latent, a) + mla.turned_keys(rows2.latent, b),
            positions + positions2,
            all.k_rope,
        ));
    }
    lemma_part(
        mla,
        some,
        other,
        both,
        hidden,
        a,
        b,
        MlaPart::KvUp,
        mla.kv_source(rows.latent, a),
        rows.kv_b,
        mla.kv_source(rows2.latent, b),
        rows2.kv_b,
        all.kv_b,
    );
    law_columns_of_stack(rows.kv_b, rows2.kv_b, ah, bh, mla.kv_head(), 0, nope);
    law_columns_of_stack(rows.kv_b, rows2.kv_b, ah, bh, mla.kv_head(), nope, vd);
    let k2 = columns(rows2.kv_b, bh, mla.kv_head(), 0, nope);
    let v2 = columns(rows2.kv_b, bh, mla.kv_head(), nope, vd);
    assert(after_all.k@ =~= after.k@);
    assert(after_all.v@ =~= after.v@);
    assert(after_all.rope@ =~= after.rope@);
    // The history between the calls holds the rows of the first.
    assert(between.k@.len() == (held + a) * (heads * nope) && between.v@.len() == (held + a) * (
    heads * vd) && between.rope@.len() == (held + a) * rope) by {
        assert(held * (heads * nope) + (a * heads) * nope == (held + a) * (heads * nope))
            by (nonlinear_arith);
        assert(held * (heads * vd) + (a * heads) * vd == (held + a) * (heads * vd))
            by (nonlinear_arith);
        assert(held * rope + a * rope == (held + a) * rope) by (nonlinear_arith);
    }
    assert(mla.cached(Some(between)) == held + a) by {
        lemma_cell_coordinates((held + a) as int, 0, (heads * nope) as int);
    }
    let joined = rows.attended + rows2.attended;
    assert((ah + bh) * vd == ah * vd + bh * vd) by (nonlinear_arith);
    assert forall|r: int| 0 <= r < ah + bh implies #[trigger] row(all.attended, r, vd) == row(
        joined,
        r,
        vd,
    ) by {
        let q1 = mla.plain_queries(rows.q_full, a);
        let q2 = mla.plain_queries(rows2.q_full, b);
        lemma_row_of_joined(rows.attended, rows2.attended, ah, bh, vd, r);
        lemma_row_of_joined(q1, q2, ah, bh, nope, r);
        lemma_row_of_joined(rows.q_rope, rows2.q_rope, ah, bh, rope, r);
        let h = heads as int;
        if r < ah {
            lemma_flat_index(r, a as int, h);
            let seen = (held + r / h + 1) as nat;
            lemma_history_kept(between.k@, k2, seen, held + a, heads * nope);
            lemma_history_kept(between.v@, v2, seen, held + a, heads * vd);
            lemma_history_kept(between.rope@, rows2.k_rope, seen, held + a, rope);
            law_mla_future_is_hidden(
                x,
                mla,
                q1,
                rows.q_rope,
                between.k@,
                between.rope@,
                between.v@,
                after_all.k@,
                after_all.rope@,
                after_all.v@,
                held,
                r,
            );
            assert(row(rows.attended, r, vd) == x.mla_row(
                mla,
                q1,
                rows.q_rope,
                between.k@,
                between.rope@,
                between.v@,
                held,
                r,
            ));
        } else {
            let s = r - ah;
            lemma_flat_index(s, b as int, h);
            assert(r == (a + s / h) * h + s % h) by (nonlinear_arith)
                requires
                    r == ah + s,
                    ah == a * h,
                    s == (s / h) * h + s % h,
            ;
            lemma_cell_coordinates(a + s / h, s % h, h);
            assert(row(rows2.attended, s, vd) == x.mla_row(
                mla,
                q2,
                rows2.q_rope,
                after.k@,
                after.rope@,
                after.v@,
                held + a,
                s,
            ));
        }
    }
    lemma_same_rows(all.attended, joined, ah + bh, vd);
    assert(a * (heads * vd) == ah * vd && b * (heads * vd) == bh * vd) by (nonlinear_arith)
        requires
            ah == a * heads,
            bh == b * heads,
    ;
    lemma_part(
        mla,
        some,
        other,
        both,
        hidden,
        a,
        b,
        MlaPart::Out,
        rows.attended,
        out,
        rows2.attended,
        out2,
        out_all,
    );
}

} // verus!
