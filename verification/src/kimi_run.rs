//! The latent attention of Kimi-K3 from a block's rows to the rows that it adds.

use crate::falcon_h1::{expand_positions, expanded};
use crate::kimi_k3::{past_k, past_rope, past_v, row, KimiK3Mla, MlaCache, MlaQuery};
use crate::rows::{columns, copy_range};
use crate::scalar::{Number, Relation, ScalarOp, Scalars};
use crate::surroundings::Surroundings;
use vstd::prelude::*;

verus! {

/// A projection of latent attention, each row for itself.
#[derive(Debug, Clone, Copy, PartialEq, Eq, Structural)]
pub enum MlaPart {
    /// Rows to latent queries.
    QueryDown,
    /// Latent queries to queries, head by head.
    QueryUp,
    /// Rows to what keys and values are made from, and the shared rotated part.
    KvDown,
    /// What keys and values are made from to keys and values, head by head.
    KvUp,
    /// What attention gives to rows.
    Out,
}

/// What the parts of latent attention give.
pub struct MlaRows<T> {
    pub q_lat: Seq<T>,
    pub q_full: Seq<T>,
    pub q_rope: Seq<T>,
    pub latent: Seq<T>,
    pub k_rope: Seq<T>,
    pub kv_b: Seq<T>,
    pub attended: Seq<T>,
}

impl<T> MlaRows<T> {
    /// What the parts give has the widths that are asked for.
    pub open spec fn sized(&self, mla: &KimiK3Mla, tokens: nat) -> bool {
        let heads = tokens * mla.num_heads as nat;
        &&& self.q_lat.len() == tokens * mla.q_lora_rank
        &&& self.q_full.len() == heads * mla.query_head()
        &&& self.q_rope.len() == heads * mla.qk_rope_head_dim
        &&& self.latent.len() == tokens * mla.latent_width()
        &&& self.k_rope.len() == tokens * mla.qk_rope_head_dim
        &&& self.kv_b.len() == heads * mla.kv_head()
        &&& self.attended.len() == heads * mla.v_head_dim
    }
}

impl KimiK3Mla {
    /// Elements of one head of the projected queries.
    pub open spec fn query_head(&self) -> nat {
        (self.qk_nope_head_dim + self.qk_rope_head_dim) as nat
    }

    /// Elements of one head of the projected keys and values.
    pub open spec fn kv_head(&self) -> nat {
        (self.qk_nope_head_dim + self.v_head_dim) as nat
    }

    /// Elements of one latent row of keys and values.
    pub open spec fn latent_width(&self) -> nat {
        (self.kv_lora_rank + self.qk_rope_head_dim) as nat
    }

    /// The width of what a part takes.
    pub open spec fn part_takes(&self, hidden: nat, part: MlaPart) -> nat {
        match part {
            MlaPart::QueryDown | MlaPart::KvDown => hidden,
            MlaPart::QueryUp => self.q_lora_rank as nat,
            MlaPart::KvUp => self.kv_lora_rank as nat,
            MlaPart::Out => self.num_heads as nat * self.v_head_dim as nat,
        }
    }

    /// The width of what a part gives.
    pub open spec fn part_gives(&self, hidden: nat, part: MlaPart) -> nat {
        match part {
            MlaPart::QueryDown => self.q_lora_rank as nat,
            MlaPart::QueryUp => self.num_heads as nat * self.query_head(),
            MlaPart::KvDown => self.latent_width(),
            MlaPart::KvUp => self.num_heads as nat * self.kv_head(),
            MlaPart::Out => hidden,
        }
    }

    /// The parts run on `tokens` rows of the width that each takes, and give
    /// rows of the width that is asked for; so do rotations.
    pub open spec fn served_by<T, G, R, H>(
        &self,
        outside: &Surroundings<G, R, H>,
        hidden: nat,
        tokens: nat,
    ) -> bool where G: Fn(MlaPart, Vec<T>) -> Vec<T>, R: Fn(Vec<T>, Vec<u32>) -> Vec<T> {
        &&& forall|p: MlaPart|
            outside.part_fits::<MlaPart, T>(
                p,
                tokens,
                #[trigger] self.part_takes(hidden, p),
                self.part_gives(hidden, p),
            )
        &&& outside.turn_fits::<T>(self.qk_rope_head_dim as nat)
    }

    /// What a call needs fits.
    pub open spec fn call_fits(&self, past: nat, tokens: nat) -> bool {
        &&& self.query_head() <= usize::MAX
        &&& self.kv_head() <= usize::MAX
        &&& self.latent_width() <= usize::MAX
        &&& past + tokens <= usize::MAX
        &&& tokens * self.num_heads <= usize::MAX
        &&& self.num_heads * self.qk_nope_head_dim <= usize::MAX
        &&& self.num_heads * self.v_head_dim <= usize::MAX
        &&& (past + tokens) * (self.num_heads * self.qk_nope_head_dim) <= usize::MAX
        &&& (past + tokens) * (self.num_heads * self.v_head_dim) <= usize::MAX
        &&& (past + tokens) * self.qk_rope_head_dim <= usize::MAX
    }

    /// Queries without rotation, head by head.
    pub open spec fn plain_queries<T>(&self, q_full: Seq<T>, tokens: nat) -> Seq<T> {
        columns(
            q_full,
            tokens * self.num_heads as nat,
            self.query_head(),
            0,
            self.qk_nope_head_dim as nat,
        )
    }

    /// Query parts that are rotated, head by head.
    pub open spec fn turned_queries<T>(&self, q_full: Seq<T>, tokens: nat) -> Seq<T> {
        columns(
            q_full,
            tokens * self.num_heads as nat,
            self.query_head(),
            self.qk_nope_head_dim as nat,
            self.qk_rope_head_dim as nat,
        )
    }

    /// What keys and values are made from.
    pub open spec fn kv_source<T>(&self, latent: Seq<T>, tokens: nat) -> Seq<T> {
        columns(latent, tokens, self.latent_width(), 0, self.kv_lora_rank as nat)
    }

    /// The key part that is rotated, one row for all heads.
    pub open spec fn turned_keys<T>(&self, latent: Seq<T>, tokens: nat) -> Seq<T> {
        columns(
            latent,
            tokens,
            self.latent_width(),
            self.kv_lora_rank as nat,
            self.qk_rope_head_dim as nat,
        )
    }
}

impl<T: Copy, F: Fn(ScalarOp, T, T) -> T, C: Fn(Number) -> T, Z: Fn(Relation, T, T) -> bool> Scalars<T, F, C, Z> {
    /// Latent attention turns `input` into `out`: queries come from their two
    /// projections and are split and rotated, keys and values come from theirs
    /// and join the history, every head of every token is attended over what
    /// it may see, and what comes out is projected.
    pub open spec fn mla_ran<G, R, H>(
        &self,
        outside: &Surroundings<G, R, H>,
        mla: &KimiK3Mla,
        positions: Seq<u32>,
        before: Option<MlaCache<T>>,
        after: MlaCache<T>,
        input: Seq<T>,
        rows: MlaRows<T>,
        out: Seq<T>,
    ) -> bool where G: Fn(MlaPart, Vec<T>) -> Vec<T>, R: Fn(Vec<T>, Vec<u32>) -> Vec<T> {
        let tokens = positions.len();
        let heads = mla.num_heads as nat;
        &&& outside.part_ran(MlaPart::QueryDown, input, rows.q_lat)
        &&& outside.part_ran(MlaPart::QueryUp, rows.q_lat, rows.q_full)
        &&& outside.rotated(
            mla.turned_queries(rows.q_full, tokens),
            expanded(positions, heads),
            rows.q_rope,
        )
        &&& outside.part_ran(MlaPart::KvDown, input, rows.latent)
        &&& outside.rotated(mla.turned_keys(rows.latent, tokens), positions, rows.k_rope)
        &&& outside.part_ran(MlaPart::KvUp, mla.kv_source(rows.latent, tokens), rows.kv_b)
        &&& after.k@ == past_k(before) + columns(
            rows.kv_b,
            tokens * heads,
            mla.kv_head(),
            0,
            mla.qk_nope_head_dim as nat,
        )
        &&& after.v@ == past_v(before) + columns(
            rows.kv_b,
            tokens * heads,
            mla.kv_head(),
            mla.qk_nope_head_dim as nat,
            mla.v_head_dim as nat,
        )
        &&& after.rope@ == past_rope(before) + rows.k_rope
        &&& rows.sized(mla, tokens)
        &&& forall|r: int|
            0 <= r < tokens * heads ==> #[trigger] row(rows.attended, r, mla.v_head_dim as nat)
                == self.mla_row(
                mla,
                mla.plain_queries(rows.q_full, tokens),
                rows.q_rope,
                after.k@,
                after.rope@,
                after.v@,
                mla.cached(before),
                r,
            )
        &&& outside.part_ran(MlaPart::Out, rows.attended, out)
    }
}

impl KimiK3Mla {
    fn ask<
        T: Copy,
        G: Fn(MlaPart, Vec<T>) -> Vec<T>,
        R: Fn(Vec<T>, Vec<u32>) -> Vec<T>,
        H,
    >(
        &self,
        outside: &Surroundings<G, R, H>,
        part: MlaPart,
        rows: &Vec<T>,
        Ghost(hidden): Ghost<nat>,
        Ghost(tokens): Ghost<nat>,
    ) -> (r: Vec<T>)
        requires
            self.served_by::<T, G, R, H>(outside, hidden, tokens),
            rows@.len() == tokens * self.part_takes(hidden, part),
        ensures
            outside.part_ran(part, rows@, r@),
            r@.len() == tokens * self.part_gives(hidden, part),
    {
        assert(outside.part_fits::<MlaPart, T>(
            part,
            tokens,
            self.part_takes(hidden, part),
            self.part_gives(hidden, part),
        ));
        outside.run(part, rows)
    }

    /// Runs latent attention on one row per position, behind what the history
    /// holds.
    pub fn forward_rows<
        T: Copy,
        F: Fn(ScalarOp, T, T) -> T,
        C: Fn(Number) -> T,
        Z: Fn(Relation, T, T) -> bool,
        G: Fn(MlaPart, Vec<T>) -> Vec<T>,
        R: Fn(Vec<T>, Vec<u32>) -> Vec<T>,
        H,
    >(
        &self,
        x: &Scalars<T, F, C, Z>,
        outside: &Surroundings<G, R, H>,
        input: &Vec<T>,
        hidden: usize,
        positions: &[u32],
        cache: &mut Option<MlaCache<T>>,
    ) -> (out: Vec<T>)
        requires
            x.wf(),
            self.served_by::<T, G, R, H>(outside, hidden as nat, positions@.len()),
            input@.len() == positions@.len() * hidden,
            self.holds(*old(cache), self.cached(*old(cache))),
            *old(cache) is Some ==> self.num_heads * self.qk_nope_head_dim > 0,
            self.call_fits(self.cached(*old(cache)), positions@.len()),
        ensures
            out@.len() == positions@.len() * hidden,
            *final(cache) matches Some(after) && exists|rows: MlaRows<T>| #[trigger]
                x.mla_ran(
                    outside,
                    self,
                    positions@,
                    *old(cache),
                    after,
                    input@,
                    rows,
                    out@,
                ),
            self.holds(*final(cache), self.cached(*old(cache)) + positions@.len()),
    {
        let tokens: usize = positions.len();
        let ghost n = positions@.len();
        let ghost h = hidden as nat;
        let ghost before = *cache;
        let q_lat = self.ask(outside, MlaPart::QueryDown, input, Ghost(h), Ghost(n));
        let q_full = self.ask(outside, MlaPart::QueryUp, &q_lat, Ghost(h), Ghost(n));
        proof {
            let (t, g) = (tokens as int, self.num_heads as int);
            let (a, b) = (self.query_head() as int, self.kv_head() as int);
            let (r, v) = (self.qk_rope_head_dim as int, self.v_head_dim as int);
            assert(t * (g * a) == (t * g) * a && t * (g * b) == (t * g) * b && t * (g * v) == (t
                * g) * v) by (nonlinear_arith);
        }
        let q = self.split_query(q_full.as_slice(), tokens);
        let latent = self.ask(outside, MlaPart::KvDown, input, Ghost(h), Ghost(n));
        let l = self.split_latent(latent.as_slice(), tokens);
        let q_rope = outside.turn(&q.rope, expand_positions(positions, self.num_heads));
        let own = copy_range(positions, 0, tokens);
        assert(own@ =~= positions@);
        let k_rope = outside.turn(&l.k_rope, own);
        let kv_b = self.ask(outside, MlaPart::KvUp, &l.kv_a, Ghost(h), Ghost(n));
        let turned = MlaQuery { nope: q.nope, rope: q_rope };
        let attended = self.forward(
            x,
            &turned,
            kv_b.as_slice(),
            k_rope.as_slice(),
            tokens,
            cache,
        );
        let out = self.ask(outside, MlaPart::Out, &attended, Ghost(h), Ghost(n));
        proof {
            let rows = MlaRows {
                q_lat: q_lat@,
                q_full: q_full@,
                q_rope: turned.rope@,
                latent: latent@,
                k_rope: k_rope@,
                kv_b: kv_b@,
                attended: attended@,
            };
            assert(x.mla_ran(
                outside,
                self,
                positions@,
                before,
                cache->0,
                input@,
                rows,
                out@,
            ));
        }
        out
    }
}

} // verus!
