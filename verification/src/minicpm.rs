//! MiniCPM: optional scales on embeddings, sublayers and logits, and a paged
//! history next to the plain one.

use crate::block_program::{
    Activation, AttentionDesign, BlockDesign, Ffn, FfnInput,
};
use crate::error::Error;
use crate::head_map::{
    law_head_tables_agree,
    grouped_heads, grouped_table, lemma_enough_heads, lemma_group_below, lemma_spread_below,
    spread_heads, spread_table,
};
use crate::kv_attention::{causal_attention, head_block, kv_head_of};
use crate::modality::ModalityHint;
use crate::numeric::{Real, ONE};
use crate::rows::{
    append_all, columns, copy_range, lemma_row_bounds, take_columns,
};
use crate::scalar::{Number, Relation, ScalarOp, Scalars};
use crate::weights::{
    either, in_layer, plain, required, rms_norm, LoadStep, ModelPlan, Weight,
};
use vstd::prelude::*;

verus! {

/// The settings of a MiniCPM model.
#[derive(Debug, Clone, Copy)]
pub struct MiniCpmConfig {
    pub vocab_size: usize,
    pub hidden_size: usize,
    pub num_heads: usize,
    pub num_kv_heads: usize,
    pub head_dim: usize,
    pub num_layers: usize,
    pub intermediate_size: usize,
    pub rms_norm_eps: Real,
    pub rope_theta: Real,
    pub scale_emb: Option<Real>,
    pub scale_depth: Option<Real>,
    pub dim_model_base: Option<Real>,
}

impl MiniCpmConfig {
    /// The family's name.
    pub fn name(&self) -> (name: &'static str)
        ensures
            name@ == "minicpm"@,
    {
        "minicpm"
    }

    /// Text in, text out.
    pub fn modality(&self) -> (m: ModalityHint)
        ensures
            m == ModalityHint::TextInTextOut,
    {
        ModalityHint::TextInTextOut
    }

    /// Every width that the weights have fits.
    pub open spec fn fits(&self) -> bool {
        &&& self.num_heads * self.head_dim <= usize::MAX
        &&& self.num_kv_heads * self.head_dim <= usize::MAX
    }
}

/// How heads are spread over the devices: what one device holds.
#[derive(Debug, Clone, Copy)]
pub struct HeadSharding {
    pub local_num_heads: usize,
    pub local_num_kv_heads: usize,
    pub kv_head_replica_factor: usize,
}

/// What a block needs to know of its model.
#[derive(Debug, Clone, Copy)]
pub struct MiniCpmConfigRefs {
    pub hidden_size: usize,
    pub num_heads: usize,
    pub num_kv_heads: usize,
    pub head_dim: usize,
    pub intermediate_size: usize,
    pub local_num_heads: usize,
    pub local_num_kv_heads: usize,
    pub kv_head_replica_factor: usize,
    pub scale_depth_factor: Real,
}

/// A block.
#[derive(Debug, Clone, Copy)]
pub struct MiniCpmBlock {
    pub cfg: MiniCpmConfigRefs,
    pub rope_theta: Real,
}

/// The weights of a layer.
pub open spec fn minicpm_layer_plan(cfg: &MiniCpmConfig, layer: usize) -> Seq<LoadStep> {
    let q = (cfg.num_heads * cfg.head_dim) as usize;
    let kv = (cfg.num_kv_heads * cfg.head_dim) as usize;
    let hidden = cfg.hidden_size;
    let inter = cfg.intermediate_size;
    seq![
        rms_norm(in_layer("layers", layer, "", "attn_norm"), hidden),
        required(
            in_layer("layers", layer, "attn", "wq"),
            Weight::ColumnParallel { inputs: hidden, outputs: q, bias: false },
        ),
        required(
            in_layer("layers", layer, "attn", "wk"),
            Weight::ColumnParallel { inputs: hidden, outputs: kv, bias: false },
        ),
        required(
            in_layer("layers", layer, "attn", "wv"),
            Weight::ColumnParallel { inputs: hidden, outputs: kv, bias: false },
        ),
        required(
            in_layer("layers", layer, "attn", "wo"),
            Weight::RowParallel { inputs: q, outputs: hidden, bias: false },
        ),
        rms_norm(in_layer("layers", layer, "", "ffn_norm"), hidden),
        required(
            in_layer("layers", layer, "ffn", "w_gate"),
            Weight::ColumnParallel { inputs: hidden, outputs: inter, bias: false },
        ),
        required(
            in_layer("layers", layer, "ffn", "w_up"),
            Weight::ColumnParallel { inputs: hidden, outputs: inter, bias: false },
        ),
        required(
            in_layer("layers", layer, "ffn", "w_down"),
            Weight::RowParallel { inputs: inter, outputs: hidden, bias: false },
        ),
    ]
}

/// Tokens of a call: sequences and tokens per sequence.
#[derive(Debug, Clone, Copy, PartialEq, Eq, Structural)]
pub struct Batch {
    pub sequences: usize,
    pub tokens: usize,
}

/// Rows of tokens have the dimensions sequence, token, width, or token, width.
pub open spec fn batch_of(dims: Seq<usize>) -> Option<Batch> {
    if dims.len() == 3 {
        Some(Batch { sequences: dims[0], tokens: dims[1] })
    } else if dims.len() == 2 {
        Some(Batch { sequences: 1, tokens: dims[0] })
    } else {
        None
    }
}

/// Reads the batch off the dimensions of rows of tokens.
pub fn read_batch(dims: &[usize]) -> (r: Option<Batch>)
    ensures
        r == batch_of(dims@),
{
    if dims.len() == 3 {
        Some(Batch { sequences: dims[0], tokens: dims[1] })
    } else if dims.len() == 2 {
        Some(Batch { sequences: 1, tokens: dims[0] })
    } else {
        None
    }
}

/// The dimensions of rows of tokens without the sequence dimension.
pub open spec fn flat_dims(dims: Seq<usize>) -> Seq<usize> {
    if dims.len() == 3 {
        seq![(dims[0] * dims[1]) as usize, dims[2]]
    } else {
        dims
    }
}

/// Merges sequences and tokens into one dimension; other ranks stay.
pub fn flatten_dims(dims: &[usize]) -> (r: Vec<usize>)
    requires
        dims@.len() == 3 ==> dims@[0] * dims@[1] <= usize::MAX,
    ensures
        r@ == flat_dims(dims@),
{
    if dims.len() == 3 {
        vec![dims[0] * dims[1], dims[2]]
    } else {
        copy_range(dims, 0, dims.len())
    }
}

/// The positions of rotated rows: one per token and head. A token without a
/// position counts from zero.
pub open spec fn head_positions(positions: Seq<u32>, tokens: nat, heads: nat) -> Seq<u32> {
    Seq::new(
        tokens * heads,
        |i: int|
            {
                let t = i / heads as int;
                if t < positions.len() {
                    positions[t]
                } else {
                    t as u32
                }
            },
    )
}

/// Repeats every token's position for each of its heads.
pub fn repeat_positions(positions: &[u32], tokens: usize, heads: usize) -> (out: Vec<u32>)
    requires
        tokens * heads <= usize::MAX,
    ensures
        out@ == head_positions(positions@, tokens as nat, heads as nat),
{
    let n: usize = tokens * heads;
    let mut out: Vec<u32> = Vec::new();
    let mut i: usize = 0;
    while i < n
        invariant
            i <= n,
            n == tokens * heads,
            out@.len() == i,
            forall|j: int|
                0 <= j < i ==> #[trigger] out@[j] == head_positions(
                    positions@,
                    tokens as nat,
                    heads as nat,
                )[j],
        decreases n - i,
    {
        proof {
            crate::rows::lemma_flat_index(i as int, tokens as int, heads as int);
        }
        let t: usize = i / heads;
        if t < positions.len() {
            out.push(positions[t]);
        } else {
            out.push(t as u32);
        }
        i = i + 1;
    }
    out
}

/// Rows padded on the right to a width.
pub open spec fn padded_rows<T>(data: Seq<T>, rows: nat, len: nat, width: nat, zero: T) -> Seq<T> {
    Seq::new(
        rows * width,
        |i: int|
            {
                let c = i % width as int;
                if c < len {
                    data[(i / width as int) * len + c]
                } else {
                    zero
                }
            },
    )
}

/// Pads every row on the right.
pub fn pad_rows<T: Copy>(data: &[T], rows: usize, len: usize, width: usize, zero: T) -> (out: Vec<
    T,
>)
    requires
        rows * width <= usize::MAX,
        len <= width,
        rows * len <= data@.len(),
    ensures
        out@ == padded_rows(data@, rows as nat, len as nat, width as nat, zero),
{
    let n: usize = rows * width;
    let available: usize = data.len();
    let mut out: Vec<T> = Vec::new();
    let mut i: usize = 0;
    while i < n
        invariant
            i <= n,
            n == rows * width,
            len <= width,
            available == data@.len(),
            rows * len <= available,
            out@.len() == i,
            forall|j: int|
                0 <= j < i ==> #[trigger] out@[j] == padded_rows(
                    data@,
                    rows as nat,
                    len as nat,
                    width as nat,
                    zero,
                )[j],
        decreases n - i,
    {
        proof {
            crate::rows::lemma_flat_index(i as int, rows as int, width as int);
        }
        let r: usize = i / width;
        let c: usize = i % width;
        if c < len {
            proof {
                crate::rows::lemma_cell_in_rows(r as int, c as int, rows as int, len as int);
            }
            out.push(data[r * len + c]);
        } else {
            out.push(zero);
        }
        i = i + 1;
    }
    out
}

/// Where a call starts: its first position, or zero without one.
pub open spec fn first_position(positions: Seq<u32>) -> nat {
    if positions.len() > 0 {
        positions[0] as nat
    } else {
        0
    }
}

/// Sequence `b` of a buffer of equal parts.
pub open spec fn part<T>(data: Seq<T>, b: int, len: nat) -> Seq<T> {
    data.subrange(b * len, b * len + len)
}

impl<T: Copy, F: Fn(ScalarOp, T, T) -> T, C: Fn(Number) -> T, Z: Fn(Relation, T, T) -> bool> Scalars<T, F, C, Z> {
    /// Every head of every token of sequence `b` is attended, and the results
    /// lie in its part of `out`.
    pub open spec fn sequence_done(
        &self,
        q: Seq<T>,
        k: Seq<T>,
        v: Seq<T>,
        tokens: nat,
        total: nat,
        past: nat,
        heads: nat,
        head_dim: nat,
        kv_row: nat,
        table: Seq<usize>,
        out: Seq<T>,
        b: int,
    ) -> bool {
        let row = heads * head_dim;
        forall|t: int, h: int|
            0 <= t < tokens && 0 <= h < heads ==> #[trigger] head_block(
                part(out, b, tokens * row),
                t,
                h,
                row,
                head_dim,
            ) == self.head_attended(
                None,
                part(q, b, tokens * row),
                k,
                v,
                total,
                past,
                head_dim,
                row,
                kv_row,
                table,
                t,
                h,
            )
    }
}

impl MiniCpmBlock {
    /// What a block keeps of a configuration. Sublayers are scaled only where
    /// the configuration says so.
    pub fn new(cfg: &MiniCpmConfig, sharding: HeadSharding) -> (block: MiniCpmBlock)
        ensures
            block.rope_theta == cfg.rope_theta,
            block.cfg == (MiniCpmConfigRefs {
                hidden_size: cfg.hidden_size,
                num_heads: cfg.num_heads,
                num_kv_heads: cfg.num_kv_heads,
                head_dim: cfg.head_dim,
                intermediate_size: cfg.intermediate_size,
                local_num_heads: sharding.local_num_heads,
                local_num_kv_heads: sharding.local_num_kv_heads,
                kv_head_replica_factor: sharding.kv_head_replica_factor,
                scale_depth_factor: match cfg.scale_depth {
                    Some(scale) => scale,
                    None => Real { bits: ONE },
                },
            }),
    {
        MiniCpmBlock {
            cfg: MiniCpmConfigRefs {
                hidden_size: cfg.hidden_size,
                num_heads: cfg.num_heads,
                num_kv_heads: cfg.num_kv_heads,
                head_dim: cfg.head_dim,
                intermediate_size: cfg.intermediate_size,
                local_num_heads: sharding.local_num_heads,
                local_num_kv_heads: sharding.local_num_kv_heads,
                kv_head_replica_factor: sharding.kv_head_replica_factor,
                scale_depth_factor: match cfg.scale_depth {
                    Some(scale) => scale,
                    None => Real { bits: ONE },
                },
            },
            rope_theta: cfg.rope_theta,
        }
    }

    /// The weights of a layer.
    pub fn load(cfg: &MiniCpmConfig, layer: usize) -> (plan: Vec<LoadStep>)
        requires
            cfg.fits(),
        ensures
            plan@ == minicpm_layer_plan(cfg, layer),
    {
        let q: usize = cfg.num_heads * cfg.head_dim;
        let kv: usize = cfg.num_kv_heads * cfg.head_dim;
        let hidden: usize = cfg.hidden_size;
        let inter: usize = cfg.intermediate_size;
        vec![
            rms_norm(in_layer("layers", layer, "", "attn_norm"), hidden),
            required(
                in_layer("layers", layer, "attn", "wq"),
                Weight::ColumnParallel { inputs: hidden, outputs: q, bias: false },
            ),
            required(
                in_layer("layers", layer, "attn", "wk"),
                Weight::ColumnParallel { inputs: hidden, outputs: kv, bias: false },
            ),
            required(
                in_layer("layers", layer, "attn", "wv"),
                Weight::ColumnParallel { inputs: hidden, outputs: kv, bias: false },
            ),
            required(
                in_layer("layers", layer, "attn", "wo"),
                Weight::RowParallel { inputs: q, outputs: hidden, bias: false },
            ),
            rms_norm(in_layer("layers", layer, "", "ffn_norm"), hidden),
            required(
                in_layer("layers", layer, "ffn", "w_gate"),
                Weight::ColumnParallel { inputs: hidden, outputs: inter, bias: false },
            ),
            required(
                in_layer("layers", layer, "ffn", "w_up"),
                Weight::ColumnParallel { inputs: hidden, outputs: inter, bias: false },
            ),
            required(
                in_layer("layers", layer, "ffn", "w_down"),
                Weight::RowParallel { inputs: inter, outputs: hidden, bias: false },
            ),
        ]
    }

    /// The parts of a block.
    pub open spec fn design(&self) -> BlockDesign {
        BlockDesign {
            hidden: self.cfg.hidden_size,
            inter: self.cfg.intermediate_size,
            attention: AttentionDesign {
                heads: self.cfg.local_num_heads,
                kv_heads: self.cfg.local_num_kv_heads,
                head_dim: self.cfg.head_dim,
                cached: false,
                window: None,
                softcap: None,
            },
            layer_norm: false,
            fused_qkv: false,
            qk_norm: false,
            rope_theta: Some(self.rope_theta),
            rotary_dim: self.cfg.head_dim,
            rope_sections: None,
            post_attn_norm: false,
            ffn_input: FfnInput::NormedResidual,
            ffn: Ffn::Gated(Activation::Silu),
            post_ffn_norm: false,
            residual_scale: if self.cfg.scale_depth_factor.spec_departs_from_one() {
                Some(self.cfg.scale_depth_factor)
            } else {
                None
            },
        }
    }

    /// The parts of a block, for running it.
    pub fn block_design(&self) -> (design: BlockDesign)
        ensures
            design == self.design(),
    {
        BlockDesign {
            hidden: self.cfg.hidden_size,
            inter: self.cfg.intermediate_size,
            attention: AttentionDesign {
                heads: self.cfg.local_num_heads,
                kv_heads: self.cfg.local_num_kv_heads,
                head_dim: self.cfg.head_dim,
                cached: false,
                window: None,
                softcap: None,
            },
            layer_norm: false,
            fused_qkv: false,
            qk_norm: false,
            rope_theta: Some(self.rope_theta),
            rotary_dim: self.cfg.head_dim,
            rope_sections: None,
            post_attn_norm: false,
            ffn_input: FfnInput::NormedResidual,
            ffn: Ffn::Gated(Activation::Silu),
            post_ffn_norm: false,
            residual_scale: if self.cfg.scale_depth_factor.departs_from_one() {
                Some(self.cfg.scale_depth_factor)
            } else {
                None
            },
        }
    }

    /// Rotates every head of every token.
    ///
    /// `rotate` takes rows of one head each with their positions. Columns
    /// behind the heads come out as zeros.
    pub fn apply_rope_multi_head<T: Copy, F: Fn(Vec<T>, Vec<u32>) -> Vec<T>>(
        &self,
        data: &[T],
        dims: &[usize],
        positions: &[u32],
        num_heads: usize,
        zero: T,
        rotate: F,
    ) -> (result: Result<Vec<T>, Error>)
        requires
            num_heads * self.cfg.head_dim <= usize::MAX,
            batch_of(dims@) matches Some(b) ==> {
                &&& b.sequences * b.tokens <= usize::MAX
                &&& (b.sequences * b.tokens) * dims@.last() <= usize::MAX
                &&& (b.sequences * b.tokens) * dims@.last() == data@.len()
                &&& b.tokens * num_heads <= usize::MAX
                &&& num_heads * self.cfg.head_dim <= dims@.last()
            },
            batch_of(dims@) matches Some(b) ==> {
                let elements = (b.sequences * b.tokens) * (num_heads * self.cfg.head_dim);
                let at = head_positions(positions@, b.tokens as nat, num_heads as nat);
                &&& forall|a: Vec<T>, p: Vec<u32>|
                    a@.len() == elements && p@ == at ==> #[trigger] call_requires(rotate, (a, p))
                &&& forall|a: Vec<T>, p: Vec<u32>, r: Vec<T>| #[trigger]
                    call_ensures(rotate, (a, p), r) && a@.len() == elements && p@ == at
                        ==> r@.len() == a@.len()
            },
        ensures
            match batch_of(dims@) {
                None => result matches Err(Error::RowRank { context, shape })
                    && context@ == "expected 2-D or 3-D tensor"@ && shape@ == dims@,
                Some(b) => result matches Ok(out) && exists|a: Vec<T>, p: Vec<u32>, r: Vec<T>|
                    a@ == columns(
                        data@,
                        (b.sequences * b.tokens) as nat,
                        dims@.last() as nat,
                        0,
                        (num_heads * self.cfg.head_dim) as nat,
                    ) && p@ == head_positions(positions@, b.tokens as nat, num_heads as nat)
                        && out@ == padded_rows(
                        r@,
                        (b.sequences * b.tokens) as nat,
                        (num_heads * self.cfg.head_dim) as nat,
                        dims@.last() as nat,
                        zero,
                    ) && #[trigger] call_ensures(rotate, (a, p), r),
            },
    {
        match read_batch(dims) {
            None => Err(
                Error::RowRank {
                    context: "expected 2-D or 3-D tensor",
                    shape: copy_range(dims, 0, dims.len()),
                },
            ),
            Some(b) => {
                let rows: usize = b.sequences * b.tokens;
                let width: usize = dims[dims.len() - 1];
                let used: usize = num_heads * self.cfg.head_dim;
                let heads = take_columns(data, rows, width, 0, used);
                let pos = repeat_positions(positions, b.tokens, num_heads);
                let ghost args = (heads, pos);
                let rotated = rotate(heads, pos);
                proof {
                    assert(call_ensures(rotate, args, rotated));
                }
                let out = pad_rows(rotated.as_slice(), rows, used, width, zero);
                Ok(out)
            },
        }
    }

    /// The local sizes fit and heads share key-value heads.
    pub open spec fn attends(&self, b: Batch) -> bool {
        let row = self.cfg.local_num_heads * self.cfg.head_dim;
        let kv_row = self.cfg.local_num_kv_heads * self.cfg.head_dim;
        &&& 0 < self.cfg.local_num_kv_heads
        &&& row <= usize::MAX
        &&& kv_row <= usize::MAX
        &&& b.sequences * (b.tokens * row) <= usize::MAX
        &&& b.sequences * (b.tokens * kv_row) <= usize::MAX
        &&& b.tokens * row <= usize::MAX
        &&& b.tokens * kv_row <= usize::MAX
        &&& b.tokens * self.cfg.head_dim <= usize::MAX
        &&& self.cfg.local_num_heads * self.cfg.local_num_kv_heads <= usize::MAX
    }

    /// Sequence `s` was attended over its own rows.
    pub open spec fn prefilled_done<
        T: Copy,
        F: Fn(ScalarOp, T, T) -> T,
        C: Fn(Number) -> T,
        Z: Fn(Relation, T, T) -> bool,
    >(
        &self,
        x: &Scalars<T, F, C, Z>,
        q: Seq<T>,
        k: Seq<T>,
        v: Seq<T>,
        tokens: nat,
        out: Seq<T>,
        s: int,
    ) -> bool {
        let kv_row = (self.cfg.local_num_kv_heads * self.cfg.head_dim) as nat;
        x.sequence_done(
            q,
            part(k, s, tokens * kv_row),
            part(v, s, tokens * kv_row),
            tokens,
            tokens,
            0,
            self.cfg.local_num_heads as nat,
            self.cfg.head_dim as nat,
            kv_row,
            grouped_heads(self.cfg.local_num_heads as nat, self.cfg.local_num_kv_heads as nat),
            out,
            s,
        )
    }

    /// Attends every sequence over its own rows.
    pub fn prefilled_self_attention<
        T: Copy,
        F: Fn(ScalarOp, T, T) -> T,
        C: Fn(Number) -> T,
        Z: Fn(Relation, T, T) -> bool,
    >(
        &self,
        x: &Scalars<T, F, C, Z>,
        q: &[T],
        k: &[T],
        v: &[T],
        dims: &[usize],
    ) -> (result: Result<Vec<T>, Error>)
        requires
            x.wf(),
            batch_of(dims@) matches Some(b) ==> {
                let row = self.cfg.local_num_heads * self.cfg.head_dim;
                let kv_row = self.cfg.local_num_kv_heads * self.cfg.head_dim;
                &&& self.attends(b)
                &&& self.cfg.local_num_heads % self.cfg.local_num_kv_heads == 0
                &&& q@.len() == b.sequences * (b.tokens * row)
                &&& k@.len() == b.sequences * (b.tokens * kv_row)
                &&& v@.len() == b.sequences * (b.tokens * kv_row)
            },
        ensures
            match batch_of(dims@) {
                None => result matches Err(Error::RowRank { context, shape }) && context@
                    == "minicpm prefilled_self_attention: expected 2-D or 3-D q"@ && shape@
                    == dims@,
                Some(b) => result matches Ok(out) && out@.len() == b.sequences * (b.tokens
                    * (self.cfg.local_num_heads * self.cfg.head_dim)) && forall|s: int|
                    0 <= s < b.sequences ==> #[trigger] self.prefilled_done(
                        x,
                        q@,
                        k@,
                        v@,
                        b.tokens as nat,
                        out@,
                        s,
                    ),
            },
    {
        let b: Batch = match read_batch(dims) {
            None => {
                return Err(
                    Error::RowRank {
                        context: "minicpm prefilled_self_attention: expected 2-D or 3-D q",
                        shape: copy_range(dims, 0, dims.len()),
                    },
                );
            },
            Some(b) => b,
        };
        let heads: usize = self.cfg.local_num_heads;
        let kv_heads: usize = self.cfg.local_num_kv_heads;
        let head_dim: usize = self.cfg.head_dim;
        let row: usize = heads * head_dim;
        let kv_row: usize = kv_heads * head_dim;
        let tokens: usize = b.tokens;
        let seq: usize = tokens * row;
        let kv_seq: usize = tokens * kv_row;
        proof {
            if heads > 0 {
                lemma_enough_heads(heads as int, kv_heads as int);
            }
        }
        let table = grouped_table(heads, kv_heads);
        let mut out: Vec<T> = Vec::new();
        let mut s: usize = 0;
        while s < b.sequences
            invariant
                s <= b.sequences,
                self.attends(b),
                heads == self.cfg.local_num_heads,
                kv_heads == self.cfg.local_num_kv_heads,
                head_dim == self.cfg.head_dim,
                0 < kv_heads,
                heads % kv_heads == 0,
                row == heads * head_dim,
                kv_row == kv_heads * head_dim,
                tokens == b.tokens,
                seq == tokens * row,
                kv_seq == tokens * kv_row,
                table@ == grouped_heads(heads as nat, kv_heads as nat),
                q@.len() == b.sequences * seq,
                k@.len() == b.sequences * kv_seq,
                v@.len() == b.sequences * kv_seq,
                x.wf(),
                out@.len() == s * seq,
                forall|i: int|
                    0 <= i < s ==> #[trigger] x.sequence_done(
                        q@,
                        part(k@, i, kv_seq as nat),
                        part(v@, i, kv_seq as nat),
                        tokens as nat,
                        tokens as nat,
                        0,
                        heads as nat,
                        head_dim as nat,
                        kv_row as nat,
                        table@,
                        out@,
                        i,
                    ),
            decreases b.sequences - s,
        {
            proof {
                lemma_row_bounds(s as int, b.sequences as int, seq as int);
                lemma_row_bounds(s as int, b.sequences as int, kv_seq as int);
            }
            let q_part = copy_range(q, s * seq, seq);
            let k_part = copy_range(k, s * kv_seq, kv_seq);
            let v_part = copy_range(v, s * kv_seq, kv_seq);
            proof {
                if tokens > 0 {
                    lemma_row_bounds(tokens - 1, tokens as int, row as int);
                    lemma_row_bounds(tokens - 1, tokens as int, kv_row as int);
                    assert forall|h: int| 0 <= h < heads implies {
                        let head = #[trigger] kv_head_of(table@, h);
                        &&& crate::kv_attention::history_reaches(
                            k_part@.len(),
                            tokens - 1,
                            kv_row as nat,
                            head,
                            head_dim as nat,
                        )
                        &&& crate::kv_attention::history_reaches(
                            v_part@.len(),
                            tokens - 1,
                            kv_row as nat,
                            head,
                            head_dim as nat,
                        )
                    } by {
                        lemma_group_below(h, heads as int, kv_heads as int);
                        let head = kv_head_of(table@, h) as int;
                        assert((head + 1) * head_dim <= kv_heads * head_dim) by (nonlinear_arith)
                            requires
                                head + 1 <= kv_heads,
                                0 <= head_dim,
                        ;
                    }
                }
            }
            let block = causal_attention(
                x,
                None,
                q_part.as_slice(),
                k_part.as_slice(),
                v_part.as_slice(),
                tokens,
                tokens,
                0,
                heads,
                head_dim,
                row,
                kv_row,
                table.as_slice(),
            );
            let ghost before = out@;
            append_all(&mut out, block.as_slice());
            proof {
                assert(part(out@, s as int, seq as nat) =~= block@);
                assert(part(q@, s as int, seq as nat) =~= q_part@);
                assert forall|i: int| 0 <= i < s + 1 implies #[trigger] x.sequence_done(
                    q@,
                    part(k@, i, kv_seq as nat),
                    part(v@, i, kv_seq as nat),
                    tokens as nat,
                    tokens as nat,
                    0,
                    heads as nat,
                    head_dim as nat,
                    kv_row as nat,
                    table@,
                    out@,
                    i,
                ) by {
                    if i < s {
                        assert(x.sequence_done(
                            q@,
                            part(k@, i, kv_seq as nat),
                            part(v@, i, kv_seq as nat),
                            tokens as nat,
                            tokens as nat,
                            0,
                            heads as nat,
                            head_dim as nat,
                            kv_row as nat,
                            table@,
                            before,
                            i,
                        ));
                        lemma_row_bounds(i, s as int, seq as int);
                        assert(part(out@, i, seq as nat) =~= part(before, i, seq as nat));
                    }
                }
            }
            s = s + 1;
        }
        Ok(out)
    }

    /// Attends every sequence over one gathered history, which holds the rows
    /// of this call at its end.
    ///
    /// The first position says how many tokens were there before the call.
    pub fn paged_self_attention<
        T: Copy,
        F: Fn(ScalarOp, T, T) -> T,
        C: Fn(Number) -> T,
        Z: Fn(Relation, T, T) -> bool,
    >(
        &self,
        x: &Scalars<T, F, C, Z>,
        q: &[T],
        k_hist: &[T],
        v_hist: &[T],
        dims: &[usize],
        positions: &[u32],
    ) -> (result: Result<Vec<T>, Error>)
        requires
            x.wf(),
            batch_of(dims@) matches Some(b) ==> {
                let row = self.cfg.local_num_heads * self.cfg.head_dim;
                let kv_row = self.cfg.local_num_kv_heads * self.cfg.head_dim;
                &&& self.attends(b)
                &&& first_position(positions@) + b.tokens <= usize::MAX
                &&& (first_position(positions@) + b.tokens) * self.cfg.head_dim <= usize::MAX
                &&& q@.len() == b.sequences * (b.tokens * row)
                &&& k_hist@.len() == (first_position(positions@) + b.tokens) * kv_row
                &&& v_hist@.len() == (first_position(positions@) + b.tokens) * kv_row
            },
        ensures
            match batch_of(dims@) {
                None => result matches Err(Error::RowRank { context, shape }) && context@
                    == "minicpm paged_self_attention: expected 2-D or 3-D q"@ && shape@ == dims@,
                Some(b) => result matches Ok(out) && out@.len() == b.sequences * (b.tokens
                    * (self.cfg.local_num_heads * self.cfg.head_dim)) && forall|s: int|
                    0 <= s < b.sequences ==> #[trigger] x.sequence_done(
                        q@,
                        k_hist@,
                        v_hist@,
                        b.tokens as nat,
                        (first_position(positions@) + b.tokens) as nat,
                        first_position(positions@),
                        self.cfg.local_num_heads as nat,
                        self.cfg.head_dim as nat,
                        (self.cfg.local_num_kv_heads * self.cfg.head_dim) as nat,
                        spread_heads(
                            self.cfg.local_num_heads as nat,
                            self.cfg.local_num_kv_heads as nat,
                        ),
                        out@,
                        s,
                    ),
            },
    {
        let b: Batch = match read_batch(dims) {
            None => {
                return Err(
                    Error::RowRank {
                        context: "minicpm paged_self_attention: expected 2-D or 3-D q",
                        shape: copy_range(dims, 0, dims.len()),
                    },
                );
            },
            Some(b) => b,
        };
        let heads: usize = self.cfg.local_num_heads;
        let kv_heads: usize = self.cfg.local_num_kv_heads;
        let head_dim: usize = self.cfg.head_dim;
        let row: usize = heads * head_dim;
        let kv_row: usize = kv_heads * head_dim;
        let tokens: usize = b.tokens;
        let seq: usize = tokens * row;
        let past: usize = if positions.len() > 0 {
            positions[0] as usize
        } else {
            0
        };
        let total: usize = past + tokens;
        let table = spread_table(heads, kv_heads);
        let mut out: Vec<T> = Vec::new();
        let mut s: usize = 0;
        while s < b.sequences
            invariant
                s <= b.sequences,
                self.attends(b),
                heads == self.cfg.local_num_heads,
                kv_heads == self.cfg.local_num_kv_heads,
                head_dim == self.cfg.head_dim,
                0 < kv_heads,
                row == heads * head_dim,
                kv_row == kv_heads * head_dim,
                tokens == b.tokens,
                seq == tokens * row,
                total == past + tokens,
                total * head_dim <= usize::MAX,
                table@ == spread_heads(heads as nat, kv_heads as nat),
                q@.len() == b.sequences * seq,
                k_hist@.len() == total * kv_row,
                v_hist@.len() == total * kv_row,
                x.wf(),
                out@.len() == s * seq,
                forall|i: int|
                    0 <= i < s ==> #[trigger] x.sequence_done(
                        q@,
                        k_hist@,
                        v_hist@,
                        tokens as nat,
                        total as nat,
                        past as nat,
                        heads as nat,
                        head_dim as nat,
                        kv_row as nat,
                        table@,
                        out@,
                        i,
                    ),
            decreases b.sequences - s,
        {
            proof {
                lemma_row_bounds(s as int, b.sequences as int, seq as int);
            }
            let q_part = copy_range(q, s * seq, seq);
            proof {
                if tokens > 0 {
                    lemma_row_bounds(tokens - 1, tokens as int, row as int);
                    lemma_row_bounds(total - 1, total as int, kv_row as int);
                    assert forall|h: int| 0 <= h < heads implies {
                        let head = #[trigger] kv_head_of(table@, h);
                        &&& crate::kv_attention::history_reaches(
                            k_hist@.len(),
                            total - 1,
                            kv_row as nat,
                            head,
                            head_dim as nat,
                        )
                        &&& crate::kv_attention::history_reaches(
                            v_hist@.len(),
                            total - 1,
                            kv_row as nat,
                            head,
                            head_dim as nat,
                        )
                    } by {
                        lemma_spread_below(h, heads as int, kv_heads as int);
                        let head = kv_head_of(table@, h) as int;
                        assert((head + 1) * head_dim <= kv_heads * head_dim) by (nonlinear_arith)
                            requires
                                head + 1 <= kv_heads,
                                0 <= head_dim,
                        ;
                    }
                }
            }
            let block = causal_attention(
                x,
                None,
                q_part.as_slice(),
                k_hist,
                v_hist,
                tokens,
                total,
                past,
                heads,
                head_dim,
                row,
                kv_row,
                table.as_slice(),
            );
            let ghost before = out@;
            append_all(&mut out, block.as_slice());
            proof {
                assert(part(out@, s as int, seq as nat) =~= block@);
                assert(part(q@, s as int, seq as nat) =~= q_part@);
                assert forall|i: int| 0 <= i < s + 1 implies #[trigger] x.sequence_done(
                    q@,
                    k_hist@,
                    v_hist@,
                    tokens as nat,
                    total as nat,
                    past as nat,
                    heads as nat,
                    head_dim as nat,
                    kv_row as nat,
                    table@,
                    out@,
                    i,
                ) by {
                    if i < s {
                        assert(x.sequence_done(
                            q@,
                            k_hist@,
                            v_hist@,
                            tokens as nat,
                            total as nat,
                            past as nat,
                            heads as nat,
                            head_dim as nat,
                            kv_row as nat,
                            table@,
                            before,
                            i,
                        ));
                        lemma_row_bounds(i, s as int, seq as int);
                        assert(part(out@, i, seq as nat) =~= part(before, i, seq as nat));
                    }
                }
            }
            s = s + 1;
        }
        Ok(out)
    }
}

/// The token is in the vocabulary and its row is in the table.
pub open spec fn token_known(table_len: nat, vocab: nat, width: nat, id: nat) -> bool {
    id < vocab && (id + 1) * width <= table_len
}

/// Why a token has no row.
pub open spec fn token_fault(vocab: nat, id: nat) -> Error {
    if id >= vocab {
        Error::TokenRange { model: "MiniCPM", id: id as usize, vocab: vocab as usize }
    } else {
        Error::TableTooSmall { model: "MiniCPM" }
    }
}

/// Token `i` is the first without a row.
pub open spec fn first_unknown(table_len: nat, vocab: nat, width: nat, ids: Seq<u32>, i: int) -> bool {
    &&& 0 <= i < ids.len()
    &&& !token_known(table_len, vocab, width, ids[i] as nat)
    &&& forall|j: int|
        0 <= j < i ==> token_known(table_len, vocab, width, #[trigger] ids[j] as nat)
}

/// Looks every token up, or says why the first one without a row has none.
pub fn embed_tokens<T: Copy>(table: &[T], vocab: usize, width: usize, ids: &[u32]) -> (result:
    Result<Vec<T>, Error>)
    requires
        vocab * width <= usize::MAX,
        ids@.len() * width <= usize::MAX,
    ensures
        result is Ok <==> forall|i: int|
            0 <= i < ids@.len() ==> token_known(
                table@.len(),
                vocab as nat,
                width as nat,
                #[trigger] ids@[i] as nat,
            ),
        result matches Ok(rows) ==> rows@.len() == ids@.len() * width && forall|i: int|
            0 <= i < ids@.len() ==> #[trigger] part(rows@, i, width as nat) == part(
                table@,
                ids@[i] as int,
                width as nat,
            ),
        result matches Err(e) ==> exists|i: int| #[trigger]
            first_unknown(table@.len(), vocab as nat, width as nat, ids@, i) && e == token_fault(
                vocab as nat,
                ids@[i] as nat,
            ),
{
    let n: usize = ids.len();
    let available: usize = table.len();
    let mut rows: Vec<T> = Vec::new();
    let mut i: usize = 0;
    while i < n
        invariant
            i <= n,
            n == ids@.len(),
            available == table@.len(),
            vocab * width <= usize::MAX,
            rows@.len() == i * width,
            forall|j: int|
                0 <= j < i ==> token_known(
                    table@.len(),
                    vocab as nat,
                    width as nat,
                    #[trigger] ids@[j] as nat,
                ),
            forall|j: int|
                0 <= j < i ==> #[trigger] part(rows@, j, width as nat) == part(
                    table@,
                    ids@[j] as int,
                    width as nat,
                ),
        decreases n - i,
    {
        let id: usize = ids[i] as usize;
        if id >= vocab {
            proof {
                assert(first_unknown(table@.len(), vocab as nat, width as nat, ids@, i as int));
            }
            return Err(Error::TokenRange { model: "MiniCPM", id, vocab });
        }
        proof {
            lemma_row_bounds(id as int, vocab as int, width as int);
        }
        let start: usize = id * width;
        if start + width > available {
            proof {
                assert(first_unknown(table@.len(), vocab as nat, width as nat, ids@, i as int));
            }
            return Err(Error::TableTooSmall { model: "MiniCPM" });
        }
        let row = copy_range(table, start, width);
        let ghost before = rows@;
        append_all(&mut rows, row.as_slice());
        proof {
            assert((i + 1) * width == i * width + width) by (nonlinear_arith);
            assert forall|j: int| 0 <= j < i + 1 implies #[trigger] part(rows@, j, width as nat)
                == part(table@, ids@[j] as int, width as nat) by {
                if j < i {
                    lemma_row_bounds(j, i as int, width as int);
                    assert(part(rows@, j, width as nat) =~= part(before, j, width as nat));
                } else {
                    assert(part(rows@, j, width as nat) =~= row@);
                }
            }
        }
        i = i + 1;
    }
    Ok(rows)
}

/// A model.
#[derive(Debug, Clone, Copy)]
pub struct MiniCpmModel {
    pub cfg: MiniCpmConfig,
}

/// The plan names every weight of a model.
pub open spec fn minicpm_planned(cfg: &MiniCpmConfig, plan: &ModelPlan) -> bool {
    let head = Weight::Linear { inputs: cfg.hidden_size, outputs: cfg.vocab_size, bias: false };
    &&& plan.tok_embeddings == required(
        plain("", "tok_embeddings"),
        Weight::Embedding { rows: cfg.vocab_size, dim: cfg.hidden_size },
    )
    &&& plan.layers@.len() == cfg.num_layers
    &&& forall|i: int|
        0 <= i < cfg.num_layers ==> (#[trigger] plan.layers@[i])@ == minicpm_layer_plan(
            cfg,
            i as usize,
        )
    &&& plan.norm == rms_norm(plain("", "norm"), cfg.hidden_size)
    &&& plan.output == Some(either(plain("", "output"), head, plain("", "tok_embeddings"), head))
    &&& plan.positions is None
}

impl MiniCpmModel {
    /// The weights that a model asks for.
    pub fn load(cfg: &MiniCpmConfig) -> (plan: ModelPlan)
        requires
            cfg.fits(),
        ensures
            minicpm_planned(cfg, &plan),
    {
        let mut layers: Vec<Vec<LoadStep>> = Vec::new();
        let mut i: usize = 0;
        while i < cfg.num_layers
            invariant
                i <= cfg.num_layers,
                cfg.fits(),
                layers@.len() == i,
                forall|j: int|
                    0 <= j < i ==> (#[trigger] layers@[j])@ == minicpm_layer_plan(cfg, j as usize),
            decreases cfg.num_layers - i,
        {
            layers.push(MiniCpmBlock::load(cfg, i));
            i = i + 1;
        }
        let head = Weight::Linear { inputs: cfg.hidden_size, outputs: cfg.vocab_size, bias: false };
        ModelPlan {
            tok_embeddings: required(
                plain("", "tok_embeddings"),
                Weight::Embedding { rows: cfg.vocab_size, dim: cfg.hidden_size },
            ),
            positions: None,
            layers,
            norm: rms_norm(plain("", "norm"), cfg.hidden_size),
            output: Some(either(plain("", "output"), head, plain("", "tok_embeddings"), head)),
        }
    }
}

/// A first call gives the same whichever history it reads: where heads divide
/// evenly over key-value heads, attention over gathered pages that hold just
/// the rows of the call is attention over the rows themselves.
pub proof fn law_paged_attention_is_prefilled<
    T: Copy,
    F: Fn(ScalarOp, T, T) -> T,
    C: Fn(Number) -> T,
    Z: Fn(Relation, T, T) -> bool,
>(
    x: &Scalars<T, F, C, Z>,
    block: &MiniCpmBlock,
    q: Seq<T>,
    k: Seq<T>,
    v: Seq<T>,
    tokens: nat,
    out: Seq<T>,
)
    requires
        0 < block.cfg.local_num_kv_heads,
        block.cfg.local_num_heads % block.cfg.local_num_kv_heads == 0,
        k.len() == tokens * (block.cfg.local_num_kv_heads * block.cfg.head_dim),
        v.len() == tokens * (block.cfg.local_num_kv_heads * block.cfg.head_dim),
    ensures
        block.prefilled_done(x, q, k, v, tokens, out, 0) == x.sequence_done(
            q,
            k,
            v,
            tokens,
            tokens,
            0,
            block.cfg.local_num_heads as nat,
            block.cfg.head_dim as nat,
            (block.cfg.local_num_kv_heads * block.cfg.head_dim) as nat,
            spread_heads(block.cfg.local_num_heads as nat, block.cfg.local_num_kv_heads as nat),
            out,
            0,
        ),
{
    let kv_row = (block.cfg.local_num_kv_heads * block.cfg.head_dim) as nat;
    law_head_tables_agree(
        block.cfg.local_num_heads as nat,
        block.cfg.local_num_kv_heads as nat,
    );
    assert(0 * (tokens * kv_row) == 0);
    assert(part(k, 0, tokens * kv_row) =~= k);
    assert(part(v, 0, tokens * kv_row) =~= v);
}

} // verus!
