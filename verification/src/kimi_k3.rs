//! Kimi-K3: latent attention with low-rank query and key-value projections,
//! and a mixture of gated experts.

use crate::block_program::{gated_ops, gated_program, Activation, BlockOp, Reg};
use crate::json::{
    number_setting, positive_of, positive_or, read_number, read_unsigned, size, size_of,
    unsigned_setting,
};
use crate::kernels::attend_rows_in_parts;
use crate::modality::ModalityHint;
use crate::numeric::{Real, MILLIONTH, TEN_THOUSAND, TWO};
use crate::routing::route_tokens;
use crate::rows::{
    append_all, columns, copy_range, gather_rows, gathered, law_columns_of_prefix,
    lemma_flat_index, lemma_row_bounds, take_columns,
};
use crate::scalar::{Number, Relation, ScalarOp, Scalars};
use crate::stages::{PassDesign, Stage};
use crate::weights::{
    expert_plan, experts_plan, in_expert, in_layer, linear_shape, optional, plain, proj_names, push_experts, rms_norm,
    Fallback, LoadStep, ModelPlan, Weight,
};
use vstd::prelude::*;

verus! {

/// The settings of a Kimi-K3 model.
#[derive(Debug, Clone, Copy)]
pub struct KimiK3Config {
    pub vocab_size: usize,
    pub hidden_size: usize,
    pub num_attention_heads: usize,
    pub num_key_value_heads: usize,
    pub head_dim: usize,
    pub num_hidden_layers: usize,
    pub q_lora_rank: usize,
    pub kv_lora_rank: usize,
    pub qk_nope_head_dim: usize,
    pub qk_rope_head_dim: usize,
    pub v_head_dim: usize,
    pub num_experts: usize,
    pub num_experts_per_tok: usize,
    pub intermediate_size: usize,
    pub routed_scaling_factor: Real,
    pub rms_norm_eps: Real,
    pub rope_theta: Real,
}

impl Default for KimiK3Config {
    fn default() -> (cfg: Self)
        ensures
            cfg == (KimiK3Config {
                vocab_size: 163840,
                hidden_size: 2048,
                num_attention_heads: 16,
                num_key_value_heads: 16,
                head_dim: 128,
                num_hidden_layers: 28,
                q_lora_rank: 256,
                kv_lora_rank: 512,
                qk_nope_head_dim: 128,
                qk_rope_head_dim: 64,
                v_head_dim: 128,
                num_experts: 64,
                num_experts_per_tok: 6,
                intermediate_size: 1408,
                routed_scaling_factor: Real { bits: TWO },
                rms_norm_eps: Real { bits: MILLIONTH },
                rope_theta: Real { bits: TEN_THOUSAND },
            }),
    {
        KimiK3Config {
            vocab_size: 163840,
            hidden_size: 2048,
            num_attention_heads: 16,
            num_key_value_heads: 16,
            head_dim: 128,
            num_hidden_layers: 28,
            q_lora_rank: 256,
            kv_lora_rank: 512,
            qk_nope_head_dim: 128,
            qk_rope_head_dim: 64,
            v_head_dim: 128,
            num_experts: 64,
            num_experts_per_tok: 6,
            intermediate_size: 1408,
            routed_scaling_factor: Real { bits: TWO },
            rms_norm_eps: Real { bits: MILLIONTH },
            rope_theta: Real { bits: TEN_THOUSAND },
        }
    }
}

/// What a settings file says, as far as this model reads it.
#[derive(Debug, Clone, Copy)]
pub struct KimiK3Settings {
    pub vocab_size: Option<u64>,
    pub hidden_size: Option<u64>,
    pub num_attention_heads: Option<u64>,
    pub num_key_value_heads: Option<u64>,
    pub head_dim: Option<u64>,
    pub num_hidden_layers: Option<u64>,
    pub q_lora_rank: Option<u64>,
    pub kv_lora_rank: Option<u64>,
    pub qk_nope_head_dim: Option<u64>,
    pub qk_rope_head_dim: Option<u64>,
    pub v_head_dim: Option<u64>,
    pub num_experts: Option<u64>,
    pub num_experts_per_tok: Option<u64>,
    pub intermediate_size: Option<u64>,
    pub routed_scaling_factor: Option<u64>,
    pub rms_norm_eps: Option<u64>,
    pub rope_theta: Option<u64>,
}

impl KimiK3Settings {
    /// The settings under their keys in a file.
    pub open spec fn of(value: serde_json::Value) -> KimiK3Settings {
        KimiK3Settings {
            vocab_size: unsigned_setting(value, "vocab_size"@),
            hidden_size: unsigned_setting(value, "hidden_size"@),
            num_attention_heads: unsigned_setting(value, "num_attention_heads"@),
            num_key_value_heads: unsigned_setting(value, "num_key_value_heads"@),
            head_dim: unsigned_setting(value, "head_dim"@),
            num_hidden_layers: unsigned_setting(value, "num_hidden_layers"@),
            q_lora_rank: unsigned_setting(value, "q_lora_rank"@),
            kv_lora_rank: unsigned_setting(value, "kv_lora_rank"@),
            qk_nope_head_dim: unsigned_setting(value, "qk_nope_head_dim"@),
            qk_rope_head_dim: unsigned_setting(value, "qk_rope_head_dim"@),
            v_head_dim: unsigned_setting(value, "v_head_dim"@),
            num_experts: unsigned_setting(value, "num_experts"@),
            num_experts_per_tok: unsigned_setting(value, "num_experts_per_tok"@),
            intermediate_size: unsigned_setting(value, "intermediate_size"@),
            routed_scaling_factor: number_setting(value, "routed_scaling_factor"@),
            rms_norm_eps: number_setting(value, "rms_norm_eps"@),
            rope_theta: number_setting(value, "rope_theta"@),
        }
    }

    /// The configuration that the settings give: absent sizes are zero, and
    /// four settings have a stand-in where they are absent or not positive.
    pub open spec fn spec_config(self) -> KimiK3Config {
        KimiK3Config {
            vocab_size: size_of(self.vocab_size),
            hidden_size: size_of(self.hidden_size),
            num_attention_heads: size_of(self.num_attention_heads),
            num_key_value_heads: size_of(self.num_key_value_heads),
            head_dim: size_of(self.head_dim),
            num_hidden_layers: size_of(self.num_hidden_layers),
            q_lora_rank: size_of(self.q_lora_rank),
            kv_lora_rank: size_of(self.kv_lora_rank),
            qk_nope_head_dim: size_of(self.qk_nope_head_dim),
            qk_rope_head_dim: size_of(self.qk_rope_head_dim),
            v_head_dim: size_of(self.v_head_dim),
            num_experts: size_of(self.num_experts),
            num_experts_per_tok: size_of(self.num_experts_per_tok),
            intermediate_size: if size_of(self.intermediate_size) > 0 {
                size_of(self.intermediate_size)
            } else {
                1408
            },
            routed_scaling_factor: positive_of(
                self.routed_scaling_factor,
                Real { bits: TWO },
            ),
            rms_norm_eps: positive_of(self.rms_norm_eps, Real { bits: MILLIONTH }),
            rope_theta: positive_of(self.rope_theta, Real { bits: TEN_THOUSAND }),
        }
    }

    /// The configuration that the settings give.
    pub fn config(&self) -> (cfg: KimiK3Config)
        ensures
            cfg == self.spec_config(),
    {
        let given: usize = size(self.intermediate_size);
        KimiK3Config {
            vocab_size: size(self.vocab_size),
            hidden_size: size(self.hidden_size),
            num_attention_heads: size(self.num_attention_heads),
            num_key_value_heads: size(self.num_key_value_heads),
            head_dim: size(self.head_dim),
            num_hidden_layers: size(self.num_hidden_layers),
            q_lora_rank: size(self.q_lora_rank),
            kv_lora_rank: size(self.kv_lora_rank),
            qk_nope_head_dim: size(self.qk_nope_head_dim),
            qk_rope_head_dim: size(self.qk_rope_head_dim),
            v_head_dim: size(self.v_head_dim),
            num_experts: size(self.num_experts),
            num_experts_per_tok: size(self.num_experts_per_tok),
            intermediate_size: if given > 0 {
                given
            } else {
                1408
            },
            routed_scaling_factor: positive_or(
                self.routed_scaling_factor,
                Real { bits: TWO },
            ),
            rms_norm_eps: positive_or(self.rms_norm_eps, Real { bits: MILLIONTH }),
            rope_theta: positive_or(self.rope_theta, Real { bits: TEN_THOUSAND }),
        }
    }
}

impl KimiK3Config {
    /// The family's name.
    pub fn name(&self) -> (name: &'static str)
        ensures
            name@ == "kimi_k3"@,
    {
        "kimi_k3"
    }

    /// Text in, text out.
    pub fn modality(&self) -> (m: ModalityHint)
        ensures
            m == ModalityHint::TextInTextOut,
    {
        ModalityHint::TextInTextOut
    }

    /// Reads the configuration out of a settings file.
    pub fn from_hf(value: &serde_json::Value) -> (cfg: KimiK3Config)
        ensures
            cfg == KimiK3Settings::of(*value).spec_config(),
    {
        let settings = KimiK3Settings {
            vocab_size: read_unsigned(value, "vocab_size"),
            hidden_size: read_unsigned(value, "hidden_size"),
            num_attention_heads: read_unsigned(value, "num_attention_heads"),
            num_key_value_heads: read_unsigned(value, "num_key_value_heads"),
            head_dim: read_unsigned(value, "head_dim"),
            num_hidden_layers: read_unsigned(value, "num_hidden_layers"),
            q_lora_rank: read_unsigned(value, "q_lora_rank"),
            kv_lora_rank: read_unsigned(value, "kv_lora_rank"),
            qk_nope_head_dim: read_unsigned(value, "qk_nope_head_dim"),
            qk_rope_head_dim: read_unsigned(value, "qk_rope_head_dim"),
            v_head_dim: read_unsigned(value, "v_head_dim"),
            num_experts: read_unsigned(value, "num_experts"),
            num_experts_per_tok: read_unsigned(value, "num_experts_per_tok"),
            intermediate_size: read_unsigned(value, "intermediate_size"),
            routed_scaling_factor: read_number(value, "routed_scaling_factor"),
            rms_norm_eps: read_number(value, "rms_norm_eps"),
            rope_theta: read_number(value, "rope_theta"),
        };
        settings.config()
    }

    /// Every width that the weights have fits.
    pub open spec fn fits(&self) -> bool {
        &&& self.num_attention_heads * (self.qk_nope_head_dim + self.qk_rope_head_dim)
            <= usize::MAX
        &&& self.num_attention_heads * (self.qk_nope_head_dim + self.v_head_dim) <= usize::MAX
        &&& self.qk_nope_head_dim + self.qk_rope_head_dim <= usize::MAX
        &&& self.qk_nope_head_dim + self.v_head_dim <= usize::MAX
        &&& self.num_attention_heads * self.v_head_dim <= usize::MAX
        &&& self.kv_lora_rank + self.qk_rope_head_dim <= usize::MAX
        &&& self.hidden_size * 8 <= usize::MAX
    }

    /// The width of an expert: eight thirds of the model's width, rounded down
    /// to a multiple of eight.
    pub open spec fn spec_expert_width(&self) -> usize {
        (self.hidden_size as int * 8 / 3 / 8 * 8) as usize
    }

    /// The width of an expert.
    pub fn expert_width(&self) -> (w: usize)
        requires
            self.fits(),
        ensures
            w == self.spec_expert_width(),
    {
        let width: usize = (self.hidden_size * 8 / 3) / 8 * 8;
        width
    }
}

/// The attention part of a block.
#[derive(Debug, Clone, Copy)]
pub struct KimiK3Mla {
    pub num_heads: usize,
    pub qk_nope_head_dim: usize,
    pub qk_rope_head_dim: usize,
    pub v_head_dim: usize,
    pub q_lora_rank: usize,
    pub kv_lora_rank: usize,
}

/// The attention weights of a layer.
pub open spec fn mla_plan(cfg: &KimiK3Config, layer: usize) -> Seq<LoadStep> {
    let heads = cfg.num_attention_heads;
    let at = |leaf: &'static str| in_layer("model.layers", layer, "self_attn", leaf);
    seq![
        linear_shape(at("q_a_proj"), cfg.hidden_size, cfg.q_lora_rank),
        linear_shape(
            at("q_b_proj"),
            cfg.q_lora_rank,
            (heads * (cfg.qk_nope_head_dim + cfg.qk_rope_head_dim)) as usize,
        ),
        linear_shape(
            at("kv_a_proj_with_mqa"),
            cfg.hidden_size,
            (cfg.kv_lora_rank + cfg.qk_rope_head_dim) as usize,
        ),
        linear_shape(
            at("kv_b_proj"),
            cfg.kv_lora_rank,
            (heads * (cfg.qk_nope_head_dim + cfg.v_head_dim)) as usize,
        ),
        linear_shape(at("o_proj"), (heads * cfg.v_head_dim) as usize, cfg.hidden_size),
    ]
}

/// Query parts without and with rotation, one row per token and head.
pub struct MlaQuery<T> {
    pub nope: Vec<T>,
    pub rope: Vec<T>,
}

/// The latent rows of keys and values, and the keys' shared rotated part.
pub struct MlaLatent<T> {
    pub kv_a: Vec<T>,
    pub k_rope: Vec<T>,
}

/// The history of a layer: keys without rotation, values, and the rotated key
/// part that all heads share, one row per token each.
pub struct MlaCache<T> {
    pub k: Vec<T>,
    pub v: Vec<T>,
    pub rope: Vec<T>,
}

/// The history before a call.
pub open spec fn past_k<T>(cache: Option<MlaCache<T>>) -> Seq<T> {
    match cache {
        Some(c) => c.k@,
        None => Seq::empty(),
    }
}

/// The values before a call.
pub open spec fn past_v<T>(cache: Option<MlaCache<T>>) -> Seq<T> {
    match cache {
        Some(c) => c.v@,
        None => Seq::empty(),
    }
}

/// The rotated key parts before a call.
pub open spec fn past_rope<T>(cache: Option<MlaCache<T>>) -> Seq<T> {
    match cache {
        Some(c) => c.rope@,
        None => Seq::empty(),
    }
}

/// Row `r` of `width` elements.
pub open spec fn row<T>(data: Seq<T>, r: int, width: nat) -> Seq<T> {
    data.subrange(r * width, r * width + width)
}

/// Row `r` of the output is what `attend` gives for its query over what its
/// token may see: row `r` is head `r % heads` of token `r / heads`, which sees
/// the history up to its own position `offset + r / heads` and none after it.
pub open spec fn mla_row_done<T, F: Fn(Vec<T>, Vec<T>, Vec<T>, Vec<T>, Vec<T>) -> Vec<T>>(
    mla: &KimiK3Mla,
    attend: F,
    q_nope: Seq<T>,
    q_rope: Seq<T>,
    k: Seq<T>,
    k_rope: Seq<T>,
    v: Seq<T>,
    offset: nat,
    out: Seq<T>,
    r: int,
) -> bool {
    let heads = mla.num_heads as nat;
    let nope = mla.qk_nope_head_dim as nat;
    let rope = mla.qk_rope_head_dim as nat;
    let vd = mla.v_head_dim as nat;
    let seen = (offset + r / heads as int + 1) as nat;
    let h = (r % heads as int) as nat;
    exists|a: Vec<T>, b: Vec<T>, c: Vec<T>, d: Vec<T>, e: Vec<T>, o: Vec<T>|
        a@ == row(q_nope, r, nope) && b@ == row(q_rope, r, rope) && c@ == columns(
            k,
            seen,
            heads * nope,
            h * nope,
            nope,
        ) && d@ == k_rope.take((seen * rope) as int) && e@ == columns(
            v,
            seen,
            heads * vd,
            h * vd,
            vd,
        ) && o@ == row(out, r, vd) && #[trigger] call_ensures(attend, (a, b, c, d, e), o)
}

impl<T: Copy, F: Fn(ScalarOp, T, T) -> T, C: Fn(Number) -> T, Z: Fn(Relation, T, T) -> bool> Scalars<T, F, C, Z> {
    /// What head `r % heads` of token `r / heads` gives over what the token may
    /// see.
    pub open spec fn mla_row(
        &self,
        mla: &KimiK3Mla,
        q_nope: Seq<T>,
        q_rope: Seq<T>,
        k: Seq<T>,
        k_rope: Seq<T>,
        v: Seq<T>,
        offset: nat,
        r: int,
    ) -> Seq<T> {
        let heads = mla.num_heads as nat;
        let nope = mla.qk_nope_head_dim as nat;
        let rope = mla.qk_rope_head_dim as nat;
        let vd = mla.v_head_dim as nat;
        let seen = (offset + r / heads as int + 1) as nat;
        let h = (r % heads as int) as nat;
        self.attended_in_parts(
            row(q_nope, r, nope),
            row(q_rope, r, rope),
            columns(k, seen, heads * nope, h * nope, nope),
            k_rope.take((seen * rope) as int),
            columns(v, seen, heads * vd, h * vd, vd),
            vd,
            seen,
        )
    }
}

impl KimiK3Mla {
    /// The attention part of a configuration.
    pub fn new(cfg: &KimiK3Config) -> (mla: KimiK3Mla)
        ensures
            mla == (KimiK3Mla {
                num_heads: cfg.num_attention_heads,
                qk_nope_head_dim: cfg.qk_nope_head_dim,
                qk_rope_head_dim: cfg.qk_rope_head_dim,
                v_head_dim: cfg.v_head_dim,
                q_lora_rank: cfg.q_lora_rank,
                kv_lora_rank: cfg.kv_lora_rank,
            }),
    {
        KimiK3Mla {
            num_heads: cfg.num_attention_heads,
            qk_nope_head_dim: cfg.qk_nope_head_dim,
            qk_rope_head_dim: cfg.qk_rope_head_dim,
            v_head_dim: cfg.v_head_dim,
            q_lora_rank: cfg.q_lora_rank,
            kv_lora_rank: cfg.kv_lora_rank,
        }
    }

    /// The base of the rotations, whatever the configuration says.
    pub fn rope_theta(&self) -> (theta: Real)
        ensures
            theta == (Real { bits: TEN_THOUSAND }),
    {
        Real { bits: TEN_THOUSAND }
    }

    /// The attention weights of a layer.
    pub fn load(cfg: &KimiK3Config, layer: usize) -> (plan: Vec<LoadStep>)
        requires
            cfg.fits(),
        ensures
            plan@ == mla_plan(cfg, layer),
    {
        let heads: usize = cfg.num_attention_heads;
        let base = "model.layers";
        let scope = "self_attn";
        let mut plan: Vec<LoadStep> = Vec::new();
        plan.push(
            linear_shape(
                in_layer(base, layer, scope, "q_a_proj"),
                cfg.hidden_size,
                cfg.q_lora_rank,
            ),
        );
        plan.push(
            linear_shape(
                in_layer(base, layer, scope, "q_b_proj"),
                cfg.q_lora_rank,
                heads * (cfg.qk_nope_head_dim + cfg.qk_rope_head_dim),
            ),
        );
        plan.push(
            linear_shape(
                in_layer(base, layer, scope, "kv_a_proj_with_mqa"),
                cfg.hidden_size,
                cfg.kv_lora_rank + cfg.qk_rope_head_dim,
            ),
        );
        plan.push(
            linear_shape(
                in_layer(base, layer, scope, "kv_b_proj"),
                cfg.kv_lora_rank,
                heads * (cfg.qk_nope_head_dim + cfg.v_head_dim),
            ),
        );
        plan.push(
            linear_shape(
                in_layer(base, layer, scope, "o_proj"),
                heads * cfg.v_head_dim,
                cfg.hidden_size,
            ),
        );
        assert(plan@ =~= mla_plan(cfg, layer));
        plan
    }

    /// Cuts the projected queries of `tokens` tokens into the parts without
    /// and with rotation, head by head.
    pub fn split_query<T: Copy>(&self, q_full: &[T], tokens: usize) -> (q: MlaQuery<T>)
        requires
            self.qk_nope_head_dim + self.qk_rope_head_dim <= usize::MAX,
            tokens * self.num_heads <= usize::MAX,
            q_full@.len() == (tokens * self.num_heads) * (self.qk_nope_head_dim
                + self.qk_rope_head_dim),
        ensures
            q.nope@ == columns(
                q_full@,
                (tokens * self.num_heads) as nat,
                (self.qk_nope_head_dim + self.qk_rope_head_dim) as nat,
                0,
                self.qk_nope_head_dim as nat,
            ),
            q.rope@ == columns(
                q_full@,
                (tokens * self.num_heads) as nat,
                (self.qk_nope_head_dim + self.qk_rope_head_dim) as nat,
                self.qk_nope_head_dim as nat,
                self.qk_rope_head_dim as nat,
            ),
    {
        let rows: usize = tokens * self.num_heads;
        let width: usize = self.qk_nope_head_dim + self.qk_rope_head_dim;
        MlaQuery {
            nope: take_columns(q_full, rows, width, 0, self.qk_nope_head_dim),
            rope: take_columns(q_full, rows, width, self.qk_nope_head_dim, self.qk_rope_head_dim),
        }
    }

    /// Cuts the latent projection of `tokens` tokens into the rows that keys
    /// and values are made from and the shared rotated key part.
    pub fn split_latent<T: Copy>(&self, latent: &[T], tokens: usize) -> (l: MlaLatent<T>)
        requires
            self.kv_lora_rank + self.qk_rope_head_dim <= usize::MAX,
            latent@.len() == tokens * (self.kv_lora_rank + self.qk_rope_head_dim),
        ensures
            l.kv_a@ == columns(
                latent@,
                tokens as nat,
                (self.kv_lora_rank + self.qk_rope_head_dim) as nat,
                0,
                self.kv_lora_rank as nat,
            ),
            l.k_rope@ == columns(
                latent@,
                tokens as nat,
                (self.kv_lora_rank + self.qk_rope_head_dim) as nat,
                self.kv_lora_rank as nat,
                self.qk_rope_head_dim as nat,
            ),
    {
        let width: usize = self.kv_lora_rank + self.qk_rope_head_dim;
        MlaLatent {
            kv_a: take_columns(latent, tokens, width, 0, self.kv_lora_rank),
            k_rope: take_columns(latent, tokens, width, self.kv_lora_rank, self.qk_rope_head_dim),
        }
    }

    /// The tokens in the history.
    pub open spec fn cached<T>(&self, cache: Option<MlaCache<T>>) -> nat {
        match cache {
            Some(c) => c.k@.len() / (self.num_heads * self.qk_nope_head_dim) as nat,
            None => 0,
        }
    }

    /// The history holds `past` whole rows.
    pub open spec fn holds<T>(&self, cache: Option<MlaCache<T>>, past: nat) -> bool {
        &&& past_k(cache).len() == past * (self.num_heads * self.qk_nope_head_dim)
        &&& past_v(cache).len() == past * (self.num_heads * self.v_head_dim)
        &&& past_rope(cache).len() == past * self.qk_rope_head_dim
    }

    /// Appends the keys and values of `tokens` tokens to the history and
    /// attends their queries over it.
    ///
    /// `kv_b` holds keys and values head by head as the second projection gives
    /// them, `k_rope` the rotated shared key part.
    pub fn forward<
        T: Copy,
        F: Fn(ScalarOp, T, T) -> T,
        C: Fn(Number) -> T,
        Z: Fn(Relation, T, T) -> bool,
    >(
        &self,
        x: &Scalars<T, F, C, Z>,
        q: &MlaQuery<T>,
        kv_b: &[T],
        k_rope: &[T],
        tokens: usize,
        cache: &mut Option<MlaCache<T>>,
    ) -> (out: Vec<T>)
        requires
            x.wf(),
            self.holds(*old(cache), self.cached(*old(cache))),
            *old(cache) is Some ==> self.num_heads * self.qk_nope_head_dim > 0,
            self.qk_nope_head_dim + self.v_head_dim <= usize::MAX,
            self.cached(*old(cache)) + tokens <= usize::MAX,
            tokens * self.num_heads <= usize::MAX,
            self.num_heads * self.qk_nope_head_dim <= usize::MAX,
            self.num_heads * self.v_head_dim <= usize::MAX,
            (self.cached(*old(cache)) + tokens) * (self.num_heads * self.qk_nope_head_dim) <= usize::MAX,
            (self.cached(*old(cache)) + tokens) * (self.num_heads * self.v_head_dim) <= usize::MAX,
            (self.cached(*old(cache)) + tokens) * self.qk_rope_head_dim <= usize::MAX,
            q.nope@.len() == (tokens * self.num_heads) * self.qk_nope_head_dim,
            q.rope@.len() == (tokens * self.num_heads) * self.qk_rope_head_dim,
            kv_b@.len() == (tokens * self.num_heads) * (self.qk_nope_head_dim + self.v_head_dim),
            k_rope@.len() == tokens * self.qk_rope_head_dim,
            self.qk_nope_head_dim + self.qk_rope_head_dim <= usize::MAX,
        ensures
            *final(cache) matches Some(c) && {
                &&& c.k@ == past_k(*old(cache)) + columns(
                    kv_b@,
                    (tokens * self.num_heads) as nat,
                    (self.qk_nope_head_dim + self.v_head_dim) as nat,
                    0,
                    self.qk_nope_head_dim as nat,
                )
                &&& c.v@ == past_v(*old(cache)) + columns(
                    kv_b@,
                    (tokens * self.num_heads) as nat,
                    (self.qk_nope_head_dim + self.v_head_dim) as nat,
                    self.qk_nope_head_dim as nat,
                    self.v_head_dim as nat,
                )
                &&& c.rope@ == past_rope(*old(cache)) + k_rope@
                &&& forall|r: int|
                    0 <= r < tokens * self.num_heads ==> #[trigger] row(
                        out@,
                        r,
                        self.v_head_dim as nat,
                    ) == x.mla_row(
                        self,
                        q.nope@,
                        q.rope@,
                        c.k@,
                        c.rope@,
                        c.v@,
                        self.cached(*old(cache)),
                        r,
                    )
            },
            self.holds(*final(cache), (self.cached(*old(cache)) + tokens) as nat),
            out@.len() == (tokens * self.num_heads) * self.v_head_dim,
    {
        let v_dim: usize = self.v_head_dim;
        let nope: usize = self.qk_nope_head_dim;
        let rope: usize = self.qk_rope_head_dim;
        let ghost past = self.cached(*cache);
        let attend = |a: Vec<T>, b: Vec<T>, c: Vec<T>, d: Vec<T>, e: Vec<T>| -> (o: Vec<T>)
            requires
                a@.len() == nope,
                b@.len() == rope,
            ensures
                x.attended_rows_in_parts(a@, b@, c@, d@, e@, v_dim as nat, o@)
            {
                attend_rows_in_parts(
                    x,
                    a.as_slice(),
                    b.as_slice(),
                    c.as_slice(),
                    d.as_slice(),
                    e.as_slice(),
                    v_dim,
                )
            };
        let out = self.attend_latent(q, kv_b, k_rope, tokens, cache, attend);
        proof {
            let held = cache->0;
            assert forall|r: int| 0 <= r < tokens * self.num_heads implies #[trigger] row(
                out@,
                r,
                v_dim as nat,
            ) == x.mla_row(self, q.nope@, q.rope@, held.k@, held.rope@, held.v@, past, r) by {
                assert(mla_row_done(
                    self,
                    attend,
                    q.nope@,
                    q.rope@,
                    held.k@,
                    held.rope@,
                    held.v@,
                    past,
                    out@,
                    r,
                ));
                let heads = self.num_heads as nat;
                let seen = (past + r / heads as int + 1) as nat;
                let h = (r % heads as int) as nat;
                assert(heads > 0) by (nonlinear_arith)
                    requires
                        0 <= r < tokens * heads,
                ;
                lemma_row_bounds(r, (tokens * heads) as int, nope as int);
                lemma_row_bounds(r, (tokens * heads) as int, rope as int);
                assert(0 <= r / heads as int && r / (heads as int) < tokens) by (nonlinear_arith)
                    requires
                        0 <= r < tokens * heads,
                        0 < heads,
                ;
                assert(0 <= seen * rope && seen * rope <= (past + tokens) * rope)
                    by (nonlinear_arith)
                    requires
                        0 <= seen <= past + tokens,
                ;
                let (a, b, c, d, e, o) = choose|
                    a: Vec<T>,
                    b: Vec<T>,
                    c: Vec<T>,
                    d: Vec<T>,
                    e: Vec<T>,
                    o: Vec<T>,
                |
                    a@ == row(q.nope@, r, nope as nat) && b@ == row(q.rope@, r, rope as nat) && c@
                        == columns(held.k@, seen, heads * nope as nat, h * nope as nat, nope as nat)
                        && d@ == held.rope@.take((seen * rope as nat) as int) && e@ == columns(
                        held.v@,
                        seen,
                        heads * v_dim as nat,
                        h * v_dim as nat,
                        v_dim as nat,
                    ) && o@ == row(out@, r, v_dim as nat) && #[trigger] call_ensures(
                        attend,
                        (a, b, c, d, e),
                        o,
                    );
                assert(x.attended_rows_in_parts(a@, b@, c@, d@, e@, v_dim as nat, o@));
                assert(o@ == x.attended_in_parts(a@, b@, c@, d@, e@, v_dim as nat, seen));
            }
        }
        out
    }

    /// Appends the keys and values of `tokens` tokens to the history and
    /// attends their queries over it.
    ///
    /// `kv_b` holds keys and values head by head as the second projection gives
    /// them, `k_rope` the rotated shared key part. `attend` weighs the visible
    /// values of one head.
    pub fn attend_latent<T: Copy, F: Fn(Vec<T>, Vec<T>, Vec<T>, Vec<T>, Vec<T>) -> Vec<T>>(
        &self,
        q: &MlaQuery<T>,
        kv_b: &[T],
        k_rope: &[T],
        tokens: usize,
        cache: &mut Option<MlaCache<T>>,
        attend: F,
    ) -> (out: Vec<T>)
        requires
            self.holds(*old(cache), self.cached(*old(cache))),
            *old(cache) is Some ==> self.num_heads * self.qk_nope_head_dim > 0,
            self.qk_nope_head_dim + self.v_head_dim <= usize::MAX,
            self.cached(*old(cache)) + tokens <= usize::MAX,
            tokens * self.num_heads <= usize::MAX,
            self.num_heads * self.qk_nope_head_dim <= usize::MAX,
            self.num_heads * self.v_head_dim <= usize::MAX,
            (self.cached(*old(cache)) + tokens) * (self.num_heads * self.qk_nope_head_dim) <= usize::MAX,
            (self.cached(*old(cache)) + tokens) * (self.num_heads * self.v_head_dim) <= usize::MAX,
            (self.cached(*old(cache)) + tokens) * self.qk_rope_head_dim <= usize::MAX,
            q.nope@.len() == (tokens * self.num_heads) * self.qk_nope_head_dim,
            q.rope@.len() == (tokens * self.num_heads) * self.qk_rope_head_dim,
            kv_b@.len() == (tokens * self.num_heads) * (self.qk_nope_head_dim + self.v_head_dim),
            k_rope@.len() == tokens * self.qk_rope_head_dim,
            forall|a: Vec<T>, b: Vec<T>, c: Vec<T>, d: Vec<T>, e: Vec<T>|
                a@.len() == self.qk_nope_head_dim && b@.len() == self.qk_rope_head_dim
                    ==> #[trigger] call_requires(attend, (a, b, c, d, e)),
            forall|a: Vec<T>, b: Vec<T>, c: Vec<T>, d: Vec<T>, e: Vec<T>, o: Vec<T>| #[trigger]
                call_ensures(attend, (a, b, c, d, e), o) && a@.len() == self.qk_nope_head_dim
                    && b@.len() == self.qk_rope_head_dim ==> o@.len() == self.v_head_dim,
        ensures
            *final(cache) matches Some(c) && {
                &&& c.k@ == past_k(*old(cache)) + columns(
                    kv_b@,
                    (tokens * self.num_heads) as nat,
                    (self.qk_nope_head_dim + self.v_head_dim) as nat,
                    0,
                    self.qk_nope_head_dim as nat,
                )
                &&& c.v@ == past_v(*old(cache)) + columns(
                    kv_b@,
                    (tokens * self.num_heads) as nat,
                    (self.qk_nope_head_dim + self.v_head_dim) as nat,
                    self.qk_nope_head_dim as nat,
                    self.v_head_dim as nat,
                )
                &&& c.rope@ == past_rope(*old(cache)) + k_rope@
                &&& forall|r: int|
                    0 <= r < tokens * self.num_heads ==> #[trigger] mla_row_done(
                        self,
                        attend,
                        q.nope@,
                        q.rope@,
                        c.k@,
                        c.rope@,
                        c.v@,
                        self.cached(*old(cache)),
                        out@,
                        r,
                    )
            },
            self.holds(*final(cache), (self.cached(*old(cache)) + tokens) as nat),
            out@.len() == (tokens * self.num_heads) * self.v_head_dim,
    {
        let heads: usize = self.num_heads;
        let nope: usize = self.qk_nope_head_dim;
        let rope: usize = self.qk_rope_head_dim;
        let vd: usize = self.v_head_dim;
        let rows: usize = tokens * heads;
        let new_k = take_columns(kv_b, rows, nope + vd, 0, nope);
        let new_v = take_columns(kv_b, rows, nope + vd, nope, vd);
        let past: usize = match cache {
            Some(c) => c.k.len() / (heads * nope),
            None => 0,
        };
        let mut next = match cache.take() {
            Some(c) => c,
            None => MlaCache { k: Vec::new(), v: Vec::new(), rope: Vec::new() },
        };
        assert(next.k@ =~= past_k(*old(cache)));
        assert(next.v@ =~= past_v(*old(cache)));
        assert(next.rope@ =~= past_rope(*old(cache)));
        append_all(&mut next.k, new_k.as_slice());
        append_all(&mut next.v, new_v.as_slice());
        append_all(&mut next.rope, k_rope);
        proof {
            let (t, h, n, v, p) = (
                tokens as int,
                heads as int,
                nope as int,
                vd as int,
                past as int,
            );
            assert((p + t) * (h * n) == p * (h * n) + (t * h) * n) by (nonlinear_arith);
            assert((p + t) * (h * v) == p * (h * v) + (t * h) * v) by (nonlinear_arith);
            assert((p + t) * rope == p * rope + t * rope) by (nonlinear_arith);
        }
        let out = self.attend_rows(q, &next, tokens, past, attend);
        *cache = Some(next);
        out
    }

    /// Attends the queries of the last `tokens` tokens of a history.
    fn attend_rows<T: Copy, F: Fn(Vec<T>, Vec<T>, Vec<T>, Vec<T>, Vec<T>) -> Vec<T>>(
        &self,
        q: &MlaQuery<T>,
        cache: &MlaCache<T>,
        tokens: usize,
        past: usize,
        attend: F,
    ) -> (out: Vec<T>)
        requires
            past + tokens <= usize::MAX,
            tokens * self.num_heads <= usize::MAX,
            self.num_heads * self.qk_nope_head_dim <= usize::MAX,
            self.num_heads * self.v_head_dim <= usize::MAX,
            cache.k@.len() == (past + tokens) * (self.num_heads * self.qk_nope_head_dim),
            cache.v@.len() == (past + tokens) * (self.num_heads * self.v_head_dim),
            cache.rope@.len() == (past + tokens) * self.qk_rope_head_dim,
            q.nope@.len() == (tokens * self.num_heads) * self.qk_nope_head_dim,
            q.rope@.len() == (tokens * self.num_heads) * self.qk_rope_head_dim,
            forall|a: Vec<T>, b: Vec<T>, c: Vec<T>, d: Vec<T>, e: Vec<T>|
                a@.len() == self.qk_nope_head_dim && b@.len() == self.qk_rope_head_dim
                    ==> #[trigger] call_requires(attend, (a, b, c, d, e)),
            forall|a: Vec<T>, b: Vec<T>, c: Vec<T>, d: Vec<T>, e: Vec<T>, o: Vec<T>| #[trigger]
                call_ensures(attend, (a, b, c, d, e), o) && a@.len() == self.qk_nope_head_dim
                    && b@.len() == self.qk_rope_head_dim ==> o@.len() == self.v_head_dim,
        ensures
            out@.len() == (tokens * self.num_heads) * self.v_head_dim,
            forall|r: int|
                0 <= r < tokens * self.num_heads ==> #[trigger] mla_row_done(
                    self,
                    attend,
                    q.nope@,
                    q.rope@,
                    cache.k@,
                    cache.rope@,
                    cache.v@,
                    past as nat,
                    out@,
                    r,
                ),
    {
        let heads: usize = self.num_heads;
        let nope: usize = self.qk_nope_head_dim;
        let rope: usize = self.qk_rope_head_dim;
        let vd: usize = self.v_head_dim;
        let rows: usize = tokens * heads;
        let k_len: usize = cache.k.len();
        let v_len: usize = cache.v.len();
        let rope_len: usize = cache.rope.len();
        let q_nope_len: usize = q.nope.len();
        let q_rope_len: usize = q.rope.len();
        let mut out: Vec<T> = Vec::new();
        let mut r: usize = 0;
        while r < rows
            invariant
                r <= rows,
                rows == tokens * heads,
                heads == self.num_heads,
                nope == self.qk_nope_head_dim,
                rope == self.qk_rope_head_dim,
                vd == self.v_head_dim,
                past + tokens <= usize::MAX,
                heads * nope <= usize::MAX,
                heads * vd <= usize::MAX,
                k_len == cache.k@.len(),
                v_len == cache.v@.len(),
                rope_len == cache.rope@.len(),
                q_nope_len == q.nope@.len(),
                q_rope_len == q.rope@.len(),
                k_len == (past + tokens) * (heads * nope),
                v_len == (past + tokens) * (heads * vd),
                rope_len == (past + tokens) * rope,
                q_nope_len == rows * nope,
                q_rope_len == rows * rope,
                forall|a: Vec<T>, b: Vec<T>, c: Vec<T>, d: Vec<T>, e: Vec<T>|
                    a@.len() == nope && b@.len() == rope ==> #[trigger] call_requires(
                        attend,
                        (a, b, c, d, e),
                    ),
                forall|a: Vec<T>, b: Vec<T>, c: Vec<T>, d: Vec<T>, e: Vec<T>, o: Vec<T>| #[trigger]
                    call_ensures(attend, (a, b, c, d, e), o) && a@.len() == nope && b@.len() == rope
                        ==> o@.len() == vd,
                out@.len() == r * vd,
                forall|i: int|
                    0 <= i < r ==> #[trigger] mla_row_done(
                        self,
                        attend,
                        q.nope@,
                        q.rope@,
                        cache.k@,
                        cache.rope@,
                        cache.v@,
                        past as nat,
                        out@,
                        i,
                    ),
            decreases rows - r,
        {
            proof {
                lemma_flat_index(r as int, tokens as int, heads as int);
                lemma_row_bounds(r as int, rows as int, nope as int);
                lemma_row_bounds(r as int, rows as int, rope as int);
            }
            let s: usize = r / heads;
            let h: usize = r % heads;
            let seen: usize = past + s + 1;
            proof {
                lemma_row_bounds(h as int, heads as int, nope as int);
                lemma_row_bounds(h as int, heads as int, vd as int);
                lemma_within(seen as int, past + tokens, heads * nope);
                lemma_within(seen as int, past + tokens, heads * vd);
                lemma_within(seen as int, past + tokens, rope as int);
            }
            let a = copy_range(q.nope.as_slice(), r * nope, nope);
            let b = copy_range(q.rope.as_slice(), r * rope, rope);
            let c = take_columns(cache.k.as_slice(), seen, heads * nope, h * nope, nope);
            let d = copy_range(cache.rope.as_slice(), 0, seen * rope);
            let e = take_columns(cache.v.as_slice(), seen, heads * vd, h * vd, vd);
            let ghost args = (a, b, c, d, e);
            let ghost before = out@;
            let o = attend(a, b, c, d, e);
            append_all(&mut out, o.as_slice());
            proof {
                assert(call_ensures(attend, args, o));
                assert((r + 1) * vd == r * vd + vd) by (nonlinear_arith);
                assert(o@ =~= row(out@, r as int, vd as nat));
                assert(args.3@ =~= cache.rope@.take((seen * rope) as int));
                assert(mla_row_done(
                    self,
                    attend,
                    q.nope@,
                    q.rope@,
                    cache.k@,
                    cache.rope@,
                    cache.v@,
                    past as nat,
                    out@,
                    r as int,
                ));
                assert forall|i: int| 0 <= i < r implies #[trigger] mla_row_done(
                    self,
                    attend,
                    q.nope@,
                    q.rope@,
                    cache.k@,
                    cache.rope@,
                    cache.v@,
                    past as nat,
                    out@,
                    i,
                ) by {
                    assert(mla_row_done(
                        self,
                        attend,
                        q.nope@,
                        q.rope@,
                        cache.k@,
                        cache.rope@,
                        cache.v@,
                        past as nat,
                        before,
                        i,
                    ));
                    lemma_row_bounds(i, r as int, vd as int);
                    assert(row(out@, i, vd as nat) =~= row(before, i, vd as nat));
                }
            }
            r = r + 1;
        }
        out
    }
}

proof fn lemma_within(n: int, total: int, width: int)
    requires
        0 <= n <= total,
        0 <= width,
    ensures
        0 <= n * width <= total * width,
{
    assert(0 <= n * width <= total * width) by (nonlinear_arith)
        requires
            0 <= n <= total,
            0 <= width,
    ;
}

/// Decode reads the cached rotated keys: what a query behind `past` cached
/// tokens is handed starts with the rows that were cached, as they were.
pub proof fn law_decode_reads_cached_rope<T>(past: Seq<T>, new: Seq<T>, seen: nat, rope: nat)
    requires
        past.len() <= seen * rope <= past.len() + new.len(),
    ensures
        (past + new).take((seen * rope) as int).take(past.len() as int) == past,
        (past + new).take((seen * rope) as int) == past + new.take(seen * rope - past.len()),
{
    assert((past + new).take((seen * rope) as int).take(past.len() as int) =~= past);
    assert((past + new).take((seen * rope) as int) =~= past + new.take(seen * rope - past.len()));
}

/// Future tokens stay unseen: row `r` is attended as it is whatever comes
/// behind its own token in the history.
pub proof fn law_mla_future_is_hidden<
    T: Copy,
    F: Fn(ScalarOp, T, T) -> T,
    C: Fn(Number) -> T,
    Z: Fn(Relation, T, T) -> bool,
>(
    x: &Scalars<T, F, C, Z>,
    mla: &KimiK3Mla,
    q_nope: Seq<T>,
    q_rope: Seq<T>,
    k: Seq<T>,
    k_rope: Seq<T>,
    v: Seq<T>,
    other_k: Seq<T>,
    other_rope: Seq<T>,
    other_v: Seq<T>,
    offset: nat,
    r: int,
)
    requires
        0 < mla.num_heads,
        0 <= r,
        ({
            let seen = (offset + r / mla.num_heads as int + 1) as nat;
            let k_row = mla.num_heads * mla.qk_nope_head_dim;
            let v_row = mla.num_heads * mla.v_head_dim;
            &&& seen * k_row <= k.len()
            &&& seen * k_row <= other_k.len()
            &&& seen * v_row <= v.len()
            &&& seen * v_row <= other_v.len()
            &&& k.take((seen * k_row) as int) == other_k.take((seen * k_row) as int)
            &&& v.take((seen * v_row) as int) == other_v.take((seen * v_row) as int)
            &&& k_rope.take((seen * mla.qk_rope_head_dim) as int) == other_rope.take(
                (seen * mla.qk_rope_head_dim) as int,
            )
        }),
    ensures
        x.mla_row(mla, q_nope, q_rope, k, k_rope, v, offset, r) == x.mla_row(
            mla,
            q_nope,
            q_rope,
            other_k,
            other_rope,
            other_v,
            offset,
            r,
        ),
{
    let heads = mla.num_heads as nat;
    let nope = mla.qk_nope_head_dim as nat;
    let vd = mla.v_head_dim as nat;
    let h = (r % heads as int) as nat;
    let seen = (offset + r / heads as int + 1) as nat;
    assert(0 <= r / heads as int) by (nonlinear_arith)
        requires
            0 <= r,
            0 < heads,
    ;
    assert(0 <= r % heads as int && r % (heads as int) < heads) by (nonlinear_arith)
        requires
            0 < heads,
    ;
    lemma_row_bounds(h as int, heads as int, nope as int);
    lemma_row_bounds(h as int, heads as int, vd as int);
    law_columns_of_prefix(k, other_k, seen, heads * nope, h * nope, nope);
    law_columns_of_prefix(v, other_v, seen, heads * vd, h * vd, vd);
}

/// An expert.
#[derive(Debug, Clone, Copy)]
pub struct KimiK3Expert {
    pub hidden_size: usize,
    pub intermediate_size: usize,
}

impl KimiK3Expert {
    /// The weights of expert `expert` of a layer.
    pub fn load(layer: usize, expert: usize, hidden_size: usize, intermediate_size: usize) -> (plan:
        Vec<LoadStep>)
        ensures
            plan@ == expert_plan(
                "model.layers",
                layer,
                "block_sparse_moe.experts",
                expert,
                hidden_size,
                intermediate_size,
                proj_names(),
            ),
    {
        let base = "model.layers";
        let scope = "block_sparse_moe.experts";
        vec![
            linear_shape(
                in_expert(base, layer, scope, expert, "gate_proj"),
                hidden_size,
                intermediate_size,
            ),
            linear_shape(
                in_expert(base, layer, scope, expert, "up_proj"),
                hidden_size,
                intermediate_size,
            ),
            linear_shape(
                in_expert(base, layer, scope, expert, "down_proj"),
                intermediate_size,
                hidden_size,
            ),
        ]
    }

    /// The operations of an expert.
    pub fn forward(&self) -> (ops: Vec<BlockOp>)
        ensures
            ops@ == gated_ops(
                Reg::FfnInput,
                self.hidden_size,
                self.intermediate_size,
                Activation::Silu,
            ),
    {
        gated_program(self.hidden_size, self.intermediate_size, Activation::Silu)
    }
}

/// The expert part of a block.
#[derive(Debug, Clone, Copy)]
pub struct KimiK3Moe {
    pub num_experts: usize,
    pub num_experts_per_tok: usize,
    pub routed_scaling_factor: Real,
}

/// The expert weights of a layer.
pub open spec fn moe_plan(cfg: &KimiK3Config, layer: usize) -> Seq<LoadStep> {
    seq![
        linear_shape(
            in_layer("model.layers", layer, "block_sparse_moe", "gate"),
            cfg.hidden_size,
            cfg.num_experts,
        ),
    ] + experts_plan(
        "model.layers",
        layer,
        "block_sparse_moe.experts",
        cfg.num_experts as nat,
        cfg.hidden_size,
        cfg.spec_expert_width(),
        proj_names(),
    )
}

impl KimiK3Moe {
    /// The expert part of a configuration.
    pub fn new(cfg: &KimiK3Config) -> (moe: KimiK3Moe)
        ensures
            moe == (KimiK3Moe {
                num_experts: cfg.num_experts,
                num_experts_per_tok: cfg.num_experts_per_tok,
                routed_scaling_factor: cfg.routed_scaling_factor,
            }),
    {
        KimiK3Moe {
            num_experts: cfg.num_experts,
            num_experts_per_tok: cfg.num_experts_per_tok,
            routed_scaling_factor: cfg.routed_scaling_factor,
        }
    }

    /// The router and every expert of a layer.
    pub fn load(cfg: &KimiK3Config, layer: usize) -> (plan: Vec<LoadStep>)
        requires
            cfg.fits(),
        ensures
            plan@ == moe_plan(cfg, layer),
    {
        let mut plan: Vec<LoadStep> = Vec::new();
        plan.push(
            linear_shape(
                in_layer("model.layers", layer, "block_sparse_moe", "gate"),
                cfg.hidden_size,
                cfg.num_experts,
            ),
        );
        push_experts(
            &mut plan,
            "model.layers",
            layer,
            "block_sparse_moe.experts",
            cfg.num_experts,
            cfg.hidden_size,
            cfg.expert_width(),
            proj_names(),
        );
        assert(plan@ =~= moe_plan(cfg, layer));
        plan
    }

    /// Routes every token to its best experts and adds what they give, weighed
    /// by the softmax over the chosen scores,
    /// times the scaling factor.
    ///
    /// `scores` are the router's; `run` runs one expert on one row.
    pub fn forward<
        T: Copy,
        F: Fn(ScalarOp, T, T) -> T,
        C: Fn(Number) -> T,
        Z: Fn(Relation, T, T) -> bool,
        R: Fn(usize, Vec<T>) -> Vec<T>,
    >(
        &self,
        x: &Scalars<T, F, C, Z>,
        rows: &[T],
        scores: &[T],
        tokens: usize,
        hidden: usize,
        run: R,
    ) -> (out: Vec<T>)
        requires
            x.wf(),
            rows@.len() == tokens * hidden,
            scores@.len() == tokens * self.num_experts,
            forall|s: int|
                0 <= s < tokens ==> x.orders(
                    #[trigger] scores@.subrange(
                        s * self.num_experts,
                        s * self.num_experts + self.num_experts,
                    ),
                ),
            forall|e: usize, a: Vec<T>|
                e < self.num_experts && a@.len() == hidden ==> #[trigger] call_requires(
                    run,
                    (e, a),
                ),
            forall|e: usize, a: Vec<T>, r: Vec<T>| #[trigger]
                call_ensures(run, (e, a), r) && a@.len() == hidden ==> r@.len() == hidden,
        ensures
            out@.len() == tokens * hidden,
            forall|s: int|
                0 <= s < tokens ==> #[trigger] x.token_routed(
                    run,
                    rows@,
                    scores@,
                    hidden as nat,
                    self.num_experts as nat,
                    self.num_experts_per_tok as nat,
                    Some(x.constant(self.routed_scaling_factor.bits)),
                    out@,
                    s,
                ),
    {
        route_tokens(
            x,
            rows,
            scores,
            tokens,
            hidden,
            self.num_experts,
            self.num_experts_per_tok,
            Some(x.constant(self.routed_scaling_factor.bits)),
            run,
        )
    }
}

/// A step of a block.
#[derive(Debug, Clone, Copy, PartialEq, Eq, Structural)]
pub enum KimiK3Step {
    /// Normalise the block's input.
    AttnNorm,
    /// Latent attention on what the step before gave.
    Attention,
    /// Add the block's input.
    AddInput,
    /// Normalise the sum.
    FfnNorm,
    /// The experts on what the step before gave.
    Experts,
    /// Add the sum.
    AddSum,
}

/// A block of a model.
#[derive(Debug, Clone, Copy)]
pub struct KimiK3Block {
    pub self_attn: KimiK3Mla,
    pub moe: KimiK3Moe,
}

/// The weights of a layer.
pub open spec fn kimi_k3_layer_plan(cfg: &KimiK3Config, layer: usize) -> Seq<LoadStep> {
    seq![rms_norm(in_layer("model.layers", layer, "", "input_layernorm"), cfg.hidden_size)]
        + mla_plan(cfg, layer) + seq![
        rms_norm(in_layer("model.layers", layer, "", "post_attention_layernorm"), cfg.hidden_size),
    ] + moe_plan(cfg, layer)
}

impl KimiK3Block {
    /// The weights of a layer.
    pub fn load(cfg: &KimiK3Config, layer: usize) -> (plan: Vec<LoadStep>)
        requires
            cfg.fits(),
        ensures
            plan@ == kimi_k3_layer_plan(cfg, layer),
    {
        let mut plan: Vec<LoadStep> = Vec::new();
        plan.push(
            rms_norm(in_layer("model.layers", layer, "", "input_layernorm"), cfg.hidden_size),
        );
        let mut attn = KimiK3Mla::load(cfg, layer);
        plan.append(&mut attn);
        plan.push(
            rms_norm(
                in_layer("model.layers", layer, "", "post_attention_layernorm"),
                cfg.hidden_size,
            ),
        );
        let mut moe = KimiK3Moe::load(cfg, layer);
        plan.append(&mut moe);
        assert(plan@ =~= kimi_k3_layer_plan(cfg, layer));
        plan
    }

    /// The steps of a block.
    pub fn forward(&self) -> (steps: Vec<KimiK3Step>)
        ensures
            steps@ == seq![
                KimiK3Step::AttnNorm,
                KimiK3Step::Attention,
                KimiK3Step::AddInput,
                KimiK3Step::FfnNorm,
                KimiK3Step::Experts,
                KimiK3Step::AddSum,
            ],
    {
        vec![
            KimiK3Step::AttnNorm,
            KimiK3Step::Attention,
            KimiK3Step::AddInput,
            KimiK3Step::FfnNorm,
            KimiK3Step::Experts,
            KimiK3Step::AddSum,
        ]
    }
}

/// A model.
#[derive(Debug, Clone, Copy)]
pub struct KimiK3 {
    pub cfg: KimiK3Config,
}

impl KimiK3 {
    /// The weights that a model asks for.
    pub fn load(cfg: &KimiK3Config) -> (plan: ModelPlan)
        requires
            cfg.fits(),
        ensures
            kimi_k3_planned(cfg, &plan),
    {
        Self::load_tp(cfg)
    }

    /// The weights that a model asks for, each device holding them all.
    pub fn load_tp(cfg: &KimiK3Config) -> (plan: ModelPlan)
        requires
            cfg.fits(),
        ensures
            kimi_k3_planned(cfg, &plan),
    {
        let mut layers: Vec<Vec<LoadStep>> = Vec::new();
        let mut i: usize = 0;
        while i < cfg.num_hidden_layers
            invariant
                i <= cfg.num_hidden_layers,
                cfg.fits(),
                layers@.len() == i,
                forall|j: int|
                    0 <= j < i ==> (#[trigger] layers@[j])@ == kimi_k3_layer_plan(cfg, j as usize),
            decreases cfg.num_hidden_layers - i,
        {
            layers.push(KimiK3Block::load(cfg, i));
            i = i + 1;
        }
        ModelPlan {
            tok_embeddings: linear_shape(
                plain("model", "embed_tokens"),
                cfg.vocab_size,
                cfg.hidden_size,
            ),
            positions: None,
            layers,
            norm: rms_norm(plain("model", "norm"), cfg.hidden_size),
            output: Some(
                optional(
                    plain("", "lm_head"),
                    Weight::LinearShape { d0: cfg.hidden_size, d1: cfg.vocab_size },
                    Fallback::TiedEmbedding,
                ),
            ),
        }
    }

    /// The rows that a pass starts from, one row of the token table per id. An
    /// id outside the vocabulary gives zeros.
    pub fn embed<T: Copy>(&self, table: &[T], ids: &[usize], zero: T) -> (rows: Vec<T>)
        requires
            self.cfg.vocab_size * self.cfg.hidden_size <= usize::MAX,
            forall|i: int|
                0 <= i < ids@.len() && #[trigger] ids@[i] < self.cfg.vocab_size ==> (ids@[i] + 1)
                    * self.cfg.hidden_size <= table@.len(),
        ensures
            rows@ == gathered(
                table@,
                self.cfg.vocab_size as nat,
                self.cfg.hidden_size as nat,
                ids@,
                zero,
            ),
    {
        gather_rows(table, self.cfg.vocab_size, self.cfg.hidden_size, ids, zero)
    }

    /// The stages of a pass over `tokens` tokens. Every layer starts from an
    /// empty history.
    pub fn forward(&self, tokens: usize) -> (stages: Vec<Stage>)
        ensures
            stages@ == (PassDesign {
                layers: self.cfg.num_hidden_layers,
                positions: false,
                sqrt_scale: None,
                keeps_hidden: false,
                softcap: None,
                advances: true,
            }).stages(tokens),
    {
        let design = PassDesign {
            layers: self.cfg.num_hidden_layers,
            positions: false,
            sqrt_scale: None,
            keeps_hidden: false,
            softcap: None,
            advances: true,
        };
        design.pass(tokens)
    }
}

/// The plan names every weight of a model.
pub open spec fn kimi_k3_planned(cfg: &KimiK3Config, plan: &ModelPlan) -> bool {
    &&& plan.tok_embeddings == linear_shape(
        plain("model", "embed_tokens"),
        cfg.vocab_size,
        cfg.hidden_size,
    )
    &&& plan.layers@.len() == cfg.num_hidden_layers
    &&& forall|i: int|
        0 <= i < cfg.num_hidden_layers ==> (#[trigger] plan.layers@[i])@ == kimi_k3_layer_plan(
            cfg,
            i as usize,
        )
    &&& plan.norm == rms_norm(plain("model", "norm"), cfg.hidden_size)
    &&& plan.output == Some(
        optional(
            plain("", "lm_head"),
            Weight::LinearShape { d0: cfg.hidden_size, d1: cfg.vocab_size },
            Fallback::TiedEmbedding,
        ),
    )
    &&& plan.positions is None
}

} // verus!
