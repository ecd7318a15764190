//! Falcon-H1: every block runs grouped-query attention and a selective state
//! space side by side, and a gated feed-forward part on their sum.

use crate::block_program::Activation;
use crate::device::DeviceBuffer;
use crate::error::Error;
use crate::history::{causal_conv, cell_done};
use crate::kernels::activate_gated;
use crate::lfm2_step::{channel_major_state, slide_state};
use crate::modality::ModalityHint;
use crate::numeric::Real;
use crate::rows::{
    append_all, columns, copy_range, filled, lemma_cell_coordinates, lemma_flat_index, suffix,
    take_columns, transposed,
};
use crate::scalar::{Number, Relation, ScalarOp, Scalars};
use crate::scan::{scanned, selective_scan, ScanShape};
use crate::stages::{PassDesign, Stage};
use crate::surroundings::HeadShape;
use crate::weights::{in_layer, plain, required, rms_norm, LoadStep, Weight};
use vstd::prelude::*;

verus! {

/// The settings of a Falcon-H1 model.
#[derive(Debug, Clone, Copy)]
pub struct FalconH1Config {
    pub vocab_size: usize,
    pub hidden_size: usize,
    pub num_heads: usize,
    pub num_kv_heads: usize,
    pub head_dim: usize,
    pub num_layers: usize,
    pub intermediate_size: usize,
    pub rms_norm_eps: Real,
    pub rope_theta: Real,
    pub ssm_d_state: usize,
    pub ssm_d_inner: usize,
    pub ssm_d_conv: usize,
    pub ssm_dt_rank: usize,
    pub ssm_n_group: usize,
}

impl FalconH1Config {
    /// The family's name.
    pub fn name(&self) -> (name: &'static str)
        ensures
            name@ == "falcon-h1"@,
    {
        "falcon-h1"
    }

    /// Text in, text out.
    pub fn modality(&self) -> (m: ModalityHint)
        ensures
            m == ModalityHint::TextInTextOut,
    {
        ModalityHint::TextInTextOut
    }

    /// Query heads per key-value head.
    pub fn head_group(&self) -> (r: usize)
        requires
            self.num_kv_heads > 0,
        ensures
            r == self.num_heads / self.num_kv_heads,
    {
        self.num_heads / self.num_kv_heads
    }

    /// The width of the convolved part of a projected row: the channels and
    /// two state-wide parts per group.
    pub open spec fn conv_dim(&self) -> int {
        self.ssm_d_inner + 2 * self.ssm_n_group * self.ssm_d_state
    }

    /// The width of a projected row: what gates the output, the convolved
    /// part, and one rate per head.
    pub open spec fn in_dim(&self) -> int {
        self.ssm_d_inner + self.conv_dim() + self.ssm_dt_rank
    }

    /// Every width that the weights have fits.
    pub open spec fn fits(&self) -> bool {
        &&& self.in_dim() <= usize::MAX
        &&& self.num_heads * self.head_dim <= usize::MAX
        &&& self.num_kv_heads * self.head_dim <= usize::MAX
    }

    /// The width of the convolved part of a projected row.
    pub fn ssm_conv_dim(&self) -> (r: usize)
        requires
            self.conv_dim() <= usize::MAX,
        ensures
            r == self.conv_dim(),
    {
        proof {
            let (g, s) = (self.ssm_n_group as int, self.ssm_d_state as int);
            assert(0 <= 2 * g * s) by (nonlinear_arith)
                requires
                    0 <= g,
                    0 <= s,
            ;
            if s > 0 {
                assert(2 * g <= 2 * g * s) by (nonlinear_arith)
                    requires
                        0 <= g,
                        1 <= s,
                ;
            }
        }
        if self.ssm_d_state == 0 {
            assert(2 * self.ssm_n_group * 0 == 0) by (nonlinear_arith);
            self.ssm_d_inner
        } else {
            self.ssm_d_inner + 2 * self.ssm_n_group * self.ssm_d_state
        }
    }

    /// The width of a projected row.
    pub fn ssm_in_dim(&self) -> (r: usize)
        requires
            self.in_dim() <= usize::MAX,
        ensures
            r == self.in_dim(),
    {
        proof {
            let (g, s) = (self.ssm_n_group as int, self.ssm_d_state as int);
            assert(0 <= 2 * g * s) by (nonlinear_arith)
                requires
                    0 <= g,
                    0 <= s,
            ;
        }
        let conv: usize = self.ssm_conv_dim();
        self.ssm_d_inner + conv + self.ssm_dt_rank
    }

    /// The sizes of the scan.
    pub open spec fn scan_shape(&self) -> ScanShape {
        ScanShape {
            inner: self.ssm_d_inner,
            state: self.ssm_d_state,
            heads: self.ssm_dt_rank,
            head_dim: self.ssm_d_inner / self.ssm_dt_rank,
            width: self.conv_dim() as usize,
        }
    }

    /// What a layer keeps between calls fits.
    pub open spec fn cache_fits(&self) -> bool {
        &&& self.ssm_d_conv >= 1
        &&& self.conv_dim() <= usize::MAX
        &&& (self.ssm_d_conv - 1) * self.conv_dim() <= usize::MAX
        &&& self.ssm_d_state * self.ssm_d_inner <= usize::MAX
    }

    /// The heads of attention.
    #[verifier::allow_in_spec]
    pub fn head_shape(&self) -> HeadShape
        returns
            (HeadShape {
                heads: self.num_heads,
                kv_heads: self.num_kv_heads,
                head_dim: self.head_dim,
            }),
    {
        HeadShape {
            heads: self.num_heads,
            kv_heads: self.num_kv_heads,
            head_dim: self.head_dim,
        }
    }

    /// The scan's sizes fit.
    pub open spec fn scans(&self) -> bool {
        &&& self.in_dim() <= usize::MAX
        &&& self.ssm_dt_rank > 0
        &&& self.ssm_n_group > 0
        &&& self.ssm_d_conv > 0
        &&& (self.ssm_d_conv - 1) * self.conv_dim() <= usize::MAX
        &&& self.ssm_d_inner * self.ssm_d_state <= usize::MAX
    }
}

pub(crate) proof fn lemma_scan_shape(cfg: &FalconH1Config)
    requires
        cfg.scans(),
    ensures
        cfg.scan_shape().wf(),
        0 <= cfg.conv_dim() <= usize::MAX,
        cfg.ssm_d_inner + cfg.conv_dim() + cfg.ssm_dt_rank == cfg.in_dim(),
{
    let (g, s) = (cfg.ssm_n_group as int, cfg.ssm_d_state as int);
    assert(2 * s <= 2 * g * s) by (nonlinear_arith)
        requires
            1 <= g,
            0 <= s,
    ;
    let (d, r) = (cfg.ssm_d_inner as int, cfg.ssm_dt_rank as int);
    assert(r * (d / r) <= d) by (nonlinear_arith)
        requires
            0 <= d,
            0 < r,
    ;
}

/// What a layer keeps between calls.
pub struct FalconH1LayerCache<T> {
    /// The last inputs of the convolution.
    pub conv_state: Vec<T>,
    /// The state of the scan.
    pub ssm_state: Vec<T>,
    /// Host keys, where the device holds none.
    pub k_cache: Vec<T>,
    /// Host values, where the device holds none.
    pub v_cache: Vec<T>,
    /// Device keys.
    pub k_device: Option<DeviceBuffer>,
    /// Device values.
    pub v_device: Option<DeviceBuffer>,
    /// Tokens so far.
    pub current_pos: usize,
}

impl<T: Copy> FalconH1LayerCache<T> {
    /// The kept rows have the sizes that a configuration asks for.
    pub open spec fn wf(&self, cfg: &FalconH1Config) -> bool {
        &&& self.conv_state@.len() == (cfg.ssm_d_conv - 1) * cfg.conv_dim()
        &&& self.ssm_state@.len() == cfg.ssm_d_inner * cfg.ssm_d_state
    }

    /// The cache of a fresh layer: zeros, and no tokens.
    pub fn new(cfg: &FalconH1Config, zero: T) -> (cache: Self)
        requires
            cfg.cache_fits(),
        ensures
            cache.wf(cfg),
            cache.conv_state@ == Seq::new(
                ((cfg.ssm_d_conv - 1) * cfg.conv_dim()) as nat,
                |i: int| zero,
            ),
            cache.ssm_state@ == Seq::new(
                (cfg.ssm_d_state * cfg.ssm_d_inner) as nat,
                |i: int| zero,
            ),
            cache.k_cache@.len() == 0,
            cache.v_cache@.len() == 0,
            cache.k_device is None,
            cache.v_device is None,
            cache.current_pos == 0,
    {
        proof {
            let (g, s) = (cfg.ssm_n_group as int, cfg.ssm_d_state as int);
            assert(0 <= 2 * g * s) by (nonlinear_arith)
                requires
                    0 <= g,
                    0 <= s,
            ;
            let (a, b) = (cfg.ssm_d_state as int, cfg.ssm_d_inner as int);
            assert(a * b == b * a) by (nonlinear_arith);
            let (k, c) = (cfg.ssm_d_conv - 1, cfg.conv_dim());
            assert(0 <= k * c) by (nonlinear_arith)
                requires
                    0 <= k,
                    0 <= c,
            ;
        }
        FalconH1LayerCache {
            conv_state: filled(zero, (cfg.ssm_d_conv - 1) * cfg.ssm_conv_dim()),
            ssm_state: filled(zero, cfg.ssm_d_state * cfg.ssm_d_inner),
            k_cache: Vec::new(),
            v_cache: Vec::new(),
            k_device: None,
            v_device: None,
            current_pos: 0,
        }
    }
}

/// The weights of a block, under the names that the files use.
pub open spec fn falcon_h1_layer_plan(cfg: &FalconH1Config, layer: usize) -> Seq<LoadStep> {
    let hidden = cfg.hidden_size;
    let q = (cfg.num_heads * cfg.head_dim) as usize;
    let kv = (cfg.num_kv_heads * cfg.head_dim) as usize;
    let inter = cfg.intermediate_size;
    seq![
        rms_norm(in_layer("blk", layer, "", "attn_norm"), hidden),
        block_linear("attn_q", layer, hidden, q),
        block_linear("attn_k", layer, hidden, kv),
        block_linear("attn_v", layer, hidden, kv),
        block_linear("attn_output", layer, hidden, hidden),
        required(in_layer("blk", layer, "", "ffn_norm"), Weight::Tensor1 { d0: hidden }),
        block_linear("ffn_gate", layer, hidden, inter),
        block_linear("ffn_up", layer, hidden, inter),
        block_linear("ffn_down", layer, inter, hidden),
        block_linear("ssm_in", layer, hidden, cfg.in_dim() as usize),
        block_linear("ssm_out", layer, cfg.ssm_d_inner, hidden),
        required(
            in_layer("blk", layer, "", "ssm_conv1d.weight"),
            Weight::Tensor2 { d0: cfg.conv_dim() as usize, d1: cfg.ssm_d_conv },
        ),
        required(
            in_layer("blk", layer, "", "ssm_conv1d.bias"),
            Weight::Tensor1 { d0: cfg.conv_dim() as usize },
        ),
        required(
            in_layer("blk", layer, "", "ssm_a"),
            Weight::Tensor2 { d0: cfg.ssm_dt_rank, d1: 1 },
        ),
        required(
            in_layer("blk", layer, "", "ssm_d"),
            Weight::Tensor2 { d0: cfg.ssm_dt_rank, d1: 1 },
        ),
        required(
            in_layer("blk", layer, "", "ssm_dt.bias"),
            Weight::Tensor1 { d0: cfg.ssm_dt_rank },
        ),
    ]
}

/// A projection of a layer without a bias.
#[verifier::allow_in_spec]
pub fn block_linear(leaf: &'static str, layer: usize, inputs: usize, outputs: usize) -> LoadStep
    returns
        required(
            in_layer("blk", layer, "", leaf),
            Weight::Linear { inputs, outputs, bias: false },
        ),
{
    required(in_layer("blk", layer, "", leaf), Weight::Linear { inputs, outputs, bias: false })
}

/// The weights of a block.
pub fn load_block(cfg: &FalconH1Config, layer: usize) -> (plan: Vec<LoadStep>)
    requires
        cfg.fits(),
    ensures
        plan@ == falcon_h1_layer_plan(cfg, layer),
{
    let hidden: usize = cfg.hidden_size;
    let q: usize = cfg.num_heads * cfg.head_dim;
    let kv: usize = cfg.num_kv_heads * cfg.head_dim;
    let inter: usize = cfg.intermediate_size;
    proof {
        let (g, s) = (cfg.ssm_n_group as int, cfg.ssm_d_state as int);
        assert(0 <= 2 * g * s) by (nonlinear_arith)
            requires
                0 <= g,
                0 <= s,
        ;
    }
    let conv: usize = cfg.ssm_conv_dim();
    let rank: usize = cfg.ssm_dt_rank;
    vec![
        rms_norm(in_layer("blk", layer, "", "attn_norm"), hidden),
        block_linear("attn_q", layer, hidden, q),
        block_linear("attn_k", layer, hidden, kv),
        block_linear("attn_v", layer, hidden, kv),
        block_linear("attn_output", layer, hidden, hidden),
        required(in_layer("blk", layer, "", "ffn_norm"), Weight::Tensor1 { d0: hidden }),
        block_linear("ffn_gate", layer, hidden, inter),
        block_linear("ffn_up", layer, hidden, inter),
        block_linear("ffn_down", layer, inter, hidden),
        block_linear("ssm_in", layer, hidden, cfg.ssm_in_dim()),
        block_linear("ssm_out", layer, cfg.ssm_d_inner, hidden),
        required(
            in_layer("blk", layer, "", "ssm_conv1d.weight"),
            Weight::Tensor2 { d0: conv, d1: cfg.ssm_d_conv },
        ),
        required(in_layer("blk", layer, "", "ssm_conv1d.bias"), Weight::Tensor1 { d0: conv }),
        required(in_layer("blk", layer, "", "ssm_a"), Weight::Tensor2 { d0: rank, d1: 1 }),
        required(in_layer("blk", layer, "", "ssm_d"), Weight::Tensor2 { d0: rank, d1: 1 }),
        required(in_layer("blk", layer, "", "ssm_dt.bias"), Weight::Tensor1 { d0: rank }),
    ]
}

/// The weights of a model. The token table is the head as well.
pub struct FalconH1Plan {
    pub embedding: LoadStep,
    pub blocks: Vec<Vec<LoadStep>>,
    pub output_norm: LoadStep,
}

/// A model.
#[derive(Debug, Clone, Copy)]
pub struct FalconH1Model {
    pub cfg: FalconH1Config,
}

impl FalconH1Model {
    /// The weights that a model asks for; several devices are refused.
    pub fn load_tp(cfg: &FalconH1Config, world_size: usize) -> (result: Result<FalconH1Plan, Error>)
        requires
            cfg.fits(),
        ensures
            world_size > 1 ==> result == Err::<FalconH1Plan, Error>(
                Error::SingleDevice { model: "FalconH1", reason: "CPU-only scaffold" },
            ),
            world_size <= 1 ==> (result matches Ok(plan) && {
                &&& plan.embedding == required(
                    plain("", "token_embd"),
                    Weight::Embedding { rows: cfg.vocab_size, dim: cfg.hidden_size },
                )
                &&& plan.blocks@.len() == cfg.num_layers
                &&& forall|i: int|
                    0 <= i < cfg.num_layers ==> (#[trigger] plan.blocks@[i])@
                        == falcon_h1_layer_plan(cfg, i as usize)
                &&& plan.output_norm == rms_norm(plain("", "output_norm"), cfg.hidden_size)
            }),
    {
        if world_size > 1 {
            return Err(Error::SingleDevice { model: "FalconH1", reason: "CPU-only scaffold" });
        }
        let mut blocks: Vec<Vec<LoadStep>> = Vec::new();
        let mut i: usize = 0;
        while i < cfg.num_layers
            invariant
                i <= cfg.num_layers,
                cfg.fits(),
                blocks@.len() == i,
                forall|j: int|
                    0 <= j < i ==> (#[trigger] blocks@[j])@ == falcon_h1_layer_plan(
                        cfg,
                        j as usize,
                    ),
            decreases cfg.num_layers - i,
        {
            blocks.push(load_block(cfg, i));
            i = i + 1;
        }
        Ok(
            FalconH1Plan {
                embedding: required(
                    plain("", "token_embd"),
                    Weight::Embedding { rows: cfg.vocab_size, dim: cfg.hidden_size },
                ),
                blocks,
                output_norm: rms_norm(plain("", "output_norm"), cfg.hidden_size),
            },
        )
    }

    /// The caches of a fresh session: one per layer.
    pub fn new_session<T: Copy>(&self, zero: T) -> (caches: Vec<FalconH1LayerCache<T>>)
        requires
            self.cfg.num_layers > 0 ==> self.cfg.cache_fits(),
        ensures
            caches@.len() == self.cfg.num_layers,
            forall|i: int|
                0 <= i < caches@.len() ==> (#[trigger] caches@[i]).wf(&self.cfg)
                    && caches@[i].current_pos == 0 && caches@[i].k_device is None
                    && caches@[i].k_cache@.len() == 0 && caches@[i].v_cache@.len() == 0,
    {
        let mut caches: Vec<FalconH1LayerCache<T>> = Vec::new();
        let mut i: usize = 0;
        while i < self.cfg.num_layers
            invariant
                i <= self.cfg.num_layers,
                self.cfg.num_layers > 0 ==> self.cfg.cache_fits(),
                caches@.len() == i,
                forall|j: int|
                    0 <= j < i ==> (#[trigger] caches@[j]).wf(&self.cfg) && caches@[j].current_pos
                        == 0 && caches@[j].k_device is None && caches@[j].k_cache@.len() == 0
                        && caches@[j].v_cache@.len() == 0,
            decreases self.cfg.num_layers - i,
        {
            caches.push(FalconH1LayerCache::new(&self.cfg, zero));
            i = i + 1;
        }
        caches
    }

    /// The stages from token ids to logits.
    pub fn forward_cpu(&self) -> (stages: Vec<Stage>)
        ensures
            stages@ == (PassDesign {
                layers: self.cfg.num_layers,
                positions: false,
                sqrt_scale: None,
                keeps_hidden: false,
                softcap: None,
                advances: false,
            }).stages(0),
    {
        let design = PassDesign {
            layers: self.cfg.num_layers,
            positions: false,
            sqrt_scale: None,
            keeps_hidden: false,
            softcap: None,
            advances: false,
        };
        design.pass(0)
    }

    /// The stages of a pass over `tokens` tokens: from token ids to logits, and
    /// on with the session.
    pub fn forward(&self, tokens: usize) -> (stages: Vec<Stage>)
        ensures
            stages@ == (PassDesign {
                layers: self.cfg.num_layers,
                positions: false,
                sqrt_scale: None,
                keeps_hidden: false,
                softcap: None,
                advances: true,
            }).stages(tokens),
    {
        let design = PassDesign {
            layers: self.cfg.num_layers,
            positions: false,
            sqrt_scale: None,
            keeps_hidden: false,
            softcap: None,
            advances: true,
        };
        design.pass(tokens)
    }
}

/// Every position once per head.
pub open spec fn expanded(positions: Seq<u32>, repeats: nat) -> Seq<u32> {
    Seq::new(positions.len() * repeats, |i: int| positions[i / repeats as int])
}

/// Repeats every position for each head.
pub fn expand_positions(positions: &[u32], repeats: usize) -> (out: Vec<u32>)
    requires
        positions@.len() * repeats <= usize::MAX,
    ensures
        out@ == expanded(positions@, repeats as nat),
{
    let n: usize = positions.len();
    let total: usize = n * repeats;
    let mut out: Vec<u32> = Vec::new();
    let mut i: usize = 0;
    while i < total
        invariant
            i <= total,
            total == n * repeats,
            n == positions@.len(),
            out@ == Seq::new(i as nat, |i: int| positions@[i / repeats as int]),
        decreases total - i,
    {
        proof {
            lemma_flat_index(i as int, n as int, repeats as int);
        }
        out.push(positions[i / repeats]);
        i = i + 1;
    }
    out
}

/// Expanding positions one after the other is expanding them together.
pub proof fn law_expanded_joins(a: Seq<u32>, b: Seq<u32>, heads: nat)
    ensures
        expanded(a + b, heads) == expanded(a, heads) + expanded(b, heads),
{
    let n = heads as int;
    let rows = a.len();
    assert((rows + b.len()) * heads == rows * heads + b.len() * heads) by (nonlinear_arith);
    let all = expanded(a + b, heads);
    let parts = expanded(a, heads) + expanded(b, heads);
    assert forall|i: int| 0 <= i < all.len() implies all[i] == parts[i] by {
        if i < rows * heads {
            lemma_flat_index(i, rows as int, n);
        } else {
            let j = i - rows * heads;
            lemma_flat_index(j, b.len() as int, n);
            assert(i == (rows + j / n) * n + j % n) by (nonlinear_arith)
                requires
                    i == rows * heads + j,
                    n == heads,
                    j == (j / n) * n + j % n,
            ;
            lemma_cell_coordinates(rows + j / n, j % n, n);
        }
    }
    assert(all =~= parts);
}

/// Expanding twice is expanding once by the product.
pub proof fn law_expanded_twice(positions: Seq<u32>, r: nat, m: nat)
    ensures
        expanded(expanded(positions, r), m) == expanded(positions, r * m),
{
    let twice = expanded(expanded(positions, r), m);
    let once = expanded(positions, r * m);
    let n = positions.len() as int;
    assert((n * r) * m == n * (r * m)) by (nonlinear_arith);
    assert forall|i: int| 0 <= i < twice.len() implies twice[i] == once[i] by {
        lemma_flat_index(i, n * r, m as int);
        lemma_flat_index(i / m as int, n, r as int);
        vstd::arithmetic::div_mod::lemma_div_denominator(i, m as int, r as int);
        assert(m * r == r * m) by (nonlinear_arith);
    }
    assert(twice =~= once);
}

/// Expanding by one changes nothing.
pub proof fn law_expanded_once(positions: Seq<u32>)
    ensures
        expanded(positions, 1) == positions,
{
    assert(expanded(positions, 1) =~= positions);
}

/// How appending to the device history ended.
#[derive(Debug, Clone, Copy)]
pub enum ArenaAppend {
    /// The rows are there; the history now has this many tokens.
    Done { k: DeviceBuffer, v: DeviceBuffer, total: usize },
    /// The device cannot do it.
    Unimplemented,
    /// It failed.
    Failed,
}

/// What an attention step does after appending.
#[derive(Debug, Clone, Copy, PartialEq, Eq, Structural)]
pub enum AttendNext {
    /// Attend on the device over this many tokens, the first of which this
    /// many came before the call.
    OnDevice { total: usize, offset: usize },
    /// Attend on the host over the host rows.
    OnMirrors,
    /// Hand the failure on.
    Fail,
}

/// Takes in how appending to the device history ended.
///
/// Where the device holds the history, the host rows stay as they are; where
/// it cannot, the rows of the call join them.
pub fn after_append<T: Copy>(
    cache: &mut FalconH1LayerCache<T>,
    outcome: ArenaAppend,
    k_rows: &[T],
    v_rows: &[T],
    seq_len: usize,
) -> (next: AttendNext)
    requires
        outcome matches ArenaAppend::Done { total, .. } ==> seq_len <= total,
        old(cache).current_pos + seq_len <= usize::MAX,
    ensures
        final(cache).conv_state == old(cache).conv_state,
        final(cache).ssm_state == old(cache).ssm_state,
        match outcome {
            ArenaAppend::Done { k, v, total } => {
                &&& next == (AttendNext::OnDevice { total, offset: (total - seq_len) as usize })
                &&& final(cache).current_pos == total
                &&& final(cache).k_device == Some(k)
                &&& final(cache).v_device == Some(v)
                &&& final(cache).k_cache == old(cache).k_cache
                &&& final(cache).v_cache == old(cache).v_cache
            },
            ArenaAppend::Unimplemented => {
                &&& next == AttendNext::OnMirrors
                &&& final(cache).current_pos == old(cache).current_pos + seq_len
                &&& final(cache).k_device == old(cache).k_device
                &&& final(cache).v_device == old(cache).v_device
                &&& final(cache).k_cache@ == old(cache).k_cache@ + k_rows@
                &&& final(cache).v_cache@ == old(cache).v_cache@ + v_rows@
            },
            ArenaAppend::Failed => next == AttendNext::Fail && *final(cache) == *old(cache),
        },
{
    match outcome {
        ArenaAppend::Done { k, v, total } => {
            cache.current_pos = total;
            cache.k_device = Some(k);
            cache.v_device = Some(v);
            AttendNext::OnDevice { total, offset: total - seq_len }
        },
        ArenaAppend::Unimplemented => {
            append_all(&mut cache.k_cache, k_rows);
            append_all(&mut cache.v_cache, v_rows);
            cache.current_pos = cache.current_pos + seq_len;
            AttendNext::OnMirrors
        },
        ArenaAppend::Failed => AttendNext::Fail,
    }
}

/// The first elements of a buffer, or all of it where it has fewer.
pub open spec fn first_rows<T>(buffer: Seq<T>, elems: nat) -> Seq<T> {
    if elems <= buffer.len() {
        buffer.take(elems as int)
    } else {
        buffer
    }
}

/// The valid rows of a fetched history: it may have room for more.
pub fn arena_rows<T: Copy>(fetched: &[T], total: usize, row_elems: usize) -> (rows: Vec<T>)
    requires
        total * row_elems <= usize::MAX,
    ensures
        rows@ == first_rows(fetched@, (total * row_elems) as nat),
{
    let n: usize = total * row_elems;
    let have: usize = fetched.len();
    let rows = copy_range(
        fetched,
        0,
        if n <= have {
            n
        } else {
            have
        },
    );
    assert(rows@ =~= (if total * row_elems <= fetched@.len() {
        fetched@.take(total * row_elems)
    } else {
        fetched@
    }));
    rows
}

/// The convolved inputs of a call: the middle part of every projected row.
pub open spec fn conv_rows<T>(cfg: &FalconH1Config, ssm: Seq<T>, tokens: nat) -> Seq<T> {
    columns(ssm, tokens, cfg.in_dim() as nat, cfg.ssm_d_inner as nat, cfg.conv_dim() as nat)
}

/// The rates of a call: the last part of every projected row.
pub open spec fn rate_rows<T>(cfg: &FalconH1Config, ssm: Seq<T>, tokens: nat) -> Seq<T> {
    columns(
        ssm,
        tokens,
        cfg.in_dim() as nat,
        (cfg.ssm_d_inner + cfg.conv_dim()) as nat,
        cfg.ssm_dt_rank as nat,
    )
}

/// Convolves the rows of a call on the host and slides the kept inputs.
///
/// `conv` adds the bias of a channel to its weighed window and activates.
pub fn conv_on_host<T: Copy, C: Fn(usize, usize, Vec<T>, Vec<T>) -> T>(
    cfg: &FalconH1Config,
    cache: &mut FalconH1LayerCache<T>,
    ssm: &[T],
    tokens: usize,
    kernel: &[T],
    conv: C,
) -> (xbc: Vec<T>)
    requires
        cfg.scans(),
        old(cache).wf(cfg),
        ssm@.len() == tokens * cfg.in_dim(),
        cfg.conv_dim() * cfg.ssm_d_conv <= kernel@.len(),
        (cfg.ssm_d_conv - 1 + tokens) * cfg.conv_dim() <= usize::MAX,
        forall|step: usize, d: usize, a: Vec<T>, b: Vec<T>|
            step < tokens && d < cfg.conv_dim() && a@.len() == cfg.ssm_d_conv && b@.len()
                == cfg.ssm_d_conv ==> #[trigger] call_requires(conv, (step, d, a, b)),
    ensures
        final(cache).wf(cfg),
        xbc@.len() == tokens * cfg.conv_dim(),
        forall|step: int, d: int|
            0 <= step < tokens && 0 <= d < cfg.conv_dim() ==> #[trigger] cell_done(
                conv,
                old(cache).conv_state@ + conv_rows(cfg, ssm@, tokens as nat),
                kernel@,
                cfg.conv_dim() as nat,
                cfg.ssm_d_conv as nat,
                xbc@,
                step,
                d,
            ),
        final(cache).conv_state@ == suffix(
            old(cache).conv_state@ + conv_rows(cfg, ssm@, tokens as nat),
            old(cache).conv_state@.len(),
        ),
        final(cache).ssm_state == old(cache).ssm_state,
        final(cache).k_cache == old(cache).k_cache,
        final(cache).v_cache == old(cache).v_cache,
        final(cache).k_device == old(cache).k_device,
        final(cache).v_device == old(cache).v_device,
        final(cache).current_pos == old(cache).current_pos,
{
    proof {
        lemma_scan_shape(cfg);
        let (k, t, c) = (cfg.ssm_d_conv - 1, tokens as int, cfg.conv_dim());
        assert((k + t) * c == k * c + t * c) by (nonlinear_arith);
    }
    let width: usize = cfg.ssm_conv_dim();
    let rows = take_columns(ssm, tokens, cfg.ssm_in_dim(), cfg.ssm_d_inner, width);
    causal_conv(
        rows.as_slice(),
        kernel,
        tokens,
        width,
        cfg.ssm_d_conv,
        &mut cache.conv_state,
        conv,
    )
}

/// The kept inputs as the device kernel reads them.
pub fn conv_state_for_device<T: Copy>(cfg: &FalconH1Config, cache: &FalconH1LayerCache<T>) -> (out:
    Vec<T>)
    requires
        cfg.scans(),
        cache.wf(cfg),
    ensures
        out@ == transposed(
            cache.conv_state@,
            (cfg.ssm_d_conv - 1) as nat,
            cfg.conv_dim() as nat,
        ),
{
    proof {
        lemma_scan_shape(cfg);
    }
    channel_major_state(cache.conv_state.as_slice(), cfg.ssm_d_conv - 1, cfg.ssm_conv_dim())
}

/// Slides the kept inputs after the device convolved one token.
pub fn after_device_conv<T: Copy>(
    cfg: &FalconH1Config,
    cache: &mut FalconH1LayerCache<T>,
    ssm_row: &[T],
)
    requires
        cfg.scans(),
        old(cache).wf(cfg),
        cfg.ssm_d_conv >= 2,
        ssm_row@.len() == cfg.in_dim(),
        cfg.ssm_d_conv * cfg.conv_dim() <= usize::MAX,
    ensures
        final(cache).wf(cfg),
        final(cache).conv_state@ == suffix(
            old(cache).conv_state@ + conv_rows(cfg, ssm_row@, 1),
            old(cache).conv_state@.len(),
        ),
        final(cache).ssm_state == old(cache).ssm_state,
        final(cache).k_cache == old(cache).k_cache,
        final(cache).v_cache == old(cache).v_cache,
        final(cache).k_device == old(cache).k_device,
        final(cache).v_device == old(cache).v_device,
        final(cache).current_pos == old(cache).current_pos,
{
    proof {
        lemma_scan_shape(cfg);
        let (k, c) = (cfg.ssm_d_conv as int, cfg.conv_dim());
        assert(c <= (k - 1) * c && k * c == (k - 1) * c + c) by (nonlinear_arith)
            requires
                2 <= k,
                0 <= c,
        ;
        assert(1 * cfg.in_dim() == cfg.in_dim());
    }
    let row = take_columns(ssm_row, 1, cfg.ssm_in_dim(), cfg.ssm_d_inner, cfg.ssm_conv_dim());
    slide_state(&mut cache.conv_state, row.as_slice());
}

/// Scans the convolved rows of a call on the host.
pub fn scan_on_host<T: Copy, F: Fn(usize, T, T, Vec<T>, Vec<T>, Vec<T>) -> (Vec<T>, T)>(
    cfg: &FalconH1Config,
    cache: &mut FalconH1LayerCache<T>,
    xbc: &[T],
    ssm: &[T],
    tokens: usize,
    zero: T,
    step: F,
) -> (y: Vec<T>)
    requires
        cfg.scans(),
        old(cache).wf(cfg),
        xbc@.len() == tokens * cfg.conv_dim(),
        ssm@.len() == tokens * cfg.in_dim(),
        tokens * cfg.ssm_d_inner <= usize::MAX,
        forall|h: usize, r: T, x: T, s: Vec<T>, b: Vec<T>, c: Vec<T>|
            h < cfg.ssm_dt_rank && s@.len() == cfg.ssm_d_state && b@.len() == cfg.ssm_d_state
                && c@.len() == cfg.ssm_d_state ==> #[trigger] call_requires(
                step,
                (h, r, x, s, b, c),
            ),
        forall|h: usize, r: T, x: T, s: Vec<T>, b: Vec<T>, c: Vec<T>, o: (Vec<T>, T)| #[trigger]
            call_ensures(step, (h, r, x, s, b, c), o) && s@.len() == cfg.ssm_d_state ==> o.0@.len()
                == cfg.ssm_d_state,
    ensures
        final(cache).wf(cfg),
        y@.len() == tokens * cfg.ssm_d_inner,
        scanned(
            &cfg.scan_shape(),
            step,
            xbc@,
            rate_rows(cfg, ssm@, tokens as nat),
            tokens as nat,
            old(cache).ssm_state@,
            final(cache).ssm_state@,
            y@,
        ),
        forall|t: int, i: int|
            0 <= t < tokens && cfg.scan_shape().used() <= i < cfg.ssm_d_inner ==> y@[#[trigger] (t
                * cfg.ssm_d_inner + i)] == zero,
        final(cache).conv_state == old(cache).conv_state,
        final(cache).k_cache == old(cache).k_cache,
        final(cache).v_cache == old(cache).v_cache,
        final(cache).k_device == old(cache).k_device,
        final(cache).v_device == old(cache).v_device,
        final(cache).current_pos == old(cache).current_pos,
{
    proof {
        lemma_scan_shape(cfg);
    }
    let width: usize = cfg.ssm_conv_dim();
    let shape = ScanShape {
        inner: cfg.ssm_d_inner,
        state: cfg.ssm_d_state,
        heads: cfg.ssm_dt_rank,
        head_dim: cfg.ssm_d_inner / cfg.ssm_dt_rank,
        width,
    };
    let rates = take_columns(
        ssm,
        tokens,
        cfg.ssm_in_dim(),
        cfg.ssm_d_inner + width,
        cfg.ssm_dt_rank,
    );
    selective_scan(&shape, xbc, rates.as_slice(), tokens, &mut cache.ssm_state, zero, step)
}

/// Takes over the state that a scan on the device left, which may come with
/// cells behind it.
pub fn after_device_scan<T: Copy>(
    cfg: &FalconH1Config,
    cache: &mut FalconH1LayerCache<T>,
    state: &[T],
)
    requires
        cfg.scans(),
        old(cache).wf(cfg),
        cfg.ssm_d_inner * cfg.ssm_d_state <= state@.len(),
    ensures
        final(cache).wf(cfg),
        final(cache).ssm_state@ == state@.take(cfg.ssm_d_inner * cfg.ssm_d_state),
        final(cache).conv_state == old(cache).conv_state,
        final(cache).k_cache == old(cache).k_cache,
        final(cache).v_cache == old(cache).v_cache,
        final(cache).k_device == old(cache).k_device,
        final(cache).v_device == old(cache).v_device,
        final(cache).current_pos == old(cache).current_pos,
{
    cache.ssm_state = copy_range(state, 0, cfg.ssm_d_inner * cfg.ssm_d_state);
    assert(cache.ssm_state@ =~= state@.take(cfg.ssm_d_inner * cfg.ssm_d_state));
}

/// Gates the scanned rows by the first part of the projected rows, activated.
pub fn gate_rows<
    T: Copy,
    F: Fn(ScalarOp, T, T) -> T,
    C: Fn(Number) -> T,
    Z: Fn(Relation, T, T) -> bool,
>(
    x: &Scalars<T, F, C, Z>,
    cfg: &FalconH1Config,
    ssm: &[T],
    y: &[T],
    tokens: usize,
) -> (out: Vec<T>)
    requires
        x.wf(),
        cfg.scans(),
        ssm@.len() == tokens * cfg.in_dim(),
        y@.len() == tokens * cfg.ssm_d_inner,
    ensures
        out@ == x.gated_rows(cfg, ssm@, y@, tokens as nat),
{
    proof {
        lemma_scan_shape(cfg);
    }
    let z = take_columns(ssm, tokens, cfg.ssm_in_dim(), 0, cfg.ssm_d_inner);
    let out = activate_gated(x, Activation::Silu, z.as_slice(), y);
    assert(out@ =~= x.gated_rows(cfg, ssm@, y@, tokens as nat));
    out
}

/// What convolves and scans the rows of a call.
#[derive(Debug, Clone, Copy, PartialEq, Eq, Structural)]
pub enum SsmRunner {
    /// The device, and the host where the device cannot.
    DeviceFirst,
    /// The host.
    Host,
}

/// One token goes to the device first; more of them stay on the host.
pub fn ssm_runner(tokens: usize) -> (r: SsmRunner)
    ensures
        r == (if tokens == 1 {
            SsmRunner::DeviceFirst
        } else {
            SsmRunner::Host
        }),
{
    if tokens == 1 {
        SsmRunner::DeviceFirst
    } else {
        SsmRunner::Host
    }
}

} // verus!
