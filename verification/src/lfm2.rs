//! LFM2: a stack that mixes attention layers with recurrent short convolutions,
//! with dense or expert feed-forward parts.

use crate::device::Device;
use crate::error::Error;
use crate::lfm2_cache::Lfm2LayerCache;
use crate::numeric::Real;
use crate::rows::{append_all, copy_range};
use crate::surroundings::HeadShape;
use crate::weights::{either, in_layer, optional, plain, required, Fallback, LoadStep, Weight};
use vstd::prelude::*;

verus! {

/// Rows that a device key or value arena starts with.
pub const LFM2_FUSED_KV_CACHE_LEN: usize = 4096;

/// Settings of an LFM2 model.
#[derive(Debug, Clone)]
pub struct Lfm2Config {
    pub vocab_size: usize,
    pub hidden_size: usize,
    pub num_heads: usize,
    pub num_kv_heads: usize,
    pub head_dim: usize,
    pub num_layers: usize,
    pub intermediate_size: usize,
    pub rms_norm_eps: Real,
    pub rope_theta: Real,
    pub n_shortconv_l_cache: usize,
    pub is_recr: Vec<bool>,
    pub n_layer_dense_lead: usize,
    pub n_expert: usize,
    pub n_expert_used: usize,
    pub n_ff_exp: usize,
    pub expert_weights_scale: Real,
    pub expert_gating_func: u32,
    pub n_swa: usize,
    pub swa_type: u32,
    pub n_embd_out: usize,
    /// Route the attention projections through the fused MXFP4 kernel.
    pub mxfp4_qkv_attention: bool,
}

impl Lfm2Config {
    /// The architecture name.
    pub fn name(&self) -> (name: &'static str)
        ensures
            name@ == "lfm2"@,
    {
        "lfm2"
    }

    /// Layer `layer` is recurrent; a layer without a flag is not.
    pub open spec fn recurrent(&self, layer: int) -> bool {
        layer < self.is_recr@.len() && self.is_recr@[layer]
    }

    /// Layer `layer` has an expert feed-forward part.
    pub open spec fn moe(&self, layer: int) -> bool {
        layer >= self.n_layer_dense_lead
    }

    /// Tells whether a layer is recurrent.
    pub fn is_recurrent(&self, layer: usize) -> (r: bool)
        ensures
            r == self.recurrent(layer as int),
    {
        layer < self.is_recr.len() && self.is_recr[layer]
    }

    /// The widths of queries and of keys fit.
    pub open spec fn heads_fit(&self) -> bool {
        &&& self.num_heads * self.head_dim <= usize::MAX
        &&& self.num_kv_heads * self.head_dim <= usize::MAX
    }

    /// The products of dimensions that the weight shapes are made of fit.
    pub open spec fn dims_fit(&self) -> bool {
        &&& self.heads_fit()
        &&& 3 * self.hidden_size <= usize::MAX
    }
}

/// How an attention layer mixes tokens.
#[derive(Debug, Clone, Copy, PartialEq, Eq, Structural)]
pub enum Lfm2AttentionMode {
    /// Softmax attention over a key and value history.
    Softmax,
    /// A gated delta-rule recurrence.
    Gdl,
}

/// The shape of a projection.
#[derive(Debug, Clone, Copy, PartialEq, Eq, Structural)]
pub struct LinearInfo {
    pub inputs: usize,
    pub outputs: usize,
}

/// The tap count of a convolution kernel: its last dimension, where it has one.
#[derive(Debug, Clone, Copy, PartialEq, Eq, Structural)]
pub struct ConvKernel {
    pub taps: Option<usize>,
}

/// Stacked expert weights.
#[derive(Debug, Clone, Copy, PartialEq, Eq, Structural)]
pub struct ExpertStack {
    pub d0: usize,
    pub d1: usize,
    pub d2: usize,
}

/// Query, key and value projections stored as one Q8_0 blob.
#[derive(Debug, Clone, Copy, PartialEq, Eq, Structural)]
pub struct FusedQkvInfo {
    pub n_q: usize,
    pub n_k: usize,
}

/// Gate and up projections stored as one Q8_0 blob.
#[derive(Debug, Clone, Copy, PartialEq, Eq, Structural)]
pub struct FusedGateUpInfo {
    pub n_gate: usize,
    pub n_up: usize,
}

/// Which projections are stored as Q8_0.
#[derive(Debug, Clone, Copy, PartialEq, Eq, Structural)]
pub struct Q80Weights {
    pub wq: bool,
    pub wk: bool,
    pub wv: bool,
    pub in_proj: bool,
    pub gate: bool,
    pub up: bool,
    pub down: bool,
}

/// One layer, as far as planning reads it.
#[derive(Debug, Clone, Copy)]
pub struct Lfm2Block {
    pub wq: Option<LinearInfo>,
    pub wk: Option<LinearInfo>,
    pub wv: Option<LinearInfo>,
    pub wo: Option<LinearInfo>,
    /// Width of the per-head query norm.
    pub attn_q_norm: Option<usize>,
    /// Width of the per-head key norm.
    pub attn_k_norm: Option<usize>,
    /// Packed MXFP4 codes of the fused projections, with their blocks' scales.
    pub wqkv_codes: Option<LinearInfo>,
    pub wqkv_exps: Option<usize>,
    pub gamma_q: Option<usize>,
    pub gamma_k: Option<usize>,
    pub wqkv_q80_fused: Option<FusedQkvInfo>,
    pub w_gate_up_q80_fused: Option<FusedGateUpInfo>,
    pub shortconv_in_proj: Option<LinearInfo>,
    pub shortconv_conv: Option<ConvKernel>,
    /// Length of the kernel's host copy.
    pub shortconv_conv_vec: Option<usize>,
    pub shortconv_out_proj: Option<LinearInfo>,
    pub ffn_gate: LinearInfo,
    pub ffn_up: LinearInfo,
    pub ffn_down: LinearInfo,
    pub ffn_gate_inp: Option<LinearInfo>,
    pub ffn_gate_exps: Option<ExpertStack>,
    pub ffn_up_exps: Option<ExpertStack>,
    pub ffn_down_exps: Option<ExpertStack>,
    pub ffn_exp_probs_b: Option<usize>,
    pub q80: Q80Weights,
    pub attention_mode: Lfm2AttentionMode,
    pub is_moe: bool,
    pub n_expert: usize,
    pub n_expert_used: usize,
    pub num_heads: usize,
    pub num_kv_heads: usize,
    pub head_dim: usize,
    pub rope_theta: Real,
    pub eps: Real,
}

/// What loading a layer's weights found.
#[derive(Debug, Clone, Copy)]
pub struct Lfm2Loaded {
    /// Where the query projection lives, for an attention layer.
    pub device: Option<Device>,
    /// Fused Q8_0 blobs are asked for.
    pub fuses_qkv: bool,
    /// The fused Q8_0 blob, where building it succeeded.
    pub fused_qkv: Option<FusedQkvInfo>,
    pub fused_gate_up: Option<FusedGateUpInfo>,
    /// The last dimension of the convolution kernel.
    pub conv_taps: Option<usize>,
    /// The length of the kernel's host copy, where it could be read.
    pub conv_values: Option<usize>,
    pub q80: Q80Weights,
    pub attention_mode: Lfm2AttentionMode,
}

/// A required projection of layer `layer`.
#[verifier::allow_in_spec]
pub fn lfm2_linear(layer: usize, leaf: &'static str, inputs: usize, outputs: usize) -> LoadStep
    returns
        required(in_layer("blk", layer, "", leaf), Weight::Linear { inputs, outputs, bias: false }),
{
    required(in_layer("blk", layer, "", leaf), Weight::Linear { inputs, outputs, bias: false })
}

/// A required norm of layer `layer`.
#[verifier::allow_in_spec]
pub fn lfm2_norm(layer: usize, leaf: &'static str, dim: usize) -> LoadStep
    returns
        required(in_layer("blk", layer, "", leaf), Weight::RmsNorm { dim }),
{
    required(in_layer("blk", layer, "", leaf), Weight::RmsNorm { dim })
}

/// The token-mixing weights of a layer, after its norm.
pub open spec fn mixer_plan(cfg: &Lfm2Config, layer: usize) -> Seq<LoadStep> {
    let hidden = cfg.hidden_size;
    if cfg.recurrent(layer as int) {
        let conv = in_layer("blk", layer, "", "shortconv.conv.weight");
        seq![
            lfm2_linear(layer, "shortconv.in_proj", hidden, (3 * hidden) as usize),
            either(
                conv,
                Weight::Tensor2 { d0: hidden, d1: cfg.n_shortconv_l_cache },
                conv,
                Weight::Tensor3 { d0: hidden, d1: 1, d2: cfg.n_shortconv_l_cache },
            ),
            lfm2_linear(layer, "shortconv.out_proj", hidden, hidden),
        ]
    } else {
        let n_q = (cfg.num_heads * cfg.head_dim) as usize;
        let n_k = (cfg.num_kv_heads * cfg.head_dim) as usize;
        seq![
            lfm2_linear(layer, "attn_q", hidden, n_q),
            lfm2_linear(layer, "attn_k", hidden, n_k),
            lfm2_linear(layer, "attn_v", hidden, n_k),
            lfm2_linear(layer, "attn_output", n_q, hidden),
            lfm2_norm(layer, "attn_q_norm", cfg.head_dim),
            lfm2_norm(layer, "attn_k_norm", cfg.head_dim),
        ]
    }
}

/// The feed-forward weights of a layer, after its norm.
pub open spec fn ffn_plan(cfg: &Lfm2Config, layer: usize) -> Seq<LoadStep> {
    let hidden = cfg.hidden_size;
    let experts = if cfg.moe(layer as int) {
        let stack = Weight::Tensor3 { d0: cfg.n_expert, d1: cfg.n_ff_exp, d2: hidden };
        seq![
            lfm2_linear(layer, "ffn_gate_inp", hidden, cfg.n_expert),
            required(in_layer("blk", layer, "", "ffn_gate_exps.weight"), stack),
            required(in_layer("blk", layer, "", "ffn_up_exps.weight"), stack),
            required(
                in_layer("blk", layer, "", "ffn_down_exps.weight"),
                Weight::Tensor3 { d0: cfg.n_ff_exp, d1: hidden, d2: cfg.n_expert },
            ),
            required(
                in_layer("blk", layer, "", "ffn_exp_probs_b.bias"),
                Weight::Tensor1 { d0: cfg.n_expert },
            ),
        ]
    } else {
        Seq::empty()
    };
    experts + seq![
        lfm2_linear(layer, "ffn_gate", hidden, cfg.intermediate_size),
        lfm2_linear(layer, "ffn_up", hidden, cfg.intermediate_size),
        lfm2_linear(layer, "ffn_down", cfg.intermediate_size, hidden),
    ]
}

/// Every weight of a layer, in the order in which it is asked for.
pub open spec fn lfm2_layer_plan(cfg: &Lfm2Config, layer: usize) -> Seq<LoadStep> {
    seq![lfm2_norm(layer, "attn_norm", cfg.hidden_size)] + mixer_plan(cfg, layer) + seq![
        lfm2_norm(layer, "ffn_norm", cfg.hidden_size),
    ] + ffn_plan(cfg, layer)
}

/// The fused MXFP4 pack is built for this layer.
pub open spec fn packs_mxfp4(cfg: &Lfm2Config, layer: int, device: Option<Device>) -> bool {
    !cfg.recurrent(layer) && cfg.mxfp4_qkv_attention && (device matches Some(d) && d.rocm())
}

/// The fused Q8_0 blob is tried for this layer.
pub open spec fn tries_q80_blob(
    cfg: &Lfm2Config,
    layer: int,
    device: Option<Device>,
    enabled: bool,
) -> bool {
    !cfg.recurrent(layer) && (device matches Some(d) && d.rocm()) && enabled
}

fn on_rocm(device: Option<Device>) -> (r: bool)
    ensures
        r == (device matches Some(d) && d.rocm()),
{
    match device {
        Some(d) => d.is_rocm(),
        None => false,
    }
}

impl Lfm2Block {
    /// The weights that the layer asks for.
    pub fn weight_plan(cfg: &Lfm2Config, layer_idx: usize) -> (plan: Vec<LoadStep>)
        requires
            cfg.dims_fit(),
        ensures
            plan@ == lfm2_layer_plan(cfg, layer_idx),
    {
        let hidden: usize = cfg.hidden_size;
        let mut plan: Vec<LoadStep> = Vec::new();
        plan.push(lfm2_norm(layer_idx, "attn_norm", hidden));
        if cfg.is_recurrent(layer_idx) {
            let conv = in_layer("blk", layer_idx, "", "shortconv.conv.weight");
            plan.push(lfm2_linear(layer_idx, "shortconv.in_proj", hidden, 3 * hidden));
            plan.push(
                either(
                    conv,
                    Weight::Tensor2 { d0: hidden, d1: cfg.n_shortconv_l_cache },
                    conv,
                    Weight::Tensor3 { d0: hidden, d1: 1, d2: cfg.n_shortconv_l_cache },
                ),
            );
            plan.push(lfm2_linear(layer_idx, "shortconv.out_proj", hidden, hidden));
        } else {
            let n_q: usize = cfg.num_heads * cfg.head_dim;
            let n_k: usize = cfg.num_kv_heads * cfg.head_dim;
            plan.push(lfm2_linear(layer_idx, "attn_q", hidden, n_q));
            plan.push(lfm2_linear(layer_idx, "attn_k", hidden, n_k));
            plan.push(lfm2_linear(layer_idx, "attn_v", hidden, n_k));
            plan.push(lfm2_linear(layer_idx, "attn_output", n_q, hidden));
            plan.push(lfm2_norm(layer_idx, "attn_q_norm", cfg.head_dim));
            plan.push(lfm2_norm(layer_idx, "attn_k_norm", cfg.head_dim));
        }
        plan.push(lfm2_norm(layer_idx, "ffn_norm", hidden));
        if layer_idx >= cfg.n_layer_dense_lead {
            let stack = Weight::Tensor3 { d0: cfg.n_expert, d1: cfg.n_ff_exp, d2: hidden };
            plan.push(lfm2_linear(layer_idx, "ffn_gate_inp", hidden, cfg.n_expert));
            plan.push(required(in_layer("blk", layer_idx, "", "ffn_gate_exps.weight"), stack));
            plan.push(required(in_layer("blk", layer_idx, "", "ffn_up_exps.weight"), stack));
            plan.push(
                required(
                    in_layer("blk", layer_idx, "", "ffn_down_exps.weight"),
                    Weight::Tensor3 { d0: cfg.n_ff_exp, d1: hidden, d2: cfg.n_expert },
                ),
            );
            plan.push(
                required(
                    in_layer("blk", layer_idx, "", "ffn_exp_probs_b.bias"),
                    Weight::Tensor1 { d0: cfg.n_expert },
                ),
            );
        }
        plan.push(lfm2_linear(layer_idx, "ffn_gate", hidden, cfg.intermediate_size));
        plan.push(lfm2_linear(layer_idx, "ffn_up", hidden, cfg.intermediate_size));
        plan.push(lfm2_linear(layer_idx, "ffn_down", cfg.intermediate_size, hidden));
        assert(plan@ =~= lfm2_layer_plan(cfg, layer_idx));
        plan
    }

    /// Tells whether the fused MXFP4 pack is built for a layer.
    pub fn packs_fused_mxfp4(
        cfg: &Lfm2Config,
        layer_idx: usize,
        device: Option<Device>,
    ) -> (r: bool)
        ensures
            r == packs_mxfp4(cfg, layer_idx as int, device),
    {
        !cfg.is_recurrent(layer_idx) && cfg.mxfp4_qkv_attention && on_rocm(device)
    }

    /// Tells whether the fused Q8_0 blob is tried for a layer.
    pub fn tries_fused_q80(
        cfg: &Lfm2Config,
        layer_idx: usize,
        device: Option<Device>,
        enabled: bool,
    ) -> (r: bool)
        ensures
            r == tries_q80_blob(cfg, layer_idx as int, device, enabled),
    {
        !cfg.is_recurrent(layer_idx) && on_rocm(device) && enabled
    }
}

/// The rows of the fused query, key and value projection.
pub open spec fn fused_rows(cfg: &Lfm2Config) -> int {
    cfg.num_heads * cfg.head_dim + 2 * (cfg.num_kv_heads * cfg.head_dim)
}

/// The fused projection fits in memory.
pub open spec fn pack_fits(cfg: &Lfm2Config) -> bool {
    fused_rows(cfg) <= usize::MAX && fused_rows(cfg) * cfg.hidden_size <= usize::MAX
}

/// The layer that the found weights make up.
pub open spec fn loaded_block(cfg: &Lfm2Config, layer: int, found: &Lfm2Loaded) -> Lfm2Block {
    let attention = !cfg.recurrent(layer);
    let moe = cfg.moe(layer);
    let packs = packs_mxfp4(cfg, layer, found.device);
    let hidden = cfg.hidden_size;
    let n_q = (cfg.num_heads * cfg.head_dim) as usize;
    let n_k = (cfg.num_kv_heads * cfg.head_dim) as usize;
    let q = LinearInfo { inputs: hidden, outputs: n_q };
    let kv = LinearInfo { inputs: hidden, outputs: n_k };
    let stack = ExpertStack { d0: cfg.n_expert, d1: cfg.n_ff_exp, d2: hidden };
    Lfm2Block {
        wq: if attention { Some(q) } else { None },
        wk: if attention { Some(kv) } else { None },
        wv: if attention { Some(kv) } else { None },
        wo: if attention { Some(LinearInfo { inputs: n_q, outputs: hidden }) } else { None },
        attn_q_norm: if attention { Some(cfg.head_dim) } else { None },
        attn_k_norm: if attention { Some(cfg.head_dim) } else { None },
        wqkv_codes: if packs {
            Some(LinearInfo { inputs: hidden, outputs: fused_rows(cfg) as usize })
        } else {
            None
        },
        wqkv_exps: if packs {
            Some((fused_rows(cfg) * hidden / 32) as usize)
        } else {
            None
        },
        gamma_q: if packs { Some(cfg.head_dim) } else { None },
        gamma_k: if packs { Some(cfg.head_dim) } else { None },
        wqkv_q80_fused: if tries_q80_blob(cfg, layer, found.device, found.fuses_qkv) {
            found.fused_qkv
        } else {
            None
        },
        w_gate_up_q80_fused: found.fused_gate_up,
        shortconv_in_proj: if attention {
            None
        } else {
            Some(LinearInfo { inputs: hidden, outputs: (3 * hidden) as usize })
        },
        shortconv_conv: if attention {
            None
        } else {
            Some(ConvKernel { taps: found.conv_taps })
        },
        shortconv_conv_vec: if attention { None } else { found.conv_values },
        shortconv_out_proj: if attention {
            None
        } else {
            Some(LinearInfo { inputs: hidden, outputs: hidden })
        },
        ffn_gate: LinearInfo { inputs: hidden, outputs: cfg.intermediate_size },
        ffn_up: LinearInfo { inputs: hidden, outputs: cfg.intermediate_size },
        ffn_down: LinearInfo { inputs: cfg.intermediate_size, outputs: hidden },
        ffn_gate_inp: if moe {
            Some(LinearInfo { inputs: hidden, outputs: cfg.n_expert })
        } else {
            None
        },
        ffn_gate_exps: if moe { Some(stack) } else { None },
        ffn_up_exps: if moe { Some(stack) } else { None },
        ffn_down_exps: if moe {
            Some(ExpertStack { d0: cfg.n_ff_exp, d1: hidden, d2: cfg.n_expert })
        } else {
            None
        },
        ffn_exp_probs_b: if moe { Some(cfg.n_expert) } else { None },
        q80: found.q80,
        attention_mode: found.attention_mode,
        is_moe: moe,
        n_expert: if moe { cfg.n_expert } else { 0 },
        n_expert_used: cfg.n_expert_used,
        num_heads: cfg.num_heads,
        num_kv_heads: cfg.num_kv_heads,
        head_dim: cfg.head_dim,
        rope_theta: cfg.rope_theta,
        eps: cfg.rms_norm_eps,
    }
}

/// The parts that the ShortConv variant needs, in the order in which they are
/// asked for.
pub open spec fn shortconv_missing(block: &Lfm2Block) -> Option<&'static str> {
    if block.shortconv_conv is None {
        Some("shortconv_conv")
    } else if block.shortconv_conv_vec is None {
        Some("shortconv_conv_vec")
    } else if block.shortconv_out_proj is None {
        Some("shortconv_out_proj")
    } else {
        None
    }
}

/// The parts that the attention variant needs, in the order in which they are
/// asked for.
pub open spec fn attention_missing(block: &Lfm2Block) -> Option<&'static str> {
    if block.wq is None {
        Some("wq")
    } else if block.wk is None {
        Some("wk")
    } else if block.wv is None {
        Some("wv")
    } else if block.wo is None {
        Some("wo")
    } else if block.attn_q_norm is None {
        Some("attn_q_norm")
    } else if block.attn_k_norm is None {
        Some("attn_k_norm")
    } else {
        None
    }
}

/// The first part that the layer's variant needs and does not have.
pub open spec fn first_missing(block: &Lfm2Block) -> Option<&'static str> {
    let mixer = if block.shortconv_in_proj is Some {
        shortconv_missing(block)
    } else {
        attention_missing(block)
    };
    if mixer is Some {
        mixer
    } else if block.is_moe && block.ffn_gate_inp is None {
        Some("ffn_gate_inp")
    } else {
        None
    }
}

/// Only one of the fused MXFP4 tensors of an attention layer is there.
pub open spec fn half_fused(block: &Lfm2Block) -> bool {
    block.shortconv_in_proj is None && attention_missing(block) is None && (block.wqkv_codes is Some)
        != (block.wqkv_exps is Some)
}

/// Every part that the layer's own variant reads is there.
pub open spec fn coherent(block: &Lfm2Block) -> bool {
    first_missing(block) is None && !half_fused(block)
}

impl Lfm2Block {
    /// Puts a layer together from the weights that were found.
    pub fn load(cfg: &Lfm2Config, layer_idx: usize, found: &Lfm2Loaded) -> (block: Lfm2Block)
        requires
            cfg.dims_fit(),
            packs_mxfp4(cfg, layer_idx as int, found.device) ==> pack_fits(cfg),
        ensures
            block == loaded_block(cfg, layer_idx as int, found),
    {
        let attention: bool = !cfg.is_recurrent(layer_idx);
        let moe: bool = layer_idx >= cfg.n_layer_dense_lead;
        let packs: bool = Lfm2Block::packs_fused_mxfp4(cfg, layer_idx, found.device);
        let hidden: usize = cfg.hidden_size;
        let n_q: usize = cfg.num_heads * cfg.head_dim;
        let n_k: usize = cfg.num_kv_heads * cfg.head_dim;
        let rows: usize = if packs {
            n_q + 2 * n_k
        } else {
            0
        };
        let q = LinearInfo { inputs: hidden, outputs: n_q };
        let kv = LinearInfo { inputs: hidden, outputs: n_k };
        let stack = ExpertStack { d0: cfg.n_expert, d1: cfg.n_ff_exp, d2: hidden };
        Lfm2Block {
            wq: if attention { Some(q) } else { None },
            wk: if attention { Some(kv) } else { None },
            wv: if attention { Some(kv) } else { None },
            wo: if attention { Some(LinearInfo { inputs: n_q, outputs: hidden }) } else { None },
            attn_q_norm: if attention { Some(cfg.head_dim) } else { None },
            attn_k_norm: if attention { Some(cfg.head_dim) } else { None },
            wqkv_codes: if packs {
                Some(LinearInfo { inputs: hidden, outputs: rows })
            } else {
                None
            },
            wqkv_exps: if packs { Some(rows * hidden / 32) } else { None },
            gamma_q: if packs { Some(cfg.head_dim) } else { None },
            gamma_k: if packs { Some(cfg.head_dim) } else { None },
            wqkv_q80_fused: if Lfm2Block::tries_fused_q80(
                cfg,
                layer_idx,
                found.device,
                found.fuses_qkv,
            ) {
                found.fused_qkv
            } else {
                None
            },
            w_gate_up_q80_fused: found.fused_gate_up,
            shortconv_in_proj: if attention {
                None
            } else {
                Some(LinearInfo { inputs: hidden, outputs: 3 * hidden })
            },
            shortconv_conv: if attention {
                None
            } else {
                Some(ConvKernel { taps: found.conv_taps })
            },
            shortconv_conv_vec: if attention { None } else { found.conv_values },
            shortconv_out_proj: if attention {
                None
            } else {
                Some(LinearInfo { inputs: hidden, outputs: hidden })
            },
            ffn_gate: LinearInfo { inputs: hidden, outputs: cfg.intermediate_size },
            ffn_up: LinearInfo { inputs: hidden, outputs: cfg.intermediate_size },
            ffn_down: LinearInfo { inputs: cfg.intermediate_size, outputs: hidden },
            ffn_gate_inp: if moe {
                Some(LinearInfo { inputs: hidden, outputs: cfg.n_expert })
            } else {
                None
            },
            ffn_gate_exps: if moe { Some(stack) } else { None },
            ffn_up_exps: if moe { Some(stack) } else { None },
            ffn_down_exps: if moe {
                Some(ExpertStack { d0: cfg.n_ff_exp, d1: hidden, d2: cfg.n_expert })
            } else {
                None
            },
            ffn_exp_probs_b: if moe { Some(cfg.n_expert) } else { None },
            q80: found.q80,
            attention_mode: found.attention_mode,
            is_moe: moe,
            n_expert: if moe { cfg.n_expert } else { 0 },
            n_expert_used: cfg.n_expert_used,
            num_heads: cfg.num_heads,
            num_kv_heads: cfg.num_kv_heads,
            head_dim: cfg.head_dim,
            rope_theta: cfg.rope_theta,
            eps: cfg.rms_norm_eps,
        }
    }

    /// The heads of an attention layer.
    #[verifier::allow_in_spec]
    pub fn head_shape(&self) -> HeadShape
        returns
            (HeadShape {
                heads: self.num_heads,
                kv_heads: self.num_kv_heads,
                head_dim: self.head_dim,
            }),
    {
        HeadShape {
            heads: self.num_heads,
            kv_heads: self.num_kv_heads,
            head_dim: self.head_dim,
        }
    }

    fn missing_part(&self) -> (r: Option<&'static str>)
        ensures
            r == (if self.shortconv_in_proj is Some {
                shortconv_missing(self)
            } else {
                attention_missing(self)
            }),
    {
        if self.shortconv_in_proj.is_some() {
            if self.shortconv_conv.is_none() {
                Some("shortconv_conv")
            } else if self.shortconv_conv_vec.is_none() {
                Some("shortconv_conv_vec")
            } else if self.shortconv_out_proj.is_none() {
                Some("shortconv_out_proj")
            } else {
                None
            }
        } else if self.wq.is_none() {
            Some("wq")
        } else if self.wk.is_none() {
            Some("wk")
        } else if self.wv.is_none() {
            Some("wv")
        } else if self.wo.is_none() {
            Some("wo")
        } else if self.attn_q_norm.is_none() {
            Some("attn_q_norm")
        } else if self.attn_k_norm.is_none() {
            Some("attn_k_norm")
        } else {
            None
        }
    }

    /// Checks that the layer has every part that its variant reads.
    pub fn validate(&self, idx: usize) -> (result: Result<(), Error>)
        ensures
            result is Ok <==> coherent(self),
            result matches Err(e) ==> {
                ||| half_fused(self) && e == (Error::HalfFusedPack { layer: idx })
                ||| !half_fused(self) && first_missing(self) is Some && e == (Error::MissingField {
                    layer: idx,
                    field: first_missing(self)->0,
                })
            },
    {
        if let Some(field) = self.missing_part() {
            return Err(Error::MissingField { layer: idx, field });
        }
        if self.shortconv_in_proj.is_none() && self.wqkv_codes.is_some()
            != self.wqkv_exps.is_some() {
            return Err(Error::HalfFusedPack { layer: idx });
        }
        if self.is_moe && self.ffn_gate_inp.is_none() {
            return Err(Error::MissingField { layer: idx, field: "ffn_gate_inp" });
        }
        Ok(())
    }
}

/// A layer put together by `load` is coherent exactly where its convolution
/// kernel, if it has one, could be read on the host.
pub proof fn law_loaded_block_is_coherent(cfg: &Lfm2Config, layer: int, found: &Lfm2Loaded)
    ensures
        coherent(&loaded_block(cfg, layer, found)) <==> (cfg.recurrent(layer)
            ==> found.conv_values is Some),
{
}

/// A coherent layer is of one kind: it has all the parts of the short
/// convolution, or all the parts of attention.
pub proof fn law_coherent_block_has_a_mixer(block: &Lfm2Block)
    requires
        coherent(block),
    ensures
        block.shortconv_in_proj is Some ==> block.shortconv_conv is Some
            && block.shortconv_conv_vec is Some && block.shortconv_out_proj is Some,
        block.shortconv_in_proj is None ==> block.wq is Some && block.wk is Some
            && block.wv is Some && block.wo is Some && block.attn_q_norm is Some
            && block.attn_k_norm is Some,
        block.is_moe ==> block.ffn_gate_inp is Some,
{
}

/// Query, key and value weights one after the other, as fused kernels read
/// them.
pub open spec fn fused_blob<T>(q: Seq<T>, k: Seq<T>, v: Seq<T>) -> Seq<T> {
    q + k + v
}

/// Joins query, key and value weights.
pub fn fuse_qkv_weights<T: Copy>(q: &[T], k: &[T], v: &[T]) -> (fused: Vec<T>)
    requires
        q@.len() + k@.len() + v@.len() <= usize::MAX,
    ensures
        fused@ == fused_blob(q@, k@, v@),
{
    let mut fused = copy_range(q, 0, q.len());
    append_all(&mut fused, k);
    append_all(&mut fused, v);
    assert(fused@ =~= fused_blob(q@, k@, v@));
    fused
}

/// The joined weights hold every row of each part, in their order, and nothing
/// else.
pub proof fn law_fused_blob_layout<T>(
    q: Seq<T>,
    k: Seq<T>,
    v: Seq<T>,
    n_q: nat,
    n_k: nat,
    n_v: nat,
    row: nat,
)
    requires
        q.len() == n_q * row,
        k.len() == n_k * row,
        v.len() == n_v * row,
    ensures
        ({
            let fused = fused_blob(q, k, v);
            &&& fused.len() == (n_q + n_k + n_v) * row
            &&& fused.take(q.len() as int) == q
            &&& fused.subrange(q.len() as int, (q.len() + k.len()) as int) == k
            &&& fused.skip((q.len() + k.len()) as int) == v
        }),
{
    let fused = fused_blob(q, k, v);
    assert((n_q + n_k + n_v) * row == n_q * row + n_k * row + n_v * row) by (nonlinear_arith);
    assert(fused.take(q.len() as int) =~= q);
    assert(fused.subrange(q.len() as int, (q.len() + k.len()) as int) =~= k);
    assert(fused.skip((q.len() + k.len()) as int) =~= v);
}

/// The shapes of a fused MXFP4 pack.
#[derive(Debug, Clone, Copy, PartialEq, Eq, Structural)]
pub struct FusedPackShapes {
    /// Rows and columns of the packed codes.
    pub rows: usize,
    pub cols: usize,
    /// Scales, one per block of 32 codes.
    pub blocks: usize,
    /// Width of the per-head norms.
    pub gamma: usize,
}

/// The shapes of the fused MXFP4 pack of a layer.
pub fn build_fused_qkv_pack(cfg: &Lfm2Config) -> (shapes: FusedPackShapes)
    requires
        cfg.dims_fit(),
        pack_fits(cfg),
    ensures
        shapes.rows == fused_rows(cfg),
        shapes.cols == cfg.hidden_size,
        shapes.blocks == fused_rows(cfg) * cfg.hidden_size / 32,
        shapes.gamma == cfg.head_dim,
{
    let n_q: usize = cfg.num_heads * cfg.head_dim;
    let n_k: usize = cfg.num_kv_heads * cfg.head_dim;
    let rows: usize = n_q + 2 * n_k;
    FusedPackShapes {
        rows,
        cols: cfg.hidden_size,
        blocks: rows * cfg.hidden_size / 32,
        gamma: cfg.head_dim,
    }
}

/// A stretch of bytes of a buffer.
#[derive(Debug, Clone, Copy, PartialEq, Eq, Structural)]
pub struct ByteView {
    pub offset: usize,
    pub len: usize,
}

/// The buffers of one fused Q8_0 projection of a single token.
#[derive(Debug, Clone, Copy, PartialEq, Eq, Structural)]
pub struct FusedDot4Layout {
    /// Bytes of the quantised input: 36 for each block of 32 values.
    pub activation_bytes: usize,
    /// Where the queries, keys and values lie in the output.
    pub q: ByteView,
    pub k: ByteView,
    pub v: ByteView,
}

/// Lays out one fused Q8_0 projection.
pub fn fused_qkv_dot4_decode(hidden: usize, fused: FusedQkvInfo) -> (layout: FusedDot4Layout)
    requires
        hidden / 32 * 36 <= usize::MAX,
        (fused.n_q + 2 * fused.n_k) * 4 <= usize::MAX,
    ensures
        layout.activation_bytes == hidden / 32 * 36,
        layout.q == (ByteView { offset: 0, len: (fused.n_q * 4) as usize }),
        layout.k == (ByteView {
            offset: (fused.n_q * 4) as usize,
            len: (fused.n_k * 4) as usize,
        }),
        layout.v == (ByteView {
            offset: (fused.n_q * 4 + fused.n_k * 4) as usize,
            len: (fused.n_k * 4) as usize,
        }),
        layout.v.offset + layout.v.len == (fused.n_q + 2 * fused.n_k) * 4,
{
    let q: usize = fused.n_q * 4;
    let k: usize = fused.n_k * 4;
    FusedDot4Layout {
        activation_bytes: hidden / 32 * 36,
        q: ByteView { offset: 0, len: q },
        k: ByteView { offset: q, len: k },
        v: ByteView { offset: q + k, len: k },
    }
}

/// A model: its settings, its layers and its head.
pub struct Lfm2 {
    pub cfg: Lfm2Config,
    pub device: Device,
    pub layers: Vec<Lfm2Block>,
    /// The output projection, tied to the token embedding.
    pub output: LinearInfo,
    pub output_q80: bool,
    pub dense_2_out: Option<LinearInfo>,
    pub dense_2_out_bias: bool,
}

/// The weights of a whole model.
pub struct Lfm2Plan {
    pub tok_embeddings: LoadStep,
    pub layers: Vec<Vec<LoadStep>>,
    pub norm: LoadStep,
    /// The output projection in front of the head, and its bias.
    pub dense_2_out: Option<(LoadStep, LoadStep)>,
}

/// What loading a model's weights found.
pub struct Lfm2Found {
    /// Devices that the weights are spread over.
    pub world_size: usize,
    /// Where the token embedding lives.
    pub device: Device,
    pub layers: Vec<Lfm2Loaded>,
    pub output_q80: bool,
    pub dense_2_out_bias: bool,
}

/// Why an LFM2 stack is not sharded.
pub open spec fn lfm2_single_device() -> Error {
    Error::SingleDevice {
        model: "Lfm2",
        reason:
            "mixed attention/recurrent blocks need per-block-type sharding and a forward rework to add the all-reduce hook",
    }
}

/// Every layer is coherent.
pub open spec fn all_coherent(cfg: &Lfm2Config, found: Seq<Lfm2Loaded>, n: int) -> bool {
    forall|i: int| 0 <= i < n ==> coherent(&loaded_block(cfg, i, &#[trigger] found[i]))
}

/// The weights that were found can be put together over `world_size` devices
/// within machine limits, as far as loading gets to it.
pub open spec fn load_fits(cfg: &Lfm2Config, found: &Lfm2Found, world_size: usize) -> bool {
    world_size <= 1 && cfg.is_recr@.len() == cfg.num_layers ==> {
        &&& cfg.dims_fit()
        &&& found.layers@.len() == cfg.num_layers
        &&& forall|i: int|
            0 <= i < cfg.num_layers && packs_mxfp4(cfg, i, (#[trigger] found.layers@[i]).device)
                ==> pack_fits(cfg)
    }
}

/// How loading a model over `world_size` devices ends. Sharding is refused,
/// then recurrence flags that do not match the layers, then the first layer
/// that lacks a part.
pub open spec fn load_ended(
    cfg: Lfm2Config,
    found: Lfm2Found,
    world_size: usize,
    result: Result<Lfm2, Error>,
) -> bool {
    &&& result is Ok <==> world_size <= 1 && cfg.is_recr@.len() == cfg.num_layers && all_coherent(
        &cfg,
        found.layers@,
        cfg.num_layers as int,
    )
    &&& result matches Ok(model) ==> {
        &&& model.cfg == cfg
        &&& model.device == found.device
        &&& model.layers@ == Seq::new(
            cfg.num_layers as nat,
            |i: int| loaded_block(&cfg, i, &found.layers@[i]),
        )
        &&& model.output == (LinearInfo { inputs: cfg.hidden_size, outputs: cfg.vocab_size })
        &&& model.output_q80 == found.output_q80
        &&& model.dense_2_out == (if cfg.n_embd_out > 0 {
            Some(LinearInfo { inputs: cfg.hidden_size, outputs: cfg.n_embd_out })
        } else {
            None
        })
        &&& model.dense_2_out_bias == (cfg.n_embd_out > 0 && found.dense_2_out_bias)
    }
    &&& result matches Err(e) ==> {
        if world_size > 1 {
            e == lfm2_single_device()
        } else if cfg.is_recr@.len() != cfg.num_layers {
            e == (Error::RecurrenceFlags {
                flags: cfg.is_recr@.len() as usize,
                layers: cfg.num_layers,
            })
        } else {
            exists|i: int|
                0 <= i < cfg.num_layers && all_coherent(&cfg, found.layers@, i)
                    && #[trigger] cfg.recurrent(i) && found.layers@[i].conv_values is None && e
                    == (Error::MissingField { layer: i as usize, field: "shortconv_conv_vec" })
        }
    }
}

impl Lfm2 {
    /// The weights that the model asks for.
    pub fn weight_plan(cfg: &Lfm2Config) -> (plan: Lfm2Plan)
        requires
            cfg.dims_fit(),
        ensures
            plan.tok_embeddings == required(
                plain("", "token_embd"),
                Weight::Embedding { rows: cfg.vocab_size, dim: cfg.hidden_size },
            ),
            plan.layers@.len() == cfg.num_layers,
            forall|i: int|
                0 <= i < cfg.num_layers ==> (#[trigger] plan.layers@[i])@ == lfm2_layer_plan(
                    cfg,
                    i as usize,
                ),
            plan.norm == either(
                plain("", "token_embd_norm"),
                Weight::RmsNorm { dim: cfg.hidden_size },
                plain("", "output_norm"),
                Weight::RmsNorm { dim: cfg.hidden_size },
            ),
            plan.dense_2_out == (if cfg.n_embd_out > 0 {
                Some(
                    (
                        required(
                            plain("", "dense_2_out"),
                            Weight::Linear {
                                inputs: cfg.hidden_size,
                                outputs: cfg.n_embd_out,
                                bias: true,
                            },
                        ),
                        optional(
                            plain("", "dense_2_out.bias"),
                            Weight::Tensor1 { d0: cfg.n_embd_out },
                            Fallback::Skip,
                        ),
                    ),
                )
            } else {
                None
            }),
    {
        let mut layers: Vec<Vec<LoadStep>> = Vec::new();
        let mut i: usize = 0;
        while i < cfg.num_layers
            invariant
                i <= cfg.num_layers,
                cfg.dims_fit(),
                layers@.len() == i,
                forall|j: int|
                    0 <= j < i ==> (#[trigger] layers@[j])@ == lfm2_layer_plan(cfg, j as usize),
            decreases cfg.num_layers - i,
        {
            layers.push(Lfm2Block::weight_plan(cfg, i));
            i = i + 1;
        }
        let norm = Weight::RmsNorm { dim: cfg.hidden_size };
        Lfm2Plan {
            tok_embeddings: required(
                plain("", "token_embd"),
                Weight::Embedding { rows: cfg.vocab_size, dim: cfg.hidden_size },
            ),
            layers,
            norm: either(plain("", "token_embd_norm"), norm, plain("", "output_norm"), norm),
            dense_2_out: if cfg.n_embd_out > 0 {
                Some(
                    (
                        required(
                            plain("", "dense_2_out"),
                            Weight::Linear {
                                inputs: cfg.hidden_size,
                                outputs: cfg.n_embd_out,
                                bias: true,
                            },
                        ),
                        optional(
                            plain("", "dense_2_out.bias"),
                            Weight::Tensor1 { d0: cfg.n_embd_out },
                            Fallback::Skip,
                        ),
                    ),
                )
            } else {
                None
            },
        }
    }

    /// Puts a model together from the weights that were found, over the devices
    /// that they are spread over.
    pub fn load(cfg: Lfm2Config, found: Lfm2Found) -> (result: Result<Lfm2, Error>)
        requires
            load_fits(&cfg, &found, found.world_size),
        ensures
            load_ended(cfg, found, found.world_size, result),
    {
        let world_size: usize = found.world_size;
        Lfm2::load_tp(cfg, found, world_size)
    }

    /// Puts a model together from the weights that were found, over
    /// `world_size` devices.
    pub fn load_tp(cfg: Lfm2Config, found: Lfm2Found, world_size: usize) -> (result: Result<
        Lfm2,
        Error,
    >)
        requires
            load_fits(&cfg, &found, world_size),
        ensures
            load_ended(cfg, found, world_size, result),
    {
        if world_size > 1 {
            return Err(
                Error::SingleDevice {
                    model: "Lfm2",
                    reason:
                        "mixed attention/recurrent blocks need per-block-type sharding and a forward rework to add the all-reduce hook",
                },
            );
        }
        if cfg.is_recr.len() != cfg.num_layers {
            return Err(
                Error::RecurrenceFlags { flags: cfg.is_recr.len(), layers: cfg.num_layers },
            );
        }
        let mut layers: Vec<Lfm2Block> = Vec::new();
        let mut i: usize = 0;
        while i < cfg.num_layers
            invariant
                i <= cfg.num_layers,
                cfg.dims_fit(),
                forall|i: int|
                    0 <= i < cfg.num_layers && packs_mxfp4(
                        &cfg,
                        i,
                        (#[trigger] found.layers@[i]).device,
                    ) ==> pack_fits(&cfg),
                world_size <= 1,
                cfg.is_recr@.len() == cfg.num_layers,
                found.layers@.len() == cfg.num_layers,
                layers@ == Seq::new(
                    i as nat,
                    |j: int| loaded_block(&cfg, j, &found.layers@[j]),
                ),
                all_coherent(&cfg, found.layers@, i as int),
            decreases cfg.num_layers - i,
        {
            let block = Lfm2Block::load(&cfg, i, &found.layers[i]);
            match block.validate(i) {
                Ok(_) => {},
                Err(e) => {
                    proof {
                        law_loaded_block_is_coherent(&cfg, i as int, &found.layers@[i as int]);
                        assert(!coherent(&loaded_block(&cfg, i as int, &found.layers@[i as int])));
                        assert(cfg.recurrent(i as int));
                    }
                    return Err(e);
                },
            }
            layers.push(block);
            i = i + 1;
        }
        let output = LinearInfo { inputs: cfg.hidden_size, outputs: cfg.vocab_size };
        let dense_2_out: Option<LinearInfo> = if cfg.n_embd_out > 0 {
            Some(LinearInfo { inputs: cfg.hidden_size, outputs: cfg.n_embd_out })
        } else {
            None
        };
        let dense_2_out_bias: bool = cfg.n_embd_out > 0 && found.dense_2_out_bias;
        Ok(
            Lfm2 {
                cfg,
                device: found.device,
                layers,
                output,
                output_q80: found.output_q80,
                dense_2_out,
                dense_2_out_bias,
            },
        )
    }

    /// The caches of a fresh session: one per layer, none made yet.
    pub fn new_caches<T>(&self) -> (caches: Vec<Option<Lfm2LayerCache<T>>>)
        ensures
            caches@ == Seq::new(self.layers@.len(), |i: int| None::<Lfm2LayerCache<T>>),
    {
        let n: usize = self.layers.len();
        let mut caches: Vec<Option<Lfm2LayerCache<T>>> = Vec::new();
        let mut i: usize = 0;
        while i < n
            invariant
                i <= n,
                n == self.layers@.len(),
                caches@ == Seq::new(i as nat, |i: int| None::<Lfm2LayerCache<T>>),
            decreases n - i,
        {
            caches.push(None);
            i = i + 1;
        }
        caches
    }

    /// The stages of a forward pass over `seq_len` tokens.
    pub fn forward(&self, seq_len: usize) -> (stages: Vec<Lfm2Stage>)
        ensures
            stages@ == lfm2_stages(self, seq_len),
    {
        let n: usize = self.layers.len();
        let mut stages: Vec<Lfm2Stage> = Vec::new();
        stages.push(Lfm2Stage::Embed);
        let mut i: usize = 0;
        while i < n
            invariant
                i <= n,
                n == self.layers@.len(),
                stages@ == seq![Lfm2Stage::Embed] + Seq::new(
                    i as nat,
                    |i: int| Lfm2Stage::Layer(i as usize),
                ),
            decreases n - i,
        {
            stages.push(Lfm2Stage::Layer(i));
            i = i + 1;
            assert(stages@ =~= seq![Lfm2Stage::Embed] + Seq::new(
                i as nat,
                |i: int| Lfm2Stage::Layer(i as usize),
            ));
        }
        stages.push(Lfm2Stage::Norm);
        if self.dense_2_out.is_some() {
            stages.push(Lfm2Stage::DenseOut { bias: self.dense_2_out_bias });
        }
        stages.push(Lfm2Stage::Head);
        stages.push(Lfm2Stage::AdvancePosition(seq_len));
        assert(stages@ =~= lfm2_stages(self, seq_len));
        stages
    }
}

/// A stage of a forward pass.
#[derive(Debug, Clone, Copy, PartialEq, Eq, Structural)]
pub enum Lfm2Stage {
    /// Look the tokens up.
    Embed,
    /// Run one layer with its own cache.
    Layer(usize),
    /// Normalise.
    Norm,
    /// Project in front of the head, with a bias where there is one.
    DenseOut { bias: bool },
    /// Project to the vocabulary.
    Head,
    /// Move the session's position on by the tokens of the pass.
    AdvancePosition(usize),
}

/// The stages of a forward pass.
pub open spec fn lfm2_stages(model: &Lfm2, seq_len: usize) -> Seq<Lfm2Stage> {
    let dense = if model.dense_2_out is Some {
        seq![Lfm2Stage::DenseOut { bias: model.dense_2_out_bias }]
    } else {
        Seq::empty()
    };
    seq![Lfm2Stage::Embed] + Seq::new(
        model.layers@.len(),
        |i: int| Lfm2Stage::Layer(i as usize),
    ) + seq![Lfm2Stage::Norm] + dense + seq![
        Lfm2Stage::Head,
        Lfm2Stage::AdvancePosition(seq_len),
    ]
}

} // verus!
