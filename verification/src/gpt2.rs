//! GPT-2: layer norms, a position table, and one projection for queries, keys
//! and values.

use crate::block_program::{Activation, AttentionDesign, BlockDesign, BlockOp, Ffn, FfnInput};
use crate::block_run::serves_applied;
use crate::cached_attention::run_causal_block;
use crate::error::Error;
use crate::kernels::layer_norm_row;
use crate::kv_attention::RefKvCache;
use crate::modality::ModalityHint;
use crate::numeric::Real;
use crate::rows::{append_all, copy_range, lemma_flat_index, lemma_row_bounds};
use crate::scalar::{Number, Relation, ScalarOp, Scalars};
use crate::stages::{PassDesign, Stage};
use crate::weights::{in_layer, plain, required, LoadStep, ModelPlan, Weight, WeightPath};
use vstd::prelude::*;

verus! {

/// The settings of a GPT-2 model.
#[derive(Debug, Clone, Copy)]
pub struct Gpt2Config {
    pub vocab_size: usize,
    pub hidden_size: usize,
    pub num_heads: usize,
    pub num_layers: usize,
    pub intermediate_size: usize,
    pub layer_norm_epsilon: Real,
    pub max_seq_len: usize,
}

impl Gpt2Config {
    /// The family's name.
    pub fn name(&self) -> (name: &'static str)
        ensures
            name@ == "gpt2"@,
    {
        "gpt2"
    }

    /// Text in, text out.
    pub fn modality(&self) -> (m: ModalityHint)
        ensures
            m == ModalityHint::TextInTextOut,
    {
        ModalityHint::TextInTextOut
    }

    /// Every width that the weights have fits.
    pub open spec fn fits(&self) -> bool {
        &&& 3 * self.hidden_size <= usize::MAX
        &&& 0 < self.num_heads
    }
}

/// A norm that subtracts the mean of a row.
#[derive(Debug, Clone, Copy)]
pub struct LayerNorm {
    pub dim: usize,
    pub eps: Real,
}

impl LayerNorm {
    /// The weights of a norm: a scale that has to be there and a shift that
    /// may be.
    pub fn load(path: WeightPath, dim: usize) -> (step: LoadStep)
        ensures
            step == required(path, Weight::LayerNorm { dim }),
    {
        required(path, Weight::LayerNorm { dim })
    }

    /// The width of a row: the last dimension, or one without dimensions.
    pub open spec fn row_width(dims: Seq<usize>) -> usize {
        if dims.len() > 0 {
            dims.last()
        } else {
            1
        }
    }

    /// Normalises every row: its mean is taken away, it is divided by the root
    /// of its variance, scaled and, where there is a shift, shifted.
    pub fn forward<
        T: Copy,
        F: Fn(ScalarOp, T, T) -> T,
        C: Fn(Number) -> T,
        Z: Fn(Relation, T, T) -> bool,
    >(
        &self,
        x: &Scalars<T, F, C, Z>,
        rows: &[T],
        dims: &[usize],
        weight: &[T],
        bias: Option<&[T]>,
    ) -> (out: Vec<T>)
        requires
            x.wf(),
            Self::row_width(dims@) > 0,
            rows@.len() % Self::row_width(dims@) as nat == 0,
            weight@.len() >= Self::row_width(dims@),
            bias matches Some(b) ==> b@.len() >= Self::row_width(dims@),
        ensures
            out@.len() == rows@.len(),
            forall|r: int|
                0 <= r < rows@.len() / Self::row_width(dims@) as nat ==> #[trigger] row_at(
                    out@,
                    Self::row_width(dims@) as int,
                    r,
                ) == x.layer_normed(
                    row_at(rows@, Self::row_width(dims@) as int, r),
                    weight@,
                    match bias {
                        Some(b) => Some(b@),
                        None => None,
                    },
                    x.constant(self.eps.bits),
                ),
            out@ == x.layer_normed_rows(
                rows@,
                Self::row_width(dims@) as nat,
                weight@,
                match bias {
                    Some(b) => Some(b@),
                    None => None,
                },
                x.constant(self.eps.bits),
            ),
    {
        let width: usize = if dims.len() > 0 {
            dims[dims.len() - 1]
        } else {
            1
        };
        let n: usize = rows.len();
        let count: usize = n / width;
        proof {
            vstd::arithmetic::div_mod::lemma_fundamental_div_mod(n as int, width as int);
            assert(width * (n as int / width as int) == count * width) by (nonlinear_arith)
                requires
                    count == n as int / width as int,
            ;
            assert(0 * width == 0);
        }
        let ghost shift = match bias {
            Some(b) => Some(b@),
            None => None,
        };
        let eps = x.constant(self.eps.bits);
        let mut out: Vec<T> = Vec::new();
        for i in 0..count
            invariant
                x.wf(),
                n == rows@.len(),
                n == count * width,
                width > 0,
                weight@.len() >= width,
                bias matches Some(b) ==> b@.len() >= width,
                shift == (match bias {
                    Some(b) => Some(b@),
                    None => None,
                }),
                out@.len() == i * width,
                forall|r: int|
                    0 <= r < i ==> #[trigger] row_at(out@, width as int, r) == x.layer_normed(
                        row_at(rows@, width as int, r),
                        weight@,
                        shift,
                        eps,
                    ),
        {
            proof {
                lemma_row_bounds(i as int, count as int, width as int);
                assert((i + 1) * width == i * width + width) by (nonlinear_arith);
            }
            let row = copy_range(rows, i * width, width);
            assert(row@ =~= row_at(rows@, width as int, i as int));
            let normed = layer_norm_row(x, row.as_slice(), weight, bias, eps);
            let ghost before = out@;
            append_all(&mut out, normed.as_slice());
            proof {
                assert forall|r: int| 0 <= r < i + 1 implies #[trigger] row_at(out@, width as int, r)
                    == x.layer_normed(row_at(rows@, width as int, r), weight@, shift, eps) by {
                    if r < i {
                        lemma_row_bounds(r, i as int, width as int);
                        assert(row_at(out@, width as int, r) =~= row_at(before, width as int, r));
                    } else {
                        assert(row_at(out@, width as int, r) =~= normed@);
                    }
                }
            }
        }
        proof {
            let want = x.layer_normed_rows(rows@, width as nat, weight@, shift, eps);
            assert forall|p: int| 0 <= p < out@.len() implies out@[p] == want[p] by {
                lemma_flat_index(p, count as int, width as int);
                let (r, j) = (p / width as int, p % width as int);
                lemma_row_bounds(r, count as int, width as int);
                assert(row_at(out@, width as int, r)[j] == out@[r * width + j]);
            }
            assert(out@ =~= want);
        }
        out
    }
}

impl<T: Copy, F: Fn(ScalarOp, T, T) -> T, C: Fn(Number) -> T, Z: Fn(Relation, T, T) -> bool> Scalars<T, F, C, Z> {
    /// Every row of `width`, normalised.
    pub open spec fn layer_normed_rows(
        &self,
        rows: Seq<T>,
        width: nat,
        weight: Seq<T>,
        bias: Option<Seq<T>>,
        eps: T,
    ) -> Seq<T> {
        Seq::new(
            rows.len(),
            |p: int|
                self.layer_normed(
                    row_at(rows, width as int, p / width as int),
                    weight,
                    bias,
                    eps,
                )[p % width as int],
        )
    }
}

/// Row `r` of rows of `width`.
pub open spec fn row_at<T>(data: Seq<T>, width: int, r: int) -> Seq<T> {
    data.subrange(r * width, r * width + width)
}

/// The weights of a layer.
pub open spec fn gpt2_layer_plan(cfg: &Gpt2Config, layer: usize) -> Seq<LoadStep> {
    let three = (3 * cfg.hidden_size) as usize;
    let hidden = cfg.hidden_size;
    let inter = cfg.intermediate_size;
    seq![
        required(in_layer("h", layer, "", "ln_1"), Weight::LayerNorm { dim: hidden }),
        required(
            in_layer("h", layer, "", "attn.wqkv"),
            Weight::Linear { inputs: hidden, outputs: three, bias: true },
        ),
        required(
            in_layer("h", layer, "", "attn.c_proj"),
            Weight::Linear { inputs: hidden, outputs: hidden, bias: true },
        ),
        required(in_layer("h", layer, "", "ln_2"), Weight::LayerNorm { dim: hidden }),
        required(
            in_layer("h", layer, "", "mlp.c_fc"),
            Weight::Linear { inputs: hidden, outputs: inter, bias: true },
        ),
        required(
            in_layer("h", layer, "", "mlp.c_proj"),
            Weight::Linear { inputs: inter, outputs: hidden, bias: true },
        ),
    ]
}

/// A block of a model.
#[derive(Debug, Clone, Copy)]
pub struct Gpt2Block {
    pub design: BlockDesign,
}

/// The parts of a block.
pub open spec fn gpt2_design(cfg: &Gpt2Config) -> BlockDesign {
    BlockDesign {
        hidden: cfg.hidden_size,
        inter: cfg.intermediate_size,
        attention: AttentionDesign {
            heads: cfg.num_heads,
            kv_heads: cfg.num_heads,
            head_dim: cfg.hidden_size / cfg.num_heads,
            cached: true,
            window: None,
            softcap: None,
        },
        layer_norm: true,
        fused_qkv: true,
        qk_norm: false,
        rope_theta: None,
        rotary_dim: cfg.hidden_size / cfg.num_heads,
        rope_sections: None,
        post_attn_norm: false,
        ffn_input: FfnInput::NormedResidual,
        ffn: Ffn::Plain(Activation::GeluFactored),
        post_ffn_norm: false,
        residual_scale: None,
    }
}

impl Gpt2Block {
    /// A block of a configuration.
    pub fn new(cfg: &Gpt2Config) -> (block: Gpt2Block)
        requires
            cfg.fits(),
        ensures
            block.design == gpt2_design(cfg),
    {
        Gpt2Block {
            design: BlockDesign {
                hidden: cfg.hidden_size,
                inter: cfg.intermediate_size,
                attention: AttentionDesign {
                    heads: cfg.num_heads,
                    kv_heads: cfg.num_heads,
                    head_dim: cfg.hidden_size / cfg.num_heads,
                    cached: true,
                    window: None,
                    softcap: None,
                },
                layer_norm: true,
                fused_qkv: true,
                qk_norm: false,
                rope_theta: None,
                rotary_dim: cfg.hidden_size / cfg.num_heads,
                rope_sections: None,
                post_attn_norm: false,
                ffn_input: FfnInput::NormedResidual,
                ffn: Ffn::Plain(Activation::GeluFactored),
                post_ffn_norm: false,
                residual_scale: None,
            },
        }
    }

    /// The weights of a layer.
    pub fn load(cfg: &Gpt2Config, layer: usize) -> (plan: Vec<LoadStep>)
        requires
            cfg.fits(),
        ensures
            plan@ == gpt2_layer_plan(cfg, layer),
    {
        let three: usize = 3 * cfg.hidden_size;
        let hidden: usize = cfg.hidden_size;
        let inter: usize = cfg.intermediate_size;
        vec![
            required(in_layer("h", layer, "", "ln_1"), Weight::LayerNorm { dim: hidden }),
            required(
                in_layer("h", layer, "", "attn.wqkv"),
                Weight::Linear { inputs: hidden, outputs: three, bias: true },
            ),
            required(
                in_layer("h", layer, "", "attn.c_proj"),
                Weight::Linear { inputs: hidden, outputs: hidden, bias: true },
            ),
            required(in_layer("h", layer, "", "ln_2"), Weight::LayerNorm { dim: hidden }),
            required(
                in_layer("h", layer, "", "mlp.c_fc"),
                Weight::Linear { inputs: hidden, outputs: inter, bias: true },
            ),
            required(
                in_layer("h", layer, "", "mlp.c_proj"),
                Weight::Linear { inputs: inter, outputs: hidden, bias: true },
            ),
        ]
    }

    /// The operations of a block.
    pub fn forward(&self) -> (ops: Vec<BlockOp>)
        requires
            self.design.fits(),
        ensures
            ops@ == self.design.ops(),
    {
        self.design.program()
    }

    /// Runs the block on the rows of a call. Its keys and values join the
    /// block's history, and its queries attend over all of it.
    ///
    /// `apply` runs projections and norms.
    pub fn forward_cached<
        T: Copy,
        F: Fn(ScalarOp, T, T) -> T,
        C: Fn(Number) -> T,
        Z: Fn(Relation, T, T) -> bool,
        G: Fn(BlockOp, Vec<T>) -> Vec<T>,
    >(
        &self,
        x: &Scalars<T, F, C, Z>,
        input: Vec<T>,
        tokens: usize,
        cache: &mut RefKvCache<T>,
        apply: G,
    ) -> (out: Vec<T>)
        requires
            x.wf(),
            self.design.fits(),
            self.design.attention.cached,
            self.design.attention.window is None,
            0 < self.design.attention.kv_heads,
            self.design.attention.heads * self.design.attention.kv_heads <= usize::MAX,
            input@.len() == tokens * self.design.hidden,
            old(cache).wf(self.design.kv_dim() as nat),
            old(cache).past_len + tokens <= usize::MAX,
            (old(cache).past_len + tokens) * self.design.attention.head_dim <= usize::MAX,
            serves_applied(apply, &self.design, tokens as nat),
        ensures
            out@.len() == tokens * self.design.hidden,
            x.block_done(
                apply,
                x.attends_causally(tokens as nat, old(cache).past_len as nat),
                &self.design,
                tokens as nat,
                input@,
                old(cache).k@,
                old(cache).v@,
                out@,
                final(cache).k@,
                final(cache).v@,
            ),
            final(cache).wf(self.design.kv_dim() as nat),
            final(cache).past_len == old(cache).past_len + tokens,
            old(cache).k@ == final(cache).k@.take(old(cache).k@.len() as int),
            old(cache).v@ == final(cache).v@.take(old(cache).v@.len() as int),
    {
        run_causal_block(x, &self.design, input, tokens, cache, apply)
    }
}

/// A model.
#[derive(Debug, Clone, Copy)]
pub struct Gpt2 {
    pub cfg: Gpt2Config,
}

/// The plan names every weight of a model.
pub open spec fn gpt2_planned(cfg: &Gpt2Config, plan: &ModelPlan) -> bool {
    &&& plan.positions == Some(
        required(
            plain("", "wpe"),
            Weight::Embedding { rows: cfg.max_seq_len, dim: cfg.hidden_size },
        ),
    )
    &&& plan.tok_embeddings == required(
        plain("", "wte"),
        Weight::Embedding { rows: cfg.vocab_size, dim: cfg.hidden_size },
    )
    &&& plan.layers@.len() == cfg.num_layers
    &&& forall|i: int|
        0 <= i < cfg.num_layers ==> (#[trigger] plan.layers@[i])@ == gpt2_layer_plan(cfg, i as usize)
    &&& plan.norm == required(plain("", "ln_f"), Weight::LayerNorm { dim: cfg.hidden_size })
    &&& plan.output == Some(
        required(
            plain("", "lm_head"),
            Weight::Linear { inputs: cfg.hidden_size, outputs: cfg.vocab_size, bias: false },
        ),
    )
}

impl Gpt2 {
    /// The weights that a model asks for on one device.
    pub fn load(cfg: &Gpt2Config) -> (plan: ModelPlan)
        requires
            cfg.fits(),
        ensures
            gpt2_planned(cfg, &plan),
    {
        let mut layers: Vec<Vec<LoadStep>> = Vec::new();
        let mut i: usize = 0;
        while i < cfg.num_layers
            invariant
                i <= cfg.num_layers,
                cfg.fits(),
                layers@.len() == i,
                forall|j: int|
                    0 <= j < i ==> (#[trigger] layers@[j])@ == gpt2_layer_plan(cfg, j as usize),
            decreases cfg.num_layers - i,
        {
            layers.push(Gpt2Block::load(cfg, i));
            i = i + 1;
        }
        ModelPlan {
            tok_embeddings: required(
        plain("", "wte"),
        Weight::Embedding { rows: cfg.vocab_size, dim: cfg.hidden_size },
    ),
            positions: Some(
                required(
                    plain("", "wpe"),
                    Weight::Embedding { rows: cfg.max_seq_len, dim: cfg.hidden_size },
                ),
            ),
            layers,
            norm: required(plain("", "ln_f"), Weight::LayerNorm { dim: cfg.hidden_size }),
            output: Some(
        required(
            plain("", "lm_head"),
            Weight::Linear { inputs: cfg.hidden_size, outputs: cfg.vocab_size, bias: false },
        ),
    ),
        }
    }

    /// The weights that a model asks for; several devices are refused.
    pub fn load_tp(cfg: &Gpt2Config, world_size: usize) -> (result: Result<ModelPlan, Error>)
        requires
            cfg.fits(),
        ensures
            world_size > 1 ==> result == Err::<ModelPlan, Error>(Error::SingleDevice {
                    model: "GPT-2",
                    reason: "fused QKV projection needs head-axis reshape before column-parallel sharding",
                }),
            world_size <= 1 ==> (result matches Ok(plan) && gpt2_planned(cfg, &plan)),
    {
        if world_size > 1 {
            return Err(
                Error::SingleDevice {
                    model: "GPT-2",
                    reason: "fused QKV projection needs head-axis reshape before column-parallel sharding",
                },
            );
        }
        Ok(Self::load(cfg))
    }

    /// The stages of a pass over `tokens` tokens.
    pub fn forward(&self, tokens: usize) -> (stages: Vec<Stage>)
        ensures
            stages@ == (PassDesign {
                layers: self.cfg.num_layers,
                positions: true,
                sqrt_scale: None,
                keeps_hidden: false,
                softcap: None,
                advances: true
            }).stages(tokens),
    {
        let design = PassDesign {
            layers: self.cfg.num_layers,
            positions: true,
            sqrt_scale: None,
            keeps_hidden: false,
            softcap: None,
            advances: true
        };
        design.pass(tokens)
    }
}

} // verus!
