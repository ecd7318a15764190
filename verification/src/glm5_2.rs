//! GLM-5.2: one projection for queries, keys and values, and a mixture of
//! experts of two projections each.

use crate::block_program::{
    plain_ops, plain_program, Activation, AttentionDesign, BlockDesign, BlockOp, Ffn, FfnInput, Reg,
};
use crate::json::{
    number, number_setting, read_number, read_unsigned, real_of, size, size_of, unsigned_setting,
};
use crate::modality::ModalityHint;
use crate::numeric::{Real, HUNDRED_THOUSANDTH, TEN_THOUSAND};
use crate::routing::route_tokens;
use crate::scalar::{Number, Relation, ScalarOp, Scalars};
use crate::stages::{PassDesign, Stage};
use crate::weights::{
    either, in_expert, in_layer, linear_shape, plain, rms_norm, Attempt, Fallback, LoadStep,
    ModelPlan, Weight,
};
use vstd::prelude::*;

verus! {

/// The settings of a GLM-5.2 model.
#[derive(Debug, Clone, Copy)]
pub struct Glm52Config {
    pub vocab_size: usize,
    pub hidden_size: usize,
    pub num_attention_heads: usize,
    pub num_key_value_heads: usize,
    pub head_dim: usize,
    pub num_hidden_layers: usize,
    pub intermediate_size: usize,
    pub num_experts: usize,
    pub num_experts_per_tok: usize,
    pub rms_norm_eps: Real,
    pub rope_theta: Real,
    pub max_position_embeddings: usize,
}

impl Default for Glm52Config {
    fn default() -> (cfg: Self)
        ensures
            cfg == (Glm52Config {
                vocab_size: 151552,
                hidden_size: 4096,
                num_attention_heads: 32,
                num_key_value_heads: 8,
                head_dim: 128,
                num_hidden_layers: 40,
                intermediate_size: 13824,
                num_experts: 64,
                num_experts_per_tok: 8,
                rms_norm_eps: Real { bits: HUNDRED_THOUSANDTH },
                rope_theta: Real { bits: TEN_THOUSAND },
                max_position_embeddings: 8192,
            }),
    {
        Glm52Config {
            vocab_size: 151552,
            hidden_size: 4096,
            num_attention_heads: 32,
            num_key_value_heads: 8,
            head_dim: 128,
            num_hidden_layers: 40,
            intermediate_size: 13824,
            num_experts: 64,
            num_experts_per_tok: 8,
            rms_norm_eps: Real { bits: HUNDRED_THOUSANDTH },
            rope_theta: Real { bits: TEN_THOUSAND },
            max_position_embeddings: 8192,
        }
    }
}

/// What a settings file says, as far as this model reads it.
#[derive(Debug, Clone, Copy)]
pub struct Glm52Settings {
    pub vocab_size: Option<u64>,
    pub hidden_size: Option<u64>,
    pub num_attention_heads: Option<u64>,
    pub num_key_value_heads: Option<u64>,
    pub head_dim: Option<u64>,
    pub num_hidden_layers: Option<u64>,
    pub intermediate_size: Option<u64>,
    pub num_experts: Option<u64>,
    pub num_experts_per_tok: Option<u64>,
    pub rms_norm_eps: Option<u64>,
    pub rope_theta: Option<u64>,
    pub max_position_embeddings: Option<u64>,
}

impl Glm52Settings {
    /// The settings under their keys in a file.
    pub open spec fn of(value: serde_json::Value) -> Glm52Settings {
        Glm52Settings {
            vocab_size: unsigned_setting(value, "vocab_size"@),
            hidden_size: unsigned_setting(value, "hidden_size"@),
            num_attention_heads: unsigned_setting(value, "num_attention_heads"@),
            num_key_value_heads: unsigned_setting(value, "num_key_value_heads"@),
            head_dim: unsigned_setting(value, "head_dim"@),
            num_hidden_layers: unsigned_setting(value, "num_hidden_layers"@),
            intermediate_size: unsigned_setting(value, "intermediate_size"@),
            num_experts: unsigned_setting(value, "num_experts"@),
            num_experts_per_tok: unsigned_setting(value, "num_experts_per_tok"@),
            rms_norm_eps: number_setting(value, "rms_norm_eps"@),
            rope_theta: number_setting(value, "rope_theta"@),
            max_position_embeddings: unsigned_setting(value, "max_position_embeddings"@),
        }
    }

    /// The configuration that the settings give: what is absent is zero.
    pub open spec fn spec_config(self) -> Glm52Config {
        Glm52Config {
            vocab_size: size_of(self.vocab_size),
            hidden_size: size_of(self.hidden_size),
            num_attention_heads: size_of(self.num_attention_heads),
            num_key_value_heads: size_of(self.num_key_value_heads),
            head_dim: size_of(self.head_dim),
            num_hidden_layers: size_of(self.num_hidden_layers),
            intermediate_size: size_of(self.intermediate_size),
            num_experts: size_of(self.num_experts),
            num_experts_per_tok: size_of(self.num_experts_per_tok),
            rms_norm_eps: real_of(self.rms_norm_eps),
            rope_theta: real_of(self.rope_theta),
            max_position_embeddings: size_of(self.max_position_embeddings),
        }
    }

    /// The configuration that the settings give.
    pub fn config(&self) -> (cfg: Glm52Config)
        ensures
            cfg == self.spec_config(),
    {
        Glm52Config {
            vocab_size: size(self.vocab_size),
            hidden_size: size(self.hidden_size),
            num_attention_heads: size(self.num_attention_heads),
            num_key_value_heads: size(self.num_key_value_heads),
            head_dim: size(self.head_dim),
            num_hidden_layers: size(self.num_hidden_layers),
            intermediate_size: size(self.intermediate_size),
            num_experts: size(self.num_experts),
            num_experts_per_tok: size(self.num_experts_per_tok),
            rms_norm_eps: number(self.rms_norm_eps),
            rope_theta: number(self.rope_theta),
            max_position_embeddings: size(self.max_position_embeddings),
        }
    }
}

impl Glm52Config {
    /// The family's name.
    pub fn name(&self) -> (name: &'static str)
        ensures
            name@ == "glm5_2"@,
    {
        "glm5_2"
    }

    /// Text in, text out.
    pub fn modality(&self) -> (m: ModalityHint)
        ensures
            m == ModalityHint::TextInTextOut,
    {
        ModalityHint::TextInTextOut
    }

    /// Reads the configuration out of a settings file.
    pub fn from_hf(value: &serde_json::Value) -> (cfg: Glm52Config)
        ensures
            cfg == Glm52Settings::of(*value).spec_config(),
    {
        let settings = Glm52Settings {
            vocab_size: read_unsigned(value, "vocab_size"),
            hidden_size: read_unsigned(value, "hidden_size"),
            num_attention_heads: read_unsigned(value, "num_attention_heads"),
            num_key_value_heads: read_unsigned(value, "num_key_value_heads"),
            head_dim: read_unsigned(value, "head_dim"),
            num_hidden_layers: read_unsigned(value, "num_hidden_layers"),
            intermediate_size: read_unsigned(value, "intermediate_size"),
            num_experts: read_unsigned(value, "num_experts"),
            num_experts_per_tok: read_unsigned(value, "num_experts_per_tok"),
            rms_norm_eps: read_number(value, "rms_norm_eps"),
            rope_theta: read_number(value, "rope_theta"),
            max_position_embeddings: read_unsigned(value, "max_position_embeddings"),
        };
        settings.config()
    }

    /// Every width that the weights have fits.
    pub open spec fn fits(&self) -> bool {
        &&& self.num_attention_heads * self.head_dim + 2 * (self.num_key_value_heads * self.head_dim) <= usize::MAX
        &&& (self.num_attention_heads + 2 * self.num_key_value_heads) * self.head_dim <= usize::MAX
        &&& self.num_attention_heads + 2 * self.num_key_value_heads <= usize::MAX
    }
}

/// Where a file keeps its weights.
#[derive(Debug, Clone, Copy, PartialEq, Eq, Structural)]
pub enum Glm52Root {
    Transformer,
    Model,
}

impl Glm52Root {
    /// The name in front of weights outside the layers.
    pub open spec fn spec_root(self) -> &'static str {
        match self {
            Glm52Root::Transformer => "transformer",
            Glm52Root::Model => "model",
        }
    }

    /// The name in front of the layers.
    pub open spec fn spec_layers(self) -> &'static str {
        match self {
            Glm52Root::Transformer => "transformer.layers",
            Glm52Root::Model => "model.layers",
        }
    }

    /// A file that has the first layer's input norm below `transformer` keeps
    /// everything there.
    pub fn of(has_transformer_norm: bool) -> (root: Glm52Root)
        ensures
            root == (if has_transformer_norm {
                Glm52Root::Transformer
            } else {
                Glm52Root::Model
            }),
    {
        if has_transformer_norm {
            Glm52Root::Transformer
        } else {
            Glm52Root::Model
        }
    }

    /// The name in front of weights outside the layers.
    pub fn root(&self) -> (name: &'static str)
        ensures
            name == self.spec_root(),
    {
        match self {
            Glm52Root::Transformer => "transformer",
            Glm52Root::Model => "model",
        }
    }

    /// The name in front of the layers.
    pub fn layers(&self) -> (name: &'static str)
        ensures
            name == self.spec_layers(),
    {
        match self {
            Glm52Root::Transformer => "transformer.layers",
            Glm52Root::Model => "model.layers",
        }
    }
}

/// An expert.
#[derive(Debug, Clone, Copy)]
pub struct Glm52Expert {
    pub hidden_size: usize,
    pub intermediate_size: usize,
}

/// The weights of one expert of a layer.
pub open spec fn glm_expert_plan(
    root: Glm52Root,
    layer: usize,
    expert: usize,
    hidden: usize,
    inter: usize,
) -> Seq<LoadStep> {
    let scope = "mlp.experts";
    seq![
        linear_shape(
            in_expert(root.spec_layers(), layer, scope, expert, "dense_h_to_4h"),
            hidden,
            inter,
        ),
        linear_shape(
            in_expert(root.spec_layers(), layer, scope, expert, "dense_4h_to_h"),
            inter,
            hidden,
        ),
    ]
}

/// The weights of the first `n` experts of a layer.
pub open spec fn glm_experts_plan(
    root: Glm52Root,
    layer: usize,
    n: nat,
    hidden: usize,
    inter: usize,
) -> Seq<LoadStep>
    decreases n,
{
    if n == 0 {
        Seq::empty()
    } else {
        glm_experts_plan(root, layer, (n - 1) as nat, hidden, inter) + glm_expert_plan(
            root,
            layer,
            (n - 1) as usize,
            hidden,
            inter,
        )
    }
}

impl Glm52Expert {
    /// The weights of expert `expert` of a layer.
    pub fn load(
        root: Glm52Root,
        layer: usize,
        expert: usize,
        hidden_size: usize,
        intermediate_size: usize,
    ) -> (plan: Vec<LoadStep>)
        ensures
            plan@ == glm_expert_plan(root, layer, expert, hidden_size, intermediate_size),
    {
        let base = root.layers();
        let scope = "mlp.experts";
        vec![
            linear_shape(
                in_expert(base, layer, scope, expert, "dense_h_to_4h"),
                hidden_size,
                intermediate_size,
            ),
            linear_shape(
                in_expert(base, layer, scope, expert, "dense_4h_to_h"),
                intermediate_size,
                hidden_size,
            ),
        ]
    }

    /// The operations of an expert.
    pub fn forward(&self) -> (ops: Vec<BlockOp>)
        ensures
            ops@ == plain_ops(
                Reg::FfnInput,
                self.hidden_size,
                self.intermediate_size,
                Activation::GeluPower,
            ),
    {
        plain_program(self.hidden_size, self.intermediate_size, Activation::GeluPower)
    }
}

/// The mixture of a block.
#[derive(Debug, Clone, Copy)]
pub struct Glm52Moe {
    pub num_experts: usize,
    pub num_experts_per_tok: usize,
}

/// The weights of the mixture of a layer.
pub open spec fn moe_plan(cfg: &Glm52Config, root: Glm52Root, layer: usize) -> Seq<LoadStep> {
    seq![
        linear_shape(
            in_layer(root.spec_layers(), layer, "mlp", "gate"),
            cfg.hidden_size,
            cfg.num_experts,
        ),
    ] + glm_experts_plan(
        root,
        layer,
        cfg.num_experts as nat,
        cfg.hidden_size,
        cfg.intermediate_size,
    )
}

impl Glm52Moe {
    /// The mixture of a configuration: at least one expert per token.
    pub fn new(cfg: &Glm52Config) -> (moe: Glm52Moe)
        ensures
            moe.num_experts == cfg.num_experts,
            moe.num_experts_per_tok == (if cfg.num_experts_per_tok == 0 {
                1
            } else {
                cfg.num_experts_per_tok
            }),
    {
        Glm52Moe {
            num_experts: cfg.num_experts,
            num_experts_per_tok: if cfg.num_experts_per_tok == 0 {
                1
            } else {
                cfg.num_experts_per_tok
            },
        }
    }

    /// The router and every expert of a layer.
    pub fn load(cfg: &Glm52Config, root: Glm52Root, layer: usize) -> (plan: Vec<LoadStep>)
        ensures
            plan@ == moe_plan(cfg, root, layer),
    {
        let mut plan: Vec<LoadStep> = Vec::new();
        plan.push(
            linear_shape(
                in_layer(root.layers(), layer, "mlp", "gate"),
                cfg.hidden_size,
                cfg.num_experts,
            ),
        );
        let ghost lead = plan@;
        let mut e: usize = 0;
        assert(plan@ =~= lead + glm_experts_plan(
            root,
            layer,
            0,
            cfg.hidden_size,
            cfg.intermediate_size,
        ));
        while e < cfg.num_experts
            invariant
                e <= cfg.num_experts,
                plan@ == lead + glm_experts_plan(
                    root,
                    layer,
                    e as nat,
                    cfg.hidden_size,
                    cfg.intermediate_size,
                ),
            decreases cfg.num_experts - e,
        {
            let ghost before = plan@;
            let mut one = Glm52Expert::load(
                root,
                layer,
                e,
                cfg.hidden_size,
                cfg.intermediate_size,
            );
            plan.append(&mut one);
            e = e + 1;
            assert(plan@ =~= before + glm_expert_plan(
                root,
                layer,
                (e - 1) as usize,
                cfg.hidden_size,
                cfg.intermediate_size,
            ));
            assert(plan@ =~= lead + glm_experts_plan(
                root,
                layer,
                e as nat,
                cfg.hidden_size,
                cfg.intermediate_size,
            ));
        }
        plan
    }

    /// Routes every token to its best experts and adds what they give, weighed
    /// by the softmax over the chosen scores.
    ///
    /// `scores` are the router's; `run` runs one expert on one row.
    pub fn forward<
        T: Copy,
        F: Fn(ScalarOp, T, T) -> T,
        C: Fn(Number) -> T,
        Z: Fn(Relation, T, T) -> bool,
        R: Fn(usize, Vec<T>) -> Vec<T>,
    >(
        &self,
        x: &Scalars<T, F, C, Z>,
        rows: &[T],
        scores: &[T],
        tokens: usize,
        hidden: usize,
        run: R,
    ) -> (out: Vec<T>)
        requires
            x.wf(),
            rows@.len() == tokens * hidden,
            scores@.len() == tokens * self.num_experts,
            forall|s: int|
                0 <= s < tokens ==> x.orders(
                    #[trigger] scores@.subrange(
                        s * self.num_experts,
                        s * self.num_experts + self.num_experts,
                    ),
                ),
            forall|e: usize, a: Vec<T>|
                e < self.num_experts && a@.len() == hidden ==> #[trigger] call_requires(
                    run,
                    (e, a),
                ),
            forall|e: usize, a: Vec<T>, r: Vec<T>| #[trigger]
                call_ensures(run, (e, a), r) && a@.len() == hidden ==> r@.len() == hidden,
        ensures
            out@.len() == tokens * hidden,
            forall|s: int|
                0 <= s < tokens ==> #[trigger] x.token_routed(
                    run,
                    rows@,
                    scores@,
                    hidden as nat,
                    self.num_experts as nat,
                    self.num_experts_per_tok as nat,
                    None,
                    out@,
                    s,
                ),
    {
        route_tokens(
            x,
            rows,
            scores,
            tokens,
            hidden,
            self.num_experts,
            self.num_experts_per_tok,
            None,
            run,
        )
    }
}

/// The weights of a layer.
pub open spec fn glm5_2_layer_plan(
    cfg: &Glm52Config,
    root: Glm52Root,
    layer: usize,
) -> Seq<LoadStep> {
    let q = (cfg.num_attention_heads * cfg.head_dim) as usize;
    let qkv = ((cfg.num_attention_heads + 2 * cfg.num_key_value_heads) * cfg.head_dim) as usize;
    let hidden = cfg.hidden_size;
    seq![
        linear_shape(in_layer(root.spec_layers(), layer, "self_attention", "query_key_value"), hidden, qkv),
        linear_shape(in_layer(root.spec_layers(), layer, "self_attention", "dense"), q, hidden),
        rms_norm(in_layer(root.spec_layers(), layer, "", "input_layernorm"), hidden),
        rms_norm(in_layer(root.spec_layers(), layer, "", "post_attention_layernorm"), hidden),
    ] + moe_plan(cfg, root, layer)
}

/// A block of a model.
#[derive(Debug, Clone, Copy)]
pub struct Glm52Block {
    pub design: BlockDesign,
}

/// The parts of a block.
pub open spec fn glm5_2_design(cfg: &Glm52Config) -> BlockDesign {
    BlockDesign {
        hidden: cfg.hidden_size,
        inter: cfg.intermediate_size,
        attention: AttentionDesign {
            heads: cfg.num_attention_heads,
            kv_heads: cfg.num_key_value_heads,
            head_dim: cfg.head_dim,
            cached: true,
            window: None,
            softcap: None,
        },
        layer_norm: false,
        fused_qkv: true,
        qk_norm: false,
        rope_theta: Some(cfg.rope_theta),
        rotary_dim: cfg.head_dim,
        rope_sections: None,
        post_attn_norm: false,
        ffn_input: FfnInput::NormedResidual,
        ffn: Ffn::Experts,
        post_ffn_norm: false,
        residual_scale: None,
    }
}

impl Glm52Block {
    /// A block of a configuration.
    pub fn new(cfg: &Glm52Config) -> (block: Glm52Block)
        requires
            cfg.fits(),
        ensures
            block.design == glm5_2_design(cfg),
    {
        Glm52Block {
            design: BlockDesign {
                hidden: cfg.hidden_size,
                inter: cfg.intermediate_size,
                attention: AttentionDesign {
                    heads: cfg.num_attention_heads,
                    kv_heads: cfg.num_key_value_heads,
                    head_dim: cfg.head_dim,
                    cached: true,
                    window: None,
                    softcap: None,
                },
                layer_norm: false,
                fused_qkv: true,
                qk_norm: false,
                rope_theta: Some(cfg.rope_theta),
                rotary_dim: cfg.head_dim,
                rope_sections: None,
                post_attn_norm: false,
                ffn_input: FfnInput::NormedResidual,
                ffn: Ffn::Experts,
                post_ffn_norm: false,
                residual_scale: None,
            },
        }
    }

    /// The weights of a layer.
    pub fn load(cfg: &Glm52Config, root: Glm52Root, layer: usize) -> (plan: Vec<LoadStep>)
        requires
            cfg.fits(),
        ensures
            plan@ == glm5_2_layer_plan(cfg, root, layer),
    {
        let q: usize = cfg.num_attention_heads * cfg.head_dim;
        let qkv: usize = (cfg.num_attention_heads + 2 * cfg.num_key_value_heads) * cfg.head_dim;
        let hidden: usize = cfg.hidden_size;
        let mut plan = vec![
            linear_shape(in_layer(root.layers(), layer, "self_attention", "query_key_value"), hidden, qkv),
            linear_shape(in_layer(root.layers(), layer, "self_attention", "dense"), q, hidden),
            rms_norm(in_layer(root.layers(), layer, "", "input_layernorm"), hidden),
            rms_norm(in_layer(root.layers(), layer, "", "post_attention_layernorm"), hidden),
        ];
        let mut moe = Glm52Moe::load(cfg, root, layer);
        plan.append(&mut moe);
        assert(plan@ =~= glm5_2_layer_plan(cfg, root, layer));
        plan
    }

    /// The operations of a block.
    pub fn forward(&self) -> (ops: Vec<BlockOp>)
        requires
            self.design.fits(),
        ensures
            ops@ == self.design.ops(),
    {
        self.design.program()
    }
}

/// A model.
#[derive(Debug, Clone, Copy)]
pub struct Glm52 {
    pub cfg: Glm52Config,
}

/// The plan names every weight of a model.
pub open spec fn glm5_2_planned(cfg: &Glm52Config, root: Glm52Root, plan: &ModelPlan) -> bool {
    let table = Weight::LinearShape { d0: cfg.vocab_size, d1: cfg.hidden_size };
    let norm = Weight::RmsNorm { dim: cfg.hidden_size };
    let head = Weight::LinearShape { d0: cfg.hidden_size, d1: cfg.vocab_size };
    let name = root.spec_root();
    &&& plan.tok_embeddings == either(
        plain(name, "word_embeddings"),
        table,
        plain(name, "embed_tokens"),
        table,
    )
    &&& plan.positions is None
    &&& plan.layers@.len() == cfg.num_hidden_layers
    &&& forall|i: int|
        0 <= i < cfg.num_hidden_layers ==> (#[trigger] plan.layers@[i])@ == glm5_2_layer_plan(
            cfg,
            root,
            i as usize,
        )
    &&& plan.norm == either(plain(name, "final_layernorm"), norm, plain(name, "norm"), norm)
    &&& plan.output == Some(
        LoadStep {
            first: Attempt { path: plain(name, "output_layer"), weight: head },
            second: Some(Attempt { path: plain("", "lm_head"), weight: head }),
            fallback: Fallback::TiedEmbedding,
        },
    )
}

impl Glm52 {
    /// The weights that a model asks for.
    pub fn load(cfg: &Glm52Config, root: Glm52Root) -> (plan: ModelPlan)
        requires
            cfg.fits(),
        ensures
            glm5_2_planned(cfg, root, &plan),
    {
        Self::load_tp(cfg, root)
    }

    /// The weights that a model asks for, each device holding them all.
    pub fn load_tp(cfg: &Glm52Config, root: Glm52Root) -> (plan: ModelPlan)
        requires
            cfg.fits(),
        ensures
            glm5_2_planned(cfg, root, &plan),
    {
        let mut layers: Vec<Vec<LoadStep>> = Vec::new();
        let mut i: usize = 0;
        while i < cfg.num_hidden_layers
            invariant
                i <= cfg.num_hidden_layers,
                cfg.fits(),
                layers@.len() == i,
                forall|j: int|
                    0 <= j < i ==> (#[trigger] layers@[j])@ == glm5_2_layer_plan(
                        cfg,
                        root,
                        j as usize,
                    ),
            decreases cfg.num_hidden_layers - i,
        {
            layers.push(Glm52Block::load(cfg, root, i));
            i = i + 1;
        }
        let table = Weight::LinearShape { d0: cfg.vocab_size, d1: cfg.hidden_size };
        let norm = Weight::RmsNorm { dim: cfg.hidden_size };
        let head = Weight::LinearShape { d0: cfg.hidden_size, d1: cfg.vocab_size };
        let name = root.root();
        ModelPlan {
            tok_embeddings: either(
                plain(name, "word_embeddings"),
                table,
                plain(name, "embed_tokens"),
                table,
            ),
            positions: None,
            layers,
            norm: either(plain(name, "final_layernorm"), norm, plain(name, "norm"), norm),
            output: Some(
                LoadStep {
                    first: Attempt { path: plain(name, "output_layer"), weight: head },
                    second: Some(Attempt { path: plain("", "lm_head"), weight: head }),
                    fallback: Fallback::TiedEmbedding,
                },
            ),
        }
    }

    /// The stages of a pass over `tokens` tokens. Every layer starts from an
    /// empty history.
    pub fn forward(&self, tokens: usize) -> (stages: Vec<Stage>)
        ensures
            stages@ == (PassDesign {
                layers: self.cfg.num_hidden_layers,
                positions: false,
                sqrt_scale: None,
                keeps_hidden: false,
                softcap: None,
                advances: true,
            }).stages(tokens),
    {
        let design = PassDesign {
            layers: self.cfg.num_hidden_layers,
            positions: false,
            sqrt_scale: None,
            keeps_hidden: false,
            softcap: None,
            advances: true,
        };
        design.pass(tokens)
    }
}

} // verus!
