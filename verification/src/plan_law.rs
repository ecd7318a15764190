//! Weight plans and block programs fit together: every operation of a block that needs
//! a weight finds one of its own shape among those that its layer asks for.

use crate::block_program::{BlockDesign, BlockOp};
use crate::gemma2::{gemma2_design, gemma2_layer_plan, Gemma2Config};
use crate::gemma3n::{gemma3n_design, gemma3n_layer_plan, Gemma3nConfig};
use crate::gemma::{gemma_design, gemma_layer_plan, GemmaConfig};
use crate::glm5_2::{glm5_2_design, glm5_2_layer_plan, glm_experts_plan, Glm52Config, Glm52Root};
use crate::gpt2::{gpt2_design, gpt2_layer_plan, Gpt2Config};
use crate::gptj::{gptj_design, gptj_layer_plan, GptJConfig};
use crate::granite_moe_hybrid::{granite_design, granite_layer_plan, GraniteMoeHybridConfig};
use crate::hunyuan_vl::{hunyuan_vl_design, hunyuan_vl_layer_plan, HunyuanVlConfig};
use crate::hyv3::{hyv3_design, hyv3_layer_plan, HyV3Config};
use crate::interns2_mobius::{interns2_mobius_design, interns2_mobius_layer_plan, InternS2MobiusConfig};
use crate::kimi_k3::{mla_plan, KimiK3Config};
use crate::lfm2::{loaded_block, mixer_plan, Lfm2Config, Lfm2Loaded};
use crate::minimax_m3::{minimax_m3_design, minimax_m3_layer_plan, MiniMaxM3Config};
use crate::weights::{experts_plan, GatedNames, LoadStep, Weight};
use vstd::prelude::*;

verus! {

/// A weight that takes rows of `inputs` and gives rows of `outputs`.
pub open spec fn maps(weight: Weight, inputs: usize, outputs: usize) -> bool {
    match weight {
        Weight::Linear { inputs: i, outputs: o, .. } => i == inputs && o == outputs,
        Weight::ColumnParallel { inputs: i, outputs: o, .. } => i == inputs && o == outputs,
        Weight::RowParallel { inputs: i, outputs: o, .. } => i == inputs && o == outputs,
        Weight::LinearShape { d0, d1 } => d0 == inputs && d1 == outputs,
        _ => false,
    }
}

/// A weight that an operation can work with.
pub open spec fn works(weight: Weight, op: BlockOp) -> bool {
    match op {
        BlockOp::Linear { inputs, outputs, .. } => maps(weight, inputs, outputs),
        BlockOp::Norm { width, subtract_mean, .. } => match weight {
            Weight::LayerNorm { dim } => subtract_mean && dim == width,
            Weight::RmsNorm { dim } => !subtract_mean && dim == width,
            _ => false,
        },
        BlockOp::HeadNorm { head_dim, .. } => match weight {
            Weight::RmsNorm { dim } => dim == head_dim,
            _ => false,
        },
        _ => false,
    }
}

/// What a step of a plan loads, under whichever of its names, works for an
/// operation.
pub open spec fn serves(step: LoadStep, op: BlockOp) -> bool {
    &&& works(step.first.weight, op)
    &&& step.second matches Some(other) ==> works(other.weight, op)
}

/// An operation that needs no weight, or one that a plan has a weight for.
pub open spec fn supplied(plan: Seq<LoadStep>, op: BlockOp) -> bool {
    match op {
        BlockOp::Linear { .. } | BlockOp::Norm { .. } | BlockOp::HeadNorm { .. } => exists|i: int|
            0 <= i < plan.len() && serves(#[trigger] plan[i], op),
        _ => true,
    }
}

/// A plan has a weight for every operation of a block.
pub open spec fn supplies(plan: Seq<LoadStep>, design: BlockDesign) -> bool {
    forall|j: int| 0 <= j < design.ops().len() ==> supplied(plan, #[trigger] design.ops()[j])
}

proof fn lemma_supplies(plan: Seq<LoadStep>, design: BlockDesign)
    requires
        forall|j: int|
            0 <= j < design.project_ops().len() ==> supplied(plan, #[trigger] design.project_ops()[j]),
        forall|j: int|
            0 <= j < design.shape_ops().len() ==> supplied(plan, #[trigger] design.shape_ops()[j]),
        forall|j: int|
            0 <= j < design.attend_ops().len() ==> supplied(plan, #[trigger] design.attend_ops()[j]),
        forall|j: int|
            0 <= j < design.tail_ops().len() ==> supplied(plan, #[trigger] design.tail_ops()[j]),
    ensures
        supplies(plan, design),
{
    let (a, b, c, d) = (
        design.project_ops(),
        design.shape_ops(),
        design.attend_ops(),
        design.tail_ops(),
    );
    assert forall|j: int| 0 <= j < design.ops().len() implies supplied(
        plan,
        #[trigger] design.ops()[j],
    ) by {
        if j < a.len() {
            assert(design.ops()[j] == a[j]);
        } else if j < a.len() + b.len() {
            assert(design.ops()[j] == b[j - a.len()]);
        } else if j < a.len() + b.len() + c.len() {
            assert(design.ops()[j] == c[j - a.len() - b.len()]);
        } else {
            assert(design.ops()[j] == d[j - a.len() - b.len() - c.len()]);
        }
    }
}

/// The weights of a Gemma layer are those that its block works with.
pub proof fn law_gemma_weights_fit_its_block(cfg: &GemmaConfig, layer: usize)
    ensures
        supplies(gemma_layer_plan(cfg, layer), gemma_design(cfg)),
{
    let (plan, design) = (gemma_layer_plan(cfg, layer), gemma_design(cfg));
    let s0 = plan[0];
    let s1 = plan[1];
    let s2 = plan[2];
    let s3 = plan[3];
    let s4 = plan[4];
    let s5 = plan[5];
    let s6 = plan[6];
    let s7 = plan[7];
    let s8 = plan[8];
    lemma_supplies(plan, design);
}

/// The weights of a Gemma 2 layer are those that its block works with.
pub proof fn law_gemma2_weights_fit_its_block(cfg: &Gemma2Config, layer: usize)
    ensures
        supplies(gemma2_layer_plan(cfg, layer), gemma2_design(cfg)),
{
    let (plan, design) = (gemma2_layer_plan(cfg, layer), gemma2_design(cfg));
    let s0 = plan[0];
    let s1 = plan[1];
    let s2 = plan[2];
    let s3 = plan[3];
    let s4 = plan[4];
    let s5 = plan[5];
    let s6 = plan[6];
    let s7 = plan[7];
    let s8 = plan[8];
    let s9 = plan[9];
    let s10 = plan[10];
    lemma_supplies(plan, design);
}

/// The weights of a Gemma 3n layer are those that its block works with.
pub proof fn law_gemma3n_weights_fit_its_block(cfg: &Gemma3nConfig, layer: usize)
    ensures
        supplies(gemma3n_layer_plan(cfg, layer), gemma3n_design(cfg)),
{
    let (plan, design) = (gemma3n_layer_plan(cfg, layer), gemma3n_design(cfg));
    let s0 = plan[0];
    let s1 = plan[1];
    let s2 = plan[2];
    let s3 = plan[3];
    let s4 = plan[4];
    let s5 = plan[5];
    let s6 = plan[6];
    let s7 = plan[7];
    let s8 = plan[8];
    let s9 = plan[9];
    lemma_supplies(plan, design);
}

/// The weights of a GLM layer are those that its block works with.
pub proof fn law_glm5_2_weights_fit_its_block(cfg: &Glm52Config, root: Glm52Root, layer: usize)
    ensures
        supplies(glm5_2_layer_plan(cfg, root, layer), glm5_2_design(cfg)),
{
    let (plan, design) = (glm5_2_layer_plan(cfg, root, layer), glm5_2_design(cfg));
    let (h, g, d) = (
        cfg.num_attention_heads as int,
        cfg.num_key_value_heads as int,
        cfg.head_dim as int,
    );
    assert((h + 2 * g) * d == h * d + 2 * (g * d)) by (nonlinear_arith);
    let s0 = plan[0];
    let s1 = plan[1];
    let s2 = plan[2];
    let s3 = plan[3];
    lemma_supplies(plan, design);
}

/// The weights of a GPT-2 layer are those that its block works with.
pub proof fn law_gpt2_weights_fit_its_block(cfg: &Gpt2Config, layer: usize)
    requires
        cfg.num_heads > 0,
        cfg.hidden_size % cfg.num_heads == 0,
    ensures
        supplies(gpt2_layer_plan(cfg, layer), gpt2_design(cfg)),
{
    let (plan, design) = (gpt2_layer_plan(cfg, layer), gpt2_design(cfg));
    let (heads, dim) = (cfg.num_heads as int, (cfg.hidden_size / cfg.num_heads) as int);
    vstd::arithmetic::div_mod::lemma_fundamental_div_mod(cfg.hidden_size as int, heads);
    assert(heads * dim == cfg.hidden_size);
    assert(design.q_dim() == cfg.hidden_size && design.kv_dim() == cfg.hidden_size);
    let s0 = plan[0];
    let s1 = plan[1];
    let s2 = plan[2];
    let s3 = plan[3];
    let s4 = plan[4];
    let s5 = plan[5];
    lemma_supplies(plan, design);
}

/// The weights of a GPT-J layer are those that its block works with.
pub proof fn law_gptj_weights_fit_its_block(cfg: &GptJConfig, layer: usize)
    ensures
        supplies(gptj_layer_plan(cfg, layer), gptj_design(cfg)),
{
    let (plan, design) = (gptj_layer_plan(cfg, layer), gptj_design(cfg));
    let s0 = plan[0];
    let s1 = plan[1];
    let s2 = plan[2];
    let s3 = plan[3];
    let s4 = plan[4];
    let s5 = plan[5];
    let s6 = plan[6];
    lemma_supplies(plan, design);
}

/// The weights of a Granite layer are those that its block works with.
pub proof fn law_granite_weights_fit_its_block(cfg: &GraniteMoeHybridConfig, layer: usize)
    ensures
        supplies(granite_layer_plan(cfg, layer), granite_design(cfg)),
{
    let (plan, design) = (granite_layer_plan(cfg, layer), granite_design(cfg));
    let s0 = plan[0];
    let s1 = plan[1];
    let s2 = plan[2];
    let s3 = plan[3];
    let s4 = plan[4];
    let s5 = plan[5];
    lemma_supplies(plan, design);
}

/// The weights of a Hunyuan layer are those that its block works with.
pub proof fn law_hunyuan_vl_weights_fit_its_block(cfg: &HunyuanVlConfig, layer: usize)
    ensures
        supplies(hunyuan_vl_layer_plan(cfg, layer), hunyuan_vl_design(cfg)),
{
    let (plan, design) = (hunyuan_vl_layer_plan(cfg, layer), hunyuan_vl_design(cfg));
    let s0 = plan[0];
    let s1 = plan[1];
    let s2 = plan[2];
    let s3 = plan[3];
    let s4 = plan[4];
    let s5 = plan[5];
    let s6 = plan[6];
    let s7 = plan[7];
    let s8 = plan[8];
    lemma_supplies(plan, design);
}

/// The weights of a Hy layer are those that its block works with.
pub proof fn law_hyv3_weights_fit_its_block(cfg: &HyV3Config, layer: usize)
    ensures
        supplies(hyv3_layer_plan(cfg, layer), hyv3_design(cfg)),
{
    let (plan, design) = (hyv3_layer_plan(cfg, layer), hyv3_design(cfg));
    let s0 = plan[0];
    let s1 = plan[1];
    let s2 = plan[2];
    let s3 = plan[3];
    let s4 = plan[4];
    let s5 = plan[5];
    let s6 = plan[6];
    let s7 = plan[7];
    lemma_supplies(plan, design);
}

/// The weights of a InternS2 layer are those that its block works with.
pub proof fn law_interns2_mobius_weights_fit_its_block(cfg: &InternS2MobiusConfig, layer: usize)
    ensures
        supplies(interns2_mobius_layer_plan(cfg, layer), interns2_mobius_design(cfg)),
{
    let (plan, design) = (interns2_mobius_layer_plan(cfg, layer), interns2_mobius_design(cfg));
    let s0 = plan[0];
    let s1 = plan[1];
    let s2 = plan[2];
    let s3 = plan[3];
    let s4 = plan[4];
    let s5 = plan[5];
    let s6 = plan[6];
    lemma_supplies(plan, design);
}

/// The weights of a MiniMax layer are those that its block works with.
pub proof fn law_minimax_m3_weights_fit_its_block(cfg: &MiniMaxM3Config, layer: usize)
    ensures
        supplies(minimax_m3_layer_plan(cfg, layer), minimax_m3_design(cfg)),
{
    let (plan, design) = (minimax_m3_layer_plan(cfg, layer), minimax_m3_design(cfg));
    let s0 = plan[0];
    let s1 = plan[1];
    let s2 = plan[2];
    let s3 = plan[3];
    let s4 = plan[4];
    let s5 = plan[5];
    lemma_supplies(plan, design);
}

/// Every expert of a layer is asked for three projections, one behind another, which
/// lead from the width of the model to its own and back; experts follow each other.
pub proof fn law_experts_are_asked_for_in_turn(
    base: &'static str,
    layer: usize,
    scope: &'static str,
    n: nat,
    hidden: usize,
    inter: usize,
    names: GatedNames,
    e: int,
)
    requires
        0 <= e < n <= usize::MAX,
    ensures
        ({
            let plan = experts_plan(base, layer, scope, n, hidden, inter, names);
            &&& plan.len() == 3 * n
            &&& maps(plan[3 * e].first.weight, hidden, inter)
            &&& maps(plan[3 * e + 1].first.weight, hidden, inter)
            &&& maps(plan[3 * e + 2].first.weight, inter, hidden)
            &&& forall|i: int|
                3 * e <= i < 3 * e + 3 ==> (#[trigger] plan[i]).first.path.expert == Some(
                    e as usize,
                ) && plan[i].first.path.layer == Some(layer)
        }),
    decreases n,
{
    lemma_experts_len(base, layer, scope, n, hidden, inter, names);
    lemma_experts_len(base, layer, scope, (n - 1) as nat, hidden, inter, names);
    let before = experts_plan(base, layer, scope, (n - 1) as nat, hidden, inter, names);
    let plan = experts_plan(base, layer, scope, n, hidden, inter, names);
    if e < n - 1 {
        law_experts_are_asked_for_in_turn(
            base,
            layer,
            scope,
            (n - 1) as nat,
            hidden,
            inter,
            names,
            e,
        );
        assert forall|i: int| 0 <= i < before.len() implies plan[i] == before[i] by {}
    }
}

proof fn lemma_experts_len(
    base: &'static str,
    layer: usize,
    scope: &'static str,
    n: nat,
    hidden: usize,
    inter: usize,
    names: GatedNames,
)
    ensures
        experts_plan(base, layer, scope, n, hidden, inter, names).len() == 3 * n,
    decreases n,
{
    if n > 0 {
        lemma_experts_len(base, layer, scope, (n - 1) as nat, hidden, inter, names);
    }
}

/// Every expert of a GLM layer is asked for two projections, which lead from the
/// width of the model to its own and back; experts follow each other.
pub proof fn law_glm_experts_are_asked_for_in_turn(
    root: Glm52Root,
    layer: usize,
    n: nat,
    hidden: usize,
    inter: usize,
    e: int,
)
    requires
        0 <= e < n <= usize::MAX,
    ensures
        ({
            let plan = glm_experts_plan(root, layer, n, hidden, inter);
            &&& plan.len() == 2 * n
            &&& maps(plan[2 * e].first.weight, hidden, inter)
            &&& maps(plan[2 * e + 1].first.weight, inter, hidden)
            &&& plan[2 * e].first.path.expert == Some(e as usize)
            &&& plan[2 * e + 1].first.path.expert == Some(e as usize)
        }),
    decreases n,
{
    lemma_glm_experts_len(root, layer, n, hidden, inter);
    lemma_glm_experts_len(root, layer, (n - 1) as nat, hidden, inter);
    let before = glm_experts_plan(root, layer, (n - 1) as nat, hidden, inter);
    let plan = glm_experts_plan(root, layer, n, hidden, inter);
    if e < n - 1 {
        law_glm_experts_are_asked_for_in_turn(root, layer, (n - 1) as nat, hidden, inter, e);
        assert forall|i: int| 0 <= i < before.len() implies plan[i] == before[i] by {}
    }
}

proof fn lemma_glm_experts_len(
    root: Glm52Root,
    layer: usize,
    n: nat,
    hidden: usize,
    inter: usize,
)
    ensures
        glm_experts_plan(root, layer, n, hidden, inter).len() == 2 * n,
    decreases n,
{
    if n > 0 {
        lemma_glm_experts_len(root, layer, (n - 1) as nat, hidden, inter);
    }
}

/// The latent projections of a layer lead into one another: queries go through
/// their rank to the parts of all heads, keys and values through theirs, which the
/// rotated part lies beside, and the values of all heads back to the model's width.
pub proof fn law_latent_projections_chain(cfg: &KimiK3Config, layer: usize)
    requires
        cfg.num_attention_heads * (cfg.qk_nope_head_dim + cfg.qk_rope_head_dim) <= usize::MAX,
        cfg.num_attention_heads * (cfg.qk_nope_head_dim + cfg.v_head_dim) <= usize::MAX,
        cfg.kv_lora_rank + cfg.qk_rope_head_dim <= usize::MAX,
    ensures
        ({
            let plan = mla_plan(cfg, layer);
            let heads = cfg.num_attention_heads as int;
            exists|rank: usize, queries: usize, lanes: usize, kept: usize, parts: usize, values: usize|
                {
                    &&& #[trigger] maps(plan[0].first.weight, cfg.hidden_size, rank)
                    &&& #[trigger] maps(plan[1].first.weight, rank, queries)
                    &&& #[trigger] maps(plan[2].first.weight, cfg.hidden_size, lanes)
                    &&& #[trigger] maps(plan[3].first.weight, kept, parts)
                    &&& #[trigger] maps(plan[4].first.weight, values, cfg.hidden_size)
                    &&& lanes == kept + cfg.qk_rope_head_dim
                    &&& queries == heads * cfg.qk_nope_head_dim + heads * cfg.qk_rope_head_dim
                    &&& parts == heads * cfg.qk_nope_head_dim + values
                }
        }),
{
    let plan = mla_plan(cfg, layer);
    let (heads, nope, rope, v) = (
        cfg.num_attention_heads as int,
        cfg.qk_nope_head_dim as int,
        cfg.qk_rope_head_dim as int,
        cfg.v_head_dim as int,
    );
    assert(heads * (nope + rope) == heads * nope + heads * rope) by (nonlinear_arith);
    assert(heads * (nope + v) == heads * nope + heads * v) by (nonlinear_arith);
    assert(0 <= heads * nope && 0 <= heads * v) by (nonlinear_arith)
        requires
            0 <= heads,
            0 <= nope,
            0 <= v,
    ;
    let queries = (heads * (nope + rope)) as usize;
    let parts = (heads * (nope + v)) as usize;
    let values = (heads * v) as usize;
    let lanes = (cfg.kv_lora_rank + cfg.qk_rope_head_dim) as usize;
    assert(maps(plan[0].first.weight, cfg.hidden_size, cfg.q_lora_rank));
    assert(maps(plan[1].first.weight, cfg.q_lora_rank, queries));
    assert(maps(plan[2].first.weight, cfg.hidden_size, lanes));
    assert(maps(plan[3].first.weight, cfg.kv_lora_rank, parts));
    assert(maps(plan[4].first.weight, values, cfg.hidden_size));
}

/// A loaded block holds the mixer that its layer asked for: a convolution with its
/// two projections, or attention with its four and the norms of its heads.
pub proof fn law_loaded_mixer_is_the_planned_one(
    cfg: &Lfm2Config,
    layer: usize,
    found: &Lfm2Loaded,
)
    ensures
        ({
            let plan = mixer_plan(cfg, layer);
            let block = loaded_block(cfg, layer as int, found);
            &&& block.wq is Some != block.shortconv_in_proj is Some
            &&& block.wq matches Some(q) ==> {
                &&& plan.len() == 6
                &&& maps(plan[0].first.weight, q.inputs, q.outputs)
                &&& block.wk matches Some(k) && maps(plan[1].first.weight, k.inputs, k.outputs)
                &&& block.wv matches Some(v) && maps(plan[2].first.weight, v.inputs, v.outputs)
                &&& block.wo matches Some(o) && maps(plan[3].first.weight, o.inputs, o.outputs)
                    && o.inputs == q.outputs && o.outputs == q.inputs
                &&& block.attn_q_norm == Some(block.head_dim)
                &&& block.attn_k_norm == Some(block.head_dim)
                &&& plan[4].first.weight == (Weight::RmsNorm { dim: block.head_dim })
                &&& plan[5].first.weight == (Weight::RmsNorm { dim: block.head_dim })
            }
            &&& block.shortconv_in_proj matches Some(p) ==> {
                &&& plan.len() == 3
                &&& maps(plan[0].first.weight, p.inputs, p.outputs)
                &&& block.shortconv_out_proj matches Some(o) && maps(
                    plan[2].first.weight,
                    o.inputs,
                    o.outputs,
                ) && o.outputs == p.inputs
            }
        }),
{
}

} // verus!
