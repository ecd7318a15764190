//! What sets the layers of a shared decoder backbone apart: how each attends
//! and whether it routes to experts.

use crate::flags::same_text;
use crate::numeric::{Real, YarnParams};
use vstd::prelude::*;

verus! {

/// The settings of the shared backbone.
#[derive(Debug, Clone, Copy)]
pub struct LlamaConfig {
    pub vocab_size: usize,
    pub hidden_size: usize,
    pub num_heads: usize,
    pub num_kv_heads: usize,
    pub head_dim: usize,
    pub num_layers: usize,
    pub intermediate_size: usize,
    pub rms_norm_eps: Real,
    pub rope_theta: Real,
    pub max_seq_len: usize,
    pub partial_rotary_factor: Real,
    pub yarn: Option<YarnParams>,
}

/// How a router turns scores into weights.
#[derive(Debug, Clone, Copy, PartialEq, Eq, Structural)]
pub enum RouterKind {
    SoftmaxTopK,
    SigmoidTopKWithBias,
    SigmoidTopKPerHead,
}

/// The mixture of a layer.
#[derive(Debug, Clone, Copy, PartialEq, Eq, Structural)]
pub struct MoESpec {
    pub num_experts: usize,
    pub top_k: usize,
    pub router_kind: RouterKind,
    pub routed_scaling_factor: Real,
    pub has_shared_expert: bool,
    pub moe_intermediate_size: Option<usize>,
    pub shared_expert_intermediate_size: Option<usize>,
    pub transposed_expert_layout: bool,
}

/// How far a layer looks back.
#[derive(Debug, Clone, Copy, PartialEq, Eq, Structural)]
pub enum AttentionType {
    Full,
    Sliding,
}

/// The rotations of a layer.
#[derive(Debug, Clone, Copy, PartialEq, Eq, Structural)]
pub struct RopeConfig {
    pub dim: usize,
    pub base: Real,
    pub rotary_dim: usize,
    pub yarn: Option<YarnParams>,
}

/// The attention of a layer.
#[derive(Debug, Clone, Copy, PartialEq, Eq, Structural)]
pub struct LayerAttentionSpec {
    pub attn_type: AttentionType,
    pub num_heads: usize,
    pub num_kv_heads: usize,
    pub rope: RopeConfig,
    pub sliding_window: Option<usize>,
    pub has_attn_gate: bool,
}

/// What the layers of a hybrid model have in common.
#[derive(Debug, Clone, Copy)]
pub struct HybridAttention {
    pub num_heads: usize,
    pub num_kv_heads: usize,
    pub full_rope: RopeConfig,
    pub sliding_rope: RopeConfig,
    pub sliding_window: usize,
    pub has_attn_gate: bool,
}

/// The layer slides. A layer without a type looks all the way back.
pub open spec fn slides(layer_types: Seq<String>, i: int) -> bool {
    i < layer_types.len() && layer_types[i]@ == "sliding_attention"@
}

impl HybridAttention {
    /// The attention of layer `i`.
    pub open spec fn layer(
        &self,
        layer_types: Seq<String>,
        heads_per_layer: Seq<usize>,
        i: int,
    ) -> LayerAttentionSpec {
        let sliding = slides(layer_types, i);
        LayerAttentionSpec {
            attn_type: if sliding {
                AttentionType::Sliding
            } else {
                AttentionType::Full
            },
            num_heads: if i < heads_per_layer.len() {
                heads_per_layer[i]
            } else {
                self.num_heads
            },
            num_kv_heads: self.num_kv_heads,
            rope: if sliding {
                self.sliding_rope
            } else {
                self.full_rope
            },
            sliding_window: if sliding {
                Some(self.sliding_window)
            } else {
                None
            },
            has_attn_gate: self.has_attn_gate,
        }
    }

    /// The attention of every layer.
    pub fn layers(
        &self,
        num_layers: usize,
        layer_types: &Vec<String>,
        heads_per_layer: &Vec<usize>,
    ) -> (specs: Vec<LayerAttentionSpec>)
        ensures
            specs@ == Seq::new(
                num_layers as nat,
                |i: int| self.layer(layer_types@, heads_per_layer@, i),
            ),
    {
        let mut specs: Vec<LayerAttentionSpec> = Vec::new();
        let mut i: usize = 0;
        while i < num_layers
            invariant
                i <= num_layers,
                specs@ == Seq::new(
                    i as nat,
                    |i: int| self.layer(layer_types@, heads_per_layer@, i),
                ),
            decreases num_layers - i,
        {
            let sliding: bool = if i < layer_types.len() {
                same_text(layer_types[i].as_str(), "sliding_attention")
            } else {
                false
            };
            let num_heads: usize = if i < heads_per_layer.len() {
                heads_per_layer[i]
            } else {
                self.num_heads
            };
            let spec = if sliding {
                LayerAttentionSpec {
                    attn_type: AttentionType::Sliding,
                    num_heads,
                    num_kv_heads: self.num_kv_heads,
                    rope: self.sliding_rope,
                    sliding_window: Some(self.sliding_window),
                    has_attn_gate: self.has_attn_gate,
                }
            } else {
                LayerAttentionSpec {
                    attn_type: AttentionType::Full,
                    num_heads,
                    num_kv_heads: self.num_kv_heads,
                    rope: self.full_rope,
                    sliding_window: None,
                    has_attn_gate: self.has_attn_gate,
                }
            };
            specs.push(spec);
            i = i + 1;
        }
        specs
    }
}

/// The mixture of every layer: none where a layer is named as dense.
pub open spec fn mixed_layers(num_layers: nat, dense: Seq<usize>, spec: MoESpec) -> Seq<
    Option<MoESpec>,
> {
    Seq::new(
        num_layers,
        |i: int|
            if dense.contains(i as usize) {
                None
            } else {
                Some(spec)
            },
    )
}

fn names(dense: &Vec<usize>, layer: usize) -> (r: bool)
    ensures
        r == dense@.contains(layer),
{
    let n: usize = dense.len();
    let mut i: usize = 0;
    while i < n
        invariant
            i <= n,
            n == dense@.len(),
            forall|j: int| 0 <= j < i ==> dense@[j] != layer,
        decreases n - i,
    {
        if dense[i] == layer {
            assert(dense@[i as int] == layer);
            return true;
        }
        i = i + 1;
    }
    false
}

/// Gives every layer its mixture.
pub fn mix_layers(num_layers: usize, dense: &Vec<usize>, spec: MoESpec) -> (specs: Vec<
    Option<MoESpec>,
>)
    ensures
        specs@ == mixed_layers(num_layers as nat, dense@, spec),
{
    let mut specs: Vec<Option<MoESpec>> = Vec::new();
    let mut i: usize = 0;
    while i < num_layers
        invariant
            i <= num_layers,
            specs@ == mixed_layers(i as nat, dense@, spec),
        decreases num_layers - i,
    {
        if names(dense, i) {
            specs.push(None);
        } else {
            specs.push(Some(spec));
        }
        i = i + 1;
        assert(specs@ =~= mixed_layers(i as nat, dense@, spec));
    }
    specs
}

/// How a backbone is put together.
pub struct BackbonePlan {
    pub llama: LlamaConfig,
    pub moe: Vec<Option<MoESpec>>,
    pub attention: Vec<LayerAttentionSpec>,
}

/// Full and sliding layers differ in more than their reach: a sliding layer
/// has a window, a full layer has none, whatever the rest of the settings.
pub proof fn law_window_only_where_sliding(
    h: &HybridAttention,
    layer_types: Seq<String>,
    heads_per_layer: Seq<usize>,
    i: int,
)
    ensures
        h.layer(layer_types, heads_per_layer, i).sliding_window is Some <==> h.layer(
            layer_types,
            heads_per_layer,
            i,
        ).attn_type == AttentionType::Sliding,
{
}

/// Every layer goes by its own settings: a layer with the type and the heads of a
/// layer elsewhere, in whatever other stack, has the other's attention.
pub proof fn law_layers_go_by_their_own_settings(
    h: &HybridAttention,
    layer_types: Seq<String>,
    heads_per_layer: Seq<usize>,
    i: int,
    other_types: Seq<String>,
    other_heads: Seq<usize>,
    j: int,
)
    requires
        0 <= i < layer_types.len(),
        0 <= i < heads_per_layer.len(),
        0 <= j < other_types.len(),
        0 <= j < other_heads.len(),
        layer_types[i]@ == other_types[j]@,
        heads_per_layer[i] == other_heads[j],
    ensures
        h.layer(layer_types, heads_per_layer, i) == h.layer(other_types, other_heads, j),
{
}

/// The heads that a layer is given show in that layer alone, and in its heads alone.
pub proof fn law_given_heads_show_in_their_layer(
    h: &HybridAttention,
    layer_types: Seq<String>,
    heads_per_layer: Seq<usize>,
    i: int,
    heads: usize,
    j: int,
)
    requires
        0 <= i < heads_per_layer.len(),
        0 <= j,
    ensures
        h.layer(layer_types, heads_per_layer.update(i, heads), j) == (if j == i {
            LayerAttentionSpec {
                num_heads: heads,
                ..h.layer(layer_types, heads_per_layer, i)
            }
        } else {
            h.layer(layer_types, heads_per_layer, j)
        }),
{
}

/// Naming one more layer as dense takes the mixture from that layer and from no
/// other.
pub proof fn law_naming_a_dense_layer_changes_it_alone(
    num_layers: nat,
    dense: Seq<usize>,
    spec: MoESpec,
    layer: usize,
)
    requires
        layer < num_layers <= usize::MAX,
    ensures
        mixed_layers(num_layers, dense.push(layer), spec) == mixed_layers(
            num_layers,
            dense,
            spec,
        ).update(layer as int, None),
        mixed_layers(num_layers, Seq::empty(), spec) == Seq::new(num_layers, |i: int| Some(spec)),
{
    let more = dense.push(layer);
    assert forall|i: int| 0 <= i < num_layers implies (#[trigger] more.contains(i as usize)
        <==> dense.contains(i as usize) || i == layer) by {
        if dense.contains(i as usize) {
            let k = choose|k: int| 0 <= k < dense.len() && dense[k] == i as usize;
            assert(more[k] == i as usize);
        }
        if i == layer {
            assert(more[dense.len() as int] == layer);
        }
        if more.contains(i as usize) && i != layer {
            let k = choose|k: int| 0 <= k < more.len() && more[k] == i as usize;
            assert(dense[k] == i as usize);
        }
    }
    assert(mixed_layers(num_layers, more, spec) =~= mixed_layers(num_layers, dense, spec).update(
        layer as int,
        None,
    ));
    assert(mixed_layers(num_layers, Seq::empty(), spec) =~= Seq::new(
        num_layers,
        |i: int| Some(spec),
    ));
}

} // verus!
