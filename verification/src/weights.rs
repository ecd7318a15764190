//! Weight plans: which tensors a model asks its weight source for, under which
//! names, in which shapes and in which order.

use crate::text::{decimal, dotted, push_index, push_part};
use vstd::prelude::*;

verus! {

/// Where a weight lies below the source's root. Empty parts are left out.
#[derive(Debug, Clone, Copy)]
pub struct WeightPath {
    pub base: &'static str,
    pub layer: Option<usize>,
    pub scope: &'static str,
    pub expert: Option<usize>,
    pub leaf: &'static str,
}

/// A name with an optional index behind it.
pub open spec fn with_index(prefix: Seq<char>, index: Option<usize>) -> Seq<char> {
    match index {
        Some(i) => dotted(prefix, decimal(i as nat)),
        None => prefix,
    }
}

impl WeightPath {
    /// The parts joined by dots.
    pub open spec fn spec_name(self) -> Seq<char> {
        dotted(
            with_index(
                dotted(with_index(self.base@, self.layer), self.scope@),
                self.expert,
            ),
            self.leaf@,
        )
    }

    /// The dotted name of the weight's scope.
    pub fn name(&self) -> (name: String)
        ensures
            name@ == self.spec_name(),
    {
        let mut s = String::new();
        push_part(&mut s, self.base);
        assert(s@ =~= self.base@);
        if let Some(i) = self.layer {
            push_index(&mut s, i);
        }
        push_part(&mut s, self.scope);
        if let Some(e) = self.expert {
            push_index(&mut s, e);
        }
        push_part(&mut s, self.leaf);
        s
    }
}

/// What is asked for under a path.
#[derive(Debug, Clone, Copy)]
pub enum Weight {
    /// A projection given by its input and output widths.
    Linear { inputs: usize, outputs: usize, bias: bool },
    /// A projection whose outputs are spread over the devices.
    ColumnParallel { inputs: usize, outputs: usize, bias: bool },
    /// A projection whose inputs are spread over the devices.
    RowParallel { inputs: usize, outputs: usize, bias: bool },
    /// A projection given by its stored shape.
    LinearShape { d0: usize, d1: usize },
    /// A root-mean-square norm.
    RmsNorm { dim: usize },
    /// A layer norm with an optional bias.
    LayerNorm { dim: usize },
    /// An embedding table.
    Embedding { rows: usize, dim: usize },
    /// A bare tensor of rank one.
    Tensor1 { d0: usize },
    /// A bare tensor of rank two.
    Tensor2 { d0: usize, d1: usize },
    /// A bare tensor of rank three.
    Tensor3 { d0: usize, d1: usize, d2: usize },
}

/// What happens where nothing under the asked paths can be loaded.
#[derive(Debug, Clone, Copy)]
pub enum Fallback {
    /// The load fails.
    Fail,
    /// The weight is left out.
    Skip,
    /// The token embedding stands in, as it is stored.
    TiedEmbedding,
    /// The transposed token embedding stands in.
    TiedTransposed,
}

/// One path tried for a weight.
#[derive(Debug, Clone, Copy)]
pub struct Attempt {
    pub path: WeightPath,
    pub weight: Weight,
}

/// One weight: the paths tried in turn, and what happens where all fail.
#[derive(Debug, Clone, Copy)]
pub struct LoadStep {
    pub first: Attempt,
    pub second: Option<Attempt>,
    pub fallback: Fallback,
}

/// What loading a weight does next.
#[derive(Debug, Clone, Copy, PartialEq, Eq, Structural)]
pub enum LoadAction {
    /// Take what was found.
    Use,
    /// Look under the second name.
    TrySecond,
    /// Give up, and loading with it.
    Fail,
    /// Go on without the weight.
    Skip,
    /// Take the token table.
    TieEmbedding,
    /// Take the token table, transposed.
    TieTransposed,
}

impl LoadStep {
    /// What stands in for a weight that is not there.
    pub open spec fn stand_in(&self) -> LoadAction {
        match self.fallback {
            Fallback::Fail => LoadAction::Fail,
            Fallback::Skip => LoadAction::Skip,
            Fallback::TiedEmbedding => LoadAction::TieEmbedding,
            Fallback::TiedTransposed => LoadAction::TieTransposed,
        }
    }

    /// What follows a look under the first name.
    pub fn after_first(&self, found: bool) -> (action: LoadAction)
        ensures
            action == (if found {
                LoadAction::Use
            } else if self.second is Some {
                LoadAction::TrySecond
            } else {
                self.stand_in()
            }),
    {
        if found {
            LoadAction::Use
        } else if self.second.is_some() {
            LoadAction::TrySecond
        } else {
            self.after_second(false)
        }
    }

    /// What follows a look under the second name.
    pub fn after_second(&self, found: bool) -> (action: LoadAction)
        ensures
            action == (if found {
                LoadAction::Use
            } else {
                self.stand_in()
            }),
    {
        if found {
            LoadAction::Use
        } else {
            match self.fallback {
                Fallback::Fail => LoadAction::Fail,
                Fallback::Skip => LoadAction::Skip,
                Fallback::TiedEmbedding => LoadAction::TieEmbedding,
                Fallback::TiedTransposed => LoadAction::TieTransposed,
            }
        }
    }
}

/// A path without layer or expert.
#[verifier::allow_in_spec]
pub fn plain(base: &'static str, leaf: &'static str) -> WeightPath
    returns
        (WeightPath { base: base, layer: None, scope: "", expert: None, leaf: leaf }),
{
    WeightPath { base: base, layer: None, scope: "", expert: None, leaf: leaf }
}

/// A path inside a layer.
#[verifier::allow_in_spec]
pub fn in_layer(
    base: &'static str,
    layer: usize,
    scope: &'static str,
    leaf: &'static str,
) -> WeightPath
    returns
        (WeightPath { base: base, layer: Some(layer), scope: scope, expert: None, leaf: leaf }),
{
    WeightPath { base: base, layer: Some(layer), scope: scope, expert: None, leaf: leaf }
}

/// A path inside an expert of a layer.
#[verifier::allow_in_spec]
pub fn in_expert(
    base: &'static str,
    layer: usize,
    scope: &'static str,
    expert: usize,
    leaf: &'static str,
) -> WeightPath
    returns
        (WeightPath {
            base: base,
            layer: Some(layer),
            scope: scope,
            expert: Some(expert),
            leaf: leaf,
        }),
{
    WeightPath { base: base, layer: Some(layer), scope: scope, expert: Some(expert), leaf: leaf }
}

/// A weight that has to be there.
#[verifier::allow_in_spec]
pub fn required(path: WeightPath, weight: Weight) -> LoadStep
    returns
        (LoadStep {
            first: Attempt { path: path, weight: weight },
            second: None,
            fallback: Fallback::Fail,
        }),
{
    LoadStep {
        first: Attempt { path: path, weight: weight },
        second: None,
        fallback: Fallback::Fail,
    }
}

/// A weight with another path to try, which has to be under one of them.
#[verifier::allow_in_spec]
pub fn either(path: WeightPath, weight: Weight, other: WeightPath, other_weight: Weight) -> LoadStep
    returns
        (LoadStep {
            first: Attempt { path: path, weight: weight },
            second: Some(Attempt { path: other, weight: other_weight }),
            fallback: Fallback::Fail,
        }),
{
    LoadStep {
        first: Attempt { path: path, weight: weight },
        second: Some(Attempt { path: other, weight: other_weight }),
        fallback: Fallback::Fail,
    }
}

/// A weight with a stand-in.
#[verifier::allow_in_spec]
pub fn optional(path: WeightPath, weight: Weight, fallback: Fallback) -> LoadStep
    returns
        (LoadStep {
            first: Attempt { path: path, weight: weight },
            second: None,
            fallback: fallback,
        }),
{
    LoadStep { first: Attempt { path: path, weight: weight }, second: None, fallback: fallback }
}

/// The weights of one gated feed-forward part.
#[derive(Debug, Clone, Copy)]
pub struct GatedNames {
    pub gate: &'static str,
    pub up: &'static str,
    pub down: &'static str,
}

/// The usual names of a gated feed-forward part.
#[verifier::allow_in_spec]
pub fn proj_names() -> GatedNames
    returns
        (GatedNames { gate: "gate_proj", up: "up_proj", down: "down_proj" }),
{
    GatedNames { gate: "gate_proj", up: "up_proj", down: "down_proj" }
}

/// A projection given by its stored shape, which has to be there.
#[verifier::allow_in_spec]
pub fn linear_shape(path: WeightPath, d0: usize, d1: usize) -> LoadStep
    returns
        required(path, Weight::LinearShape { d0, d1 }),
{
    required(path, Weight::LinearShape { d0, d1 })
}

/// A root-mean-square norm, which has to be there.
#[verifier::allow_in_spec]
pub fn rms_norm(path: WeightPath, dim: usize) -> LoadStep
    returns
        required(path, Weight::RmsNorm { dim }),
{
    required(path, Weight::RmsNorm { dim })
}

/// The weights of a gated feed-forward part of a layer.
pub open spec fn gated_plan(
    base: &'static str,
    layer: usize,
    scope: &'static str,
    hidden: usize,
    inter: usize,
    names: GatedNames,
) -> Seq<LoadStep> {
    seq![
        linear_shape(in_layer(base, layer, scope, names.gate), hidden, inter),
        linear_shape(in_layer(base, layer, scope, names.up), hidden, inter),
        linear_shape(in_layer(base, layer, scope, names.down), inter, hidden),
    ]
}

/// Adds the weights of a gated feed-forward part of a layer.
pub fn push_gated(
    plan: &mut Vec<LoadStep>,
    base: &'static str,
    layer: usize,
    scope: &'static str,
    hidden: usize,
    inter: usize,
    names: GatedNames,
)
    ensures
        final(plan)@ == old(plan)@ + gated_plan(base, layer, scope, hidden, inter, names),
{
    plan.push(linear_shape(in_layer(base, layer, scope, names.gate), hidden, inter));
    plan.push(linear_shape(in_layer(base, layer, scope, names.up), hidden, inter));
    plan.push(linear_shape(in_layer(base, layer, scope, names.down), inter, hidden));
    assert(plan@ =~= old(plan)@ + gated_plan(base, layer, scope, hidden, inter, names));
}

/// The weights of one gated expert of a layer.
pub open spec fn expert_plan(
    base: &'static str,
    layer: usize,
    scope: &'static str,
    expert: usize,
    hidden: usize,
    inter: usize,
    names: GatedNames,
) -> Seq<LoadStep> {
    seq![
        linear_shape(in_expert(base, layer, scope, expert, names.gate), hidden, inter),
        linear_shape(in_expert(base, layer, scope, expert, names.up), hidden, inter),
        linear_shape(in_expert(base, layer, scope, expert, names.down), inter, hidden),
    ]
}

/// The weights of the first `n` experts of a layer, expert by expert.
pub open spec fn experts_plan(
    base: &'static str,
    layer: usize,
    scope: &'static str,
    n: nat,
    hidden: usize,
    inter: usize,
    names: GatedNames,
) -> Seq<LoadStep>
    decreases n,
{
    if n == 0 {
        Seq::empty()
    } else {
        experts_plan(base, layer, scope, (n - 1) as nat, hidden, inter, names) + expert_plan(
            base,
            layer,
            scope,
            (n - 1) as usize,
            hidden,
            inter,
            names,
        )
    }
}

/// Adds the weights of the first `n` experts of a layer.
pub fn push_experts(
    plan: &mut Vec<LoadStep>,
    base: &'static str,
    layer: usize,
    scope: &'static str,
    n: usize,
    hidden: usize,
    inter: usize,
    names: GatedNames,
)
    ensures
        final(plan)@ == old(plan)@ + experts_plan(
            base,
            layer,
            scope,
            n as nat,
            hidden,
            inter,
            names,
        ),
{
    let mut e: usize = 0;
    assert(plan@ =~= old(plan)@ + experts_plan(base, layer, scope, 0, hidden, inter, names));
    while e < n
        invariant
            e <= n,
            plan@ == old(plan)@ + experts_plan(
                base,
                layer,
                scope,
                e as nat,
                hidden,
                inter,
                names,
            ),
        decreases n - e,
    {
        plan.push(linear_shape(in_expert(base, layer, scope, e, names.gate), hidden, inter));
        plan.push(linear_shape(in_expert(base, layer, scope, e, names.up), hidden, inter));
        plan.push(linear_shape(in_expert(base, layer, scope, e, names.down), inter, hidden));
        assert(plan@ =~= old(plan)@ + (experts_plan(
            base,
            layer,
            scope,
            e as nat,
            hidden,
            inter,
            names,
        ) + expert_plan(base, layer, scope, e, hidden, inter, names)));
        e = e + 1;
    }
}

/// The weights of a decoder, in the order in which they are asked for.
pub struct ModelPlan {
    /// The token table.
    pub tok_embeddings: LoadStep,
    /// The position table, where the model has one.
    pub positions: Option<LoadStep>,
    pub layers: Vec<Vec<LoadStep>>,
    /// The norm behind the last layer.
    pub norm: LoadStep,
    /// The head. Where it is not asked for, the token table is the head.
    pub output: Option<LoadStep>,
}

} // verus!
