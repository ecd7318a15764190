//! Running the stages of a forward pass on rows held by the host.

use crate::kernels::cap_logit;
use crate::rows::copy_range;
use crate::scalar::{fill_row, Number, Relation, ScalarOp, Scalars};
use crate::stages::{PassDesign, Stage};
use vstd::prelude::*;

verus! {

/// What a pass works on: the rows so far, and what it leaves with the session.
#[derive(Debug)]
pub struct PassState<T> {
    pub rows: Vec<T>,
    /// The rows handed to the session.
    pub hidden: Option<Vec<T>>,
    /// How far the session is.
    pub position: usize,
}

/// What a pass holds.
#[verifier::ext_equal]
pub struct PassValues<T> {
    pub rows: Seq<T>,
    pub hidden: Option<Seq<T>>,
    pub position: int,
}

impl<T> PassState<T> {
    /// What the pass holds.
    pub open spec fn held(&self) -> PassValues<T> {
        PassValues {
            rows: self.rows@,
            hidden: match self.hidden {
                Some(h) => Some(h@),
                None => None,
            },
            position: self.position as int,
        }
    }
}

/// `after` is what `apply` makes of `before` at a stage.
pub open spec fn stage_applied<T, G: Fn(Stage, Vec<T>) -> Vec<T>>(
    apply: G,
    stage: Stage,
    before: Seq<T>,
    after: Seq<T>,
) -> bool {
    exists|a: Vec<T>, r: Vec<T>|
        a@ == before && r@ == after && #[trigger] call_ensures(apply, (stage, a), r)
}

impl<T: Copy, F: Fn(ScalarOp, T, T) -> T, C: Fn(Number) -> T, Z: Fn(Relation, T, T) -> bool> Scalars<T, F, C, Z> {
    /// What one stage turns a pass into.
    pub open spec fn staged<G: Fn(Stage, Vec<T>) -> Vec<T>>(
        &self,
        apply: G,
        stage: Stage,
        before: PassValues<T>,
        after: PassValues<T>,
    ) -> bool {
        match stage {
            Stage::ScaleBySqrt(width) => after == (PassValues {
                rows: Seq::new(
                    before.rows.len(),
                    |i: int| self.times(before.rows[i], self.root(self.number(width))),
                ),
                ..before
            }),
            Stage::KeepHidden => after == (PassValues { hidden: Some(before.rows), ..before }),
            Stage::Softcap(cap) => after == (PassValues {
                rows: Seq::new(
                    before.rows.len(),
                    |i: int| self.capped(self.constant(cap.bits), before.rows[i]),
                ),
                ..before
            }),
            Stage::Advance(tokens) => after == (PassValues {
                position: before.position + tokens,
                ..before
            }),
            _ => stage_applied(apply, stage, before.rows, after.rows) && after == (PassValues {
                rows: after.rows,
                ..before
            }),
        }
    }

    /// `trace` holds what a pass holds before and after every stage.
    pub open spec fn pass_ran<G: Fn(Stage, Vec<T>) -> Vec<T>>(
        &self,
        apply: G,
        stages: Seq<Stage>,
        trace: Seq<PassValues<T>>,
    ) -> bool {
        &&& trace.len() == stages.len() + 1
        &&& forall|i: int|
            0 <= i < stages.len() ==> self.staged(
                apply,
                #[trigger] stages[i],
                trace[i],
                trace[i + 1],
            )
    }

    /// The stages, run in order, lead from one state of a pass to another.
    pub open spec fn pass_done<G: Fn(Stage, Vec<T>) -> Vec<T>>(
        &self,
        apply: G,
        stages: Seq<Stage>,
        before: PassValues<T>,
        after: PassValues<T>,
    ) -> bool {
        exists|trace: Seq<PassValues<T>>| #[trigger]
            self.pass_ran(apply, stages, trace) && trace[0] == before && trace.last() == after
    }
}

/// Runs one stage.
fn run_stage<
    T: Copy,
    F: Fn(ScalarOp, T, T) -> T,
    C: Fn(Number) -> T,
    Z: Fn(Relation, T, T) -> bool,
    G: Fn(Stage, Vec<T>) -> Vec<T>,
>(x: &Scalars<T, F, C, Z>, stage: Stage, state: &mut PassState<T>, apply: &G)
    requires
        x.wf(),
        forall|s: Stage, a: Vec<T>| #[trigger] call_requires(*apply, (s, a)),
        stage matches Stage::Advance(tokens) ==> old(state).position + tokens <= usize::MAX,
    ensures
        x.staged(*apply, stage, old(state).held(), final(state).held()),
{
    let n: usize = state.rows.len();
    let rows = copy_range(state.rows.as_slice(), 0, n);
    assert(rows@ =~= state.rows@);
    match stage {
        Stage::ScaleBySqrt(width) => {
            let by = x.root(x.number(width));
            let ghost cell = |i: int| x.times(rows@[i], by);
            state.rows = fill_row(
                n,
                |i: usize| -> (o: T)
                    requires
                        i < n,
                    ensures
                        o == cell(i as int)
                    { x.times(rows[i], by) },
                Ghost(cell),
            );
            assert(state.rows@ =~= Seq::new(
                rows@.len(),
                |i: int| x.times(rows@[i], x.root(x.number(width))),
            ));
        },
        Stage::KeepHidden => {
            state.hidden = Some(rows);
        },
        Stage::Softcap(cap) => {
            let by = x.constant(cap.bits);
            let ghost cell = |i: int| x.capped(by, rows@[i]);
            state.rows = fill_row(
                n,
                |i: usize| -> (o: T)
                    requires
                        i < n,
                    ensures
                        o == cell(i as int)
                    { cap_logit(x, by, rows[i]) },
                Ghost(cell),
            );
            assert(state.rows@ =~= Seq::new(
                rows@.len(),
                |i: int| x.capped(x.constant(cap.bits), rows@[i]),
            ));
        },
        Stage::Advance(tokens) => {
            state.position = state.position + tokens;
        },
        _ => {
            let ghost given = (stage, rows);
            let r = apply(stage, rows);
            assert(call_ensures(*apply, given, r));
            state.rows = r;
        },
    }
}

/// How many tokens some stages move a session on by.
pub open spec fn advanced(stages: Seq<Stage>) -> nat
    decreases stages.len(),
{
    if stages.len() == 0 {
        0
    } else {
        advanced(stages.drop_last()) + match stages.last() {
            Stage::Advance(tokens) => tokens as nat,
            _ => 0,
        }
    }
}

proof fn lemma_advanced_grows(stages: Seq<Stage>, i: int)
    requires
        0 <= i < stages.len(),
    ensures
        advanced(stages.take(i + 1)) == advanced(stages.take(i)) + match stages[i] {
            Stage::Advance(tokens) => tokens as nat,
            _ => 0,
        },
        advanced(stages.take(i + 1)) <= advanced(stages),
    decreases stages.len() - i,
{
    assert(stages.take(i + 1).drop_last() =~= stages.take(i));
    if i + 1 < stages.len() {
        lemma_advanced_grows(stages, i + 1);
    } else {
        assert(stages.take(i + 1) =~= stages);
    }
}

/// Runs the stages of a pass for a session at `position`.
///
/// `apply` looks tokens up, adds positions, runs layers, norms and the head.
pub fn run_pass<
    T: Copy,
    F: Fn(ScalarOp, T, T) -> T,
    C: Fn(Number) -> T,
    Z: Fn(Relation, T, T) -> bool,
    G: Fn(Stage, Vec<T>) -> Vec<T>,
>(x: &Scalars<T, F, C, Z>, stages: &[Stage], position: usize, apply: G) -> (state: PassState<T>)
    requires
        x.wf(),
        forall|s: Stage, a: Vec<T>| #[trigger] call_requires(apply, (s, a)),
        position + advanced(stages@) <= usize::MAX,
    ensures
        x.pass_done(
            apply,
            stages@,
            (PassValues { rows: Seq::empty(), hidden: None, position: position as int }),
            state.held(),
        ),
        state.position == position + advanced(stages@),
{
    let n: usize = stages.len();
    let mut state = PassState { rows: Vec::new(), hidden: None, position };
    let ghost mut trace: Seq<PassValues<T>> = seq![state.held()];
    let ghost first = PassValues::<T> {
        rows: Seq::empty(),
        hidden: None,
        position: position as int,
    };
    assert(state.held() =~= first);
    for i in 0..n
        invariant
            x.wf(),
            n == stages@.len(),
            forall|s: Stage, a: Vec<T>| #[trigger] call_requires(apply, (s, a)),
            position + advanced(stages@) <= usize::MAX,
            trace.len() == i + 1,
            trace[0] == first,
            trace.last() == state.held(),
            state.position == position + advanced(stages@.take(i as int)),
            forall|j: int|
                0 <= j < i ==> x.staged(apply, #[trigger] stages@[j], trace[j], trace[j + 1]),
    {
        proof {
            lemma_advanced_grows(stages@, i as int);
        }
        run_stage(x, stages[i], &mut state, &apply);
        proof {
            trace = trace.push(state.held());
        }
    }
    proof {
        assert(stages@.take(n as int) =~= stages@);
        assert(x.pass_ran(apply, stages@, trace));
    }
    state
}

proof fn lemma_advanced_parts(a: Seq<Stage>, b: Seq<Stage>)
    ensures
        advanced(a + b) == advanced(a) + advanced(b),
    decreases b.len(),
{
    if b.len() == 0 {
        assert(a + b =~= a);
    } else {
        assert((a + b).drop_last() =~= a + b.drop_last());
        lemma_advanced_parts(a, b.drop_last());
    }
}

proof fn lemma_layers_stand_still(stages: Seq<Stage>)
    requires
        forall|i: int| 0 <= i < stages.len() ==> !((#[trigger] stages[i]) is Advance),
    ensures
        advanced(stages) == 0,
    decreases stages.len(),
{
    if stages.len() > 0 {
        lemma_layers_stand_still(stages.drop_last());
    }
}

/// A pass moves its session on by the tokens that it read, once, or not at all.
pub proof fn law_pass_advances_once(design: &PassDesign, tokens: usize)
    ensures
        advanced(design.stages(tokens)) == (if design.advances {
            tokens as nat
        } else {
            0
        }),
{
    let lead = design.lead();
    let layers = Seq::new(design.layers as nat, |i: int| Stage::Layer(i as usize));
    let tail = design.tail(tokens);
    lemma_advanced_parts(lead + layers, tail);
    lemma_layers_stand_still(lead + layers);
    if design.advances {
        lemma_layers_stand_still(tail.drop_last());
    } else {
        lemma_layers_stand_still(tail);
    }
}

} // verus!
