//! Where the gates of the recurrence start, and the file beside a model that
//! keeps them.

use crate::flags::same_text;
use crate::scalar::{Number, Relation, ScalarOp, Scalars};
use vstd::prelude::*;

verus! {

impl<T: Copy, F: Fn(ScalarOp, T, T) -> T, C: Fn(Number) -> T, Z: Fn(Relation, T, T) -> bool> Scalars<T, F, C, Z> {
    /// One half.
    pub open spec fn half(&self) -> T {
        self.over(self.one(), self.number(2))
    }

    /// The decay whose half-life is as many tokens as a head has channels.
    pub open spec fn neutral_decay(&self, head_dim: usize) -> T {
        self.exp(
            self.over(
                self.negated(self.ln(self.number(2))),
                self.number(if head_dim < 1 { 1 } else { head_dim }),
            ),
        )
    }

    /// How deep layer `ordinal` of `n` lies, from zero to one.
    pub open spec fn depth_of(&self, ordinal: int, n: nat) -> T {
        if n <= 1 {
            self.zero()
        } else {
            self.over(self.number(ordinal as usize), self.number((n - 1) as usize))
        }
    }

    /// The half-life at a depth: eight tokens, doubled up to three times.
    pub open spec fn half_life(&self, depth: T) -> T {
        self.times(
            self.number(8),
            self.power(self.number(2), self.times(self.number(3), depth)),
        )
    }

    /// The decay at a depth.
    pub open spec fn depth_decay(&self, depth: T) -> T {
        self.power(self.half(), self.over(self.one(), self.half_life(depth)))
    }
}

/// The gates that a layer starts with: decay, erase and write.
pub fn gdl_gate_defaults<
    T: Copy,
    F: Fn(ScalarOp, T, T) -> T,
    C: Fn(Number) -> T,
    Z: Fn(Relation, T, T) -> bool,
>(x: &Scalars<T, F, C, Z>, head_dim: usize) -> (g: [T; 3])
    requires
        x.wf(),
    ensures
        g@ == seq![x.neutral_decay(head_dim), x.half(), x.half()],
{
    let d = x.number(
        if head_dim < 1 {
            1
        } else {
            head_dim
        },
    );
    let half = x.over(x.one(), x.number(2));
    let g = [x.exp(x.over(x.negated(x.ln(x.number(2))), d)), half, half];
    proof {
        assert(g@ =~= seq![x.neutral_decay(head_dim), x.half(), x.half()]);
    }
    g
}

/// The gates that the recurrent layers start with: the deeper a layer lies among
/// them, the longer it remembers.
pub fn tc_depth_scaled_gates<
    T: Copy,
    F: Fn(ScalarOp, T, T) -> T,
    C: Fn(Number) -> T,
    Z: Fn(Relation, T, T) -> bool,
>(x: &Scalars<T, F, C, Z>, num_layers: usize, gdl_layers: &[usize], head_dim: usize) -> (g: Vec<
    [T; 3],
>)
    requires
        x.wf(),
    ensures
        g@.len() == gdl_layers@.len(),
        forall|i: int|
            0 <= i < g@.len() ==> #[trigger] g@[i]@ == seq![
                x.depth_decay(x.depth_of(i, gdl_layers@.len())),
                x.half(),
                x.half(),
            ],
{
    let n: usize = gdl_layers.len();
    let half = x.over(x.one(), x.number(2));
    let mut g: Vec<[T; 3]> = Vec::new();
    for i in 0..n
        invariant
            x.wf(),
            n == gdl_layers@.len(),
            half == x.half(),
            g@.len() == i,
            forall|k: int|
                0 <= k < i ==> #[trigger] g@[k]@ == seq![
                    x.depth_decay(x.depth_of(k, gdl_layers@.len())),
                    x.half(),
                    x.half(),
                ],
    {
        let depth = if n <= 1 {
            x.zero()
        } else {
            x.over(x.number(i), x.number(n - 1))
        };
        let half_life = x.times(x.number(8), x.power(x.number(2), x.times(x.number(3), depth)));
        let gates = [x.power(half, x.over(x.one(), half_life)), half, half];
        proof {
            assert(gates@ =~= seq![
                x.depth_decay(x.depth_of(i as int, gdl_layers@.len())),
                x.half(),
                x.half(),
            ]);
        }
        g.push(gates);
    }
    g
}

impl<T: Copy, F: Fn(ScalarOp, T, T) -> T, C: Fn(Number) -> T, Z: Fn(Relation, T, T) -> bool> Scalars<T, F, C, Z> {
    /// Quotients, products and powers grow and shrink as those of real numbers
    /// do.
    pub open spec fn powers_grow(&self) -> bool {
        &&& forall|i: usize, j: usize, n: usize|
            i < j && 0 < n ==> #[trigger] self.above(
                self.over(self.number(j), self.number(n)),
                self.over(self.number(i), self.number(n)),
            )
        &&& forall|n: usize, a: T, b: T|
            0 < n && self.above(a, b) ==> #[trigger] self.above(
                self.times(self.number(n), a),
                self.times(self.number(n), b),
            )
        &&& forall|n: usize, a: T|
            0 < n && self.above(a, self.zero()) ==> self.above(
                #[trigger] self.times(self.number(n), a),
                self.zero(),
            )
        &&& forall|a: T| self.above(#[trigger] self.power(self.number(2), a), self.zero())
        &&& forall|a: T, b: T|
            self.above(a, b) ==> #[trigger] self.above(
                self.power(self.number(2), a),
                self.power(self.number(2), b),
            )
        &&& forall|a: T, b: T|
            self.above(a, b) && self.above(b, self.zero()) ==> #[trigger] self.above(
                self.over(self.one(), b),
                self.over(self.one(), a),
            )
        &&& forall|a: T, b: T|
            self.above(a, b) ==> #[trigger] self.above(
                self.power(self.half(), b),
                self.power(self.half(), a),
            )
    }
}

/// The deeper a layer lies among `n`, the slower it forgets.
pub proof fn law_deeper_layers_remember_longer<
    T: Copy,
    F: Fn(ScalarOp, T, T) -> T,
    C: Fn(Number) -> T,
    Z: Fn(Relation, T, T) -> bool,
>(x: &Scalars<T, F, C, Z>, n: nat, i: int, j: int)
    requires
        x.powers_grow(),
        0 <= i < j < n <= usize::MAX,
    ensures
        x.above(x.depth_decay(x.depth_of(j, n)), x.depth_decay(x.depth_of(i, n))),
{
    let (a, b) = (x.depth_of(j, n), x.depth_of(i, n));
    assert(x.above(a, b)) by {
        assert(x.above(
            x.over(x.number(j as usize), x.number((n - 1) as usize)),
            x.over(x.number(i as usize), x.number((n - 1) as usize)),
        ));
    }
    let (ta, tb) = (x.times(x.number(3), a), x.times(x.number(3), b));
    assert(x.above(ta, tb));
    assert(x.above(x.power(x.number(2), ta), x.power(x.number(2), tb)));
    assert(x.above(x.half_life(a), x.half_life(b)));
    assert(x.above(x.half_life(b), x.zero()));
    assert(x.above(x.over(x.one(), x.half_life(b)), x.over(x.one(), x.half_life(a))));
}

/// The projections behind one layer's gates: erase, write and decay, each with a row of
/// weights and a bias per channel.
#[derive(Debug, Clone)]
pub struct LayerGateProjections<S> {
    pub b_weight: Vec<Vec<S>>,
    pub b_bias: Vec<S>,
    pub w_weight: Vec<Vec<S>>,
    pub w_bias: Vec<S>,
    pub f_weight: Vec<Vec<S>>,
    pub f_bias: Vec<S>,
}

/// What is kept beside a model: the gates of each layer, and its gate
/// projections where they were trained.
#[derive(Debug, Clone)]
pub struct GraveSidecar<T, S> {
    pub format: String,
    pub arch: String,
    pub layers: usize,
    pub heads: usize,
    pub head_dim: usize,
    pub layer_gates: Vec<[T; 3]>,
    pub layer_projections: Option<Vec<LayerGateProjections<S>>>,
}

impl<T: Copy, S> GraveSidecar<T, S> {
    /// A sidecar with fixed gates only.
    pub fn new(layers: usize, heads: usize, head_dim: usize, gates: &[[T; 3]]) -> (r: Self)
        requires
            gates@.len() == layers,
        ensures
            r.format@ == "grave-1"@,
            r.arch@ == "lfm2grave"@,
            r.layers == layers,
            r.heads == heads,
            r.head_dim == head_dim,
            r.layer_gates@ == gates@,
            r.layer_projections is None,
    {
        let mut layer_gates: Vec<[T; 3]> = Vec::new();
        for i in 0..gates.len()
            invariant
                layer_gates@ == gates@.subrange(0, i as int),
        {
            layer_gates.push(gates[i]);
            proof {
                assert(layer_gates@ =~= gates@.subrange(0, i + 1));
            }
        }
        proof {
            assert(layer_gates@ =~= gates@);
        }
        GraveSidecar {
            format: "grave-1".to_owned(),
            arch: "lfm2grave".to_owned(),
            layers,
            heads,
            head_dim,
            layer_gates,
            layer_projections: None,
        }
    }

    /// The format that the sidecar is saved under: one that carries projections
    /// says so, for readers that check what they read.
    pub open spec fn saved_format(&self) -> Seq<char> {
        if self.layer_projections is Some && self.format@ == "grave-1"@ {
            "grave-2"@
        } else {
            self.format@
        }
    }

    /// The sidecar as it is saved.
    pub fn to_save(self) -> (r: Self)
        ensures
            r.format@ == self.saved_format(),
            r.arch == self.arch,
            r.layers == self.layers,
            r.heads == self.heads,
            r.head_dim == self.head_dim,
            r.layer_gates == self.layer_gates,
            r.layer_projections == self.layer_projections,
    {
        let mut out = self;
        if out.layer_projections.is_some() && same_text(out.format.as_str(), "grave-1") {
            out.format = "grave-2".to_owned();
        }
        out
    }
}

/// The first of several recurrent layers halves what it holds in eight tokens, and
/// the last in sixty-four.
pub proof fn law_half_lives_span_three_doublings<
    T: Copy,
    F: Fn(ScalarOp, T, T) -> T,
    C: Fn(Number) -> T,
    Z: Fn(Relation, T, T) -> bool,
>(x: &Scalars<T, F, C, Z>, n: nat)
    requires
        x.exact(),
        1 < n,
        n <= usize::MAX,
        x.number(0) == x.zero(),
        x.unit(x.number((n - 1) as usize)),
        x.power(x.number(2), x.zero()) == x.one(),
        x.power(x.number(2), x.number(3)) == x.number(8),
        x.times(x.number(8), x.number(8)) == x.number(64),
    ensures
        x.half_life(x.depth_of(0, n)) == x.number(8),
        x.half_life(x.depth_of(n - 1, n)) == x.number(64),
{
    let last = x.number((n - 1) as usize);
    let (a, b) = (x.depth_of(0, n), x.depth_of(n - 1, n));
    assert(x.times(a, last) == x.zero());
    assert(x.times(b, last) == x.number((n - 1) as usize));
    x.times_zero(last);
    x.unit_cancel(a, x.zero(), last);
    x.times_one(last);
    x.unit_cancel(b, x.one(), last);
    x.times_zero(x.number(3));
    x.times_one(x.number(3));
    x.times_one(x.number(8));
}

/// A number multiplied with itself `n` times over.
pub open spec fn after_steps<
    T: Copy,
    F: Fn(ScalarOp, T, T) -> T,
    C: Fn(Number) -> T,
    Z: Fn(Relation, T, T) -> bool,
>(x: &Scalars<T, F, C, Z>, decay: T, n: nat) -> T
    decreases n,
{
    if n <= 1 {
        decay
    } else {
        x.times(after_steps(x, decay, (n - 1) as nat), decay)
    }
}

/// A number added to itself `n` times over.
pub open spec fn in_all<
    T: Copy,
    F: Fn(ScalarOp, T, T) -> T,
    C: Fn(Number) -> T,
    Z: Fn(Relation, T, T) -> bool,
>(x: &Scalars<T, F, C, Z>, part: T, n: nat) -> T
    decreases n,
{
    if n <= 1 {
        part
    } else {
        x.plus(in_all(x, part, (n - 1) as nat), part)
    }
}

proof fn lemma_steps_add_up<
    T: Copy,
    F: Fn(ScalarOp, T, T) -> T,
    C: Fn(Number) -> T,
    Z: Fn(Relation, T, T) -> bool,
>(x: &Scalars<T, F, C, Z>, rate: T, n: nat)
    requires
        forall|a: T, b: T|
            #[trigger] x.times(x.exp(a), x.exp(b)) == x.exp(x.plus(a, b)),
    ensures
        after_steps(x, x.exp(rate), n) == x.exp(in_all(x, rate, n)),
    decreases n,
{
    if n > 1 {
        lemma_steps_add_up(x, rate, (n - 1) as nat);
    }
}

/// The decay that a head starts with halves what it holds in as many tokens as the
/// head has channels: where exponentials turn sums into products and as many parts
/// of a number as it is divided into make it up again, that many decays in a row
/// leave one half.
pub proof fn law_neutral_decay_halves_over_the_head<
    T: Copy,
    F: Fn(ScalarOp, T, T) -> T,
    C: Fn(Number) -> T,
    Z: Fn(Relation, T, T) -> bool,
>(x: &Scalars<T, F, C, Z>, head_dim: usize)
    requires
        head_dim > 0,
        forall|a: T, b: T|
            #[trigger] x.times(x.exp(a), x.exp(b)) == x.exp(x.plus(a, b)),
        forall|a: T| in_all(x, #[trigger] x.over(a, x.number(head_dim)), head_dim as nat) == a,
        x.exp(x.negated(x.ln(x.number(2)))) == x.half(),
    ensures
        after_steps(x, x.neutral_decay(head_dim), head_dim as nat) == x.half(),
{
    lemma_steps_add_up(
        x,
        x.over(x.negated(x.ln(x.number(2))), x.number(head_dim)),
        head_dim as nat,
    );
}

/// The decay at a depth leaves one half after the half-life of that depth, where
/// powers of powers are powers of products.
pub proof fn law_depth_decay_halves_in_a_half_life<
    T: Copy,
    F: Fn(ScalarOp, T, T) -> T,
    C: Fn(Number) -> T,
    Z: Fn(Relation, T, T) -> bool,
>(x: &Scalars<T, F, C, Z>, depth: T)
    requires
        x.exact(),
        x.unit(x.half_life(depth)),
        forall|a: T, b: T, c: T|
            #[trigger] x.power(x.power(a, b), c) == x.power(a, x.times(b, c)),
        forall|a: T| #[trigger] x.power(a, x.one()) == a,
    ensures
        x.power(x.depth_decay(depth), x.half_life(depth)) == x.half(),
{
    let life = x.half_life(depth);
    assert(x.times(x.over(x.one(), life), life) == x.one());
}

} // verus!
