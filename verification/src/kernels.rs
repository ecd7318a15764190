//! The arithmetic inside the layers: activations, norms, softmax attention,
//! expert mixing, and the cells of convolutions and scans.

use crate::block_program::Activation;
use crate::numeric::HALF;
use crate::scalar::{fill_row, Number, Relation, ScalarOp, Scalars};
use vstd::prelude::*;

verus! {

/// 0.797884, as a double-precision bit pattern.
pub const GELU_SLOPE_SHORT: u64 = 0x3fe9_8844_06c0_0da2;

/// 0.7978846, as a double-precision bit pattern.
pub const GELU_SLOPE: u64 = 0x3fe9_8845_48df_6ce3;

/// 0.044715, as a double-precision bit pattern.
pub const GELU_CUBIC: u64 = 0x3fa6_e4e2_6d48_01f7;

/// Pi, as a double-precision bit pattern.
pub const PI: u64 = 0x4009_21fb_5444_2d18;

impl<T: Copy, F: Fn(ScalarOp, T, T) -> T, C: Fn(Number) -> T, Z: Fn(Relation, T, T) -> bool> Scalars<T, F, C, Z> {
    /// `z / (1 + exp(-z))`.
    pub open spec fn silu_of(&self, z: T) -> T {
        self.over(z, self.plus(self.one(), self.exp(self.negated(z))))
    }

    /// The logistic function.
    pub open spec fn logistic_of(&self, z: T) -> T {
        self.over(self.one(), self.plus(self.one(), self.exp(self.negated(z))))
    }

    /// Half of `z`, times one plus the hyperbolic tangent of `inside`.
    pub open spec fn half_gate(&self, z: T, inside: T) -> T {
        self.times(
            self.times(self.constant(HALF), z),
            self.plus(self.one(), self.tanh(inside)),
        )
    }

    /// The third power.
    pub open spec fn cube(&self, z: T) -> T {
        self.times(self.times(z, z), z)
    }

    /// What an activation gives.
    pub open spec fn activated(&self, kind: Activation, z: T) -> T {
        match kind {
            Activation::Silu => self.silu_of(z),
            Activation::SiluSigmoid => self.times(z, self.logistic_of(z)),
            Activation::GeluFactored => self.half_gate(
                z,
                self.times(
                    self.times(z, self.constant(GELU_SLOPE_SHORT)),
                    self.plus(
                        self.one(),
                        self.times(self.times(self.constant(GELU_CUBIC), z), z),
                    ),
                ),
            ),
            Activation::GeluSeries => self.half_gate(
                z,
                self.times(
                    self.constant(GELU_SLOPE),
                    self.plus(
                        z,
                        self.times(self.times(self.times(self.constant(GELU_CUBIC), z), z), z),
                    ),
                ),
            ),
            Activation::GeluPower => self.half_gate(
                z,
                self.times(
                    self.constant(GELU_SLOPE),
                    self.plus(z, self.times(self.constant(GELU_CUBIC), self.cube(z))),
                ),
            ),
            Activation::GeluRoot => self.half_gate(
                z,
                self.times(
                    self.root(self.over(self.number(2), self.constant(PI))),
                    self.plus(z, self.times(self.constant(GELU_CUBIC), self.cube(z))),
                ),
            ),
        }
    }

    /// The largest of the first `n` scores.
    pub open spec fn highest(&self, scores: Seq<T>, n: nat) -> T
        decreases n,
    {
        if n == 0 {
            self.bottom()
        } else {
            self.larger(self.highest(scores, (n - 1) as nat), scores[n - 1])
        }
    }

    /// The exponentials of scores, measured from the largest.
    pub open spec fn exponentials_of(&self, scores: Seq<T>) -> Seq<T> {
        Seq::new(
            scores.len(),
            |i: int| self.exp(self.minus(scores[i], self.highest(scores, scores.len()))),
        )
    }

    /// The sum of a row.
    pub open spec fn row_sum(&self, row: Seq<T>) -> T {
        self.gathered(self.zero(), row.len(), |i: int| row[i])
    }

    /// Scores as weights; `floor` is added to the sum that they are divided by,
    /// where one is.
    pub open spec fn softmax_of(&self, scores: Seq<T>, floor: Option<T>) -> Seq<T> {
        let e = self.exponentials_of(scores);
        let total = match floor {
            Some(f) => self.plus(self.row_sum(e), f),
            None => self.row_sum(e),
        };
        Seq::new(scores.len(), |i: int| self.over(e[i], total))
    }

    /// The product of a row with the row of a table that starts at `at`.
    pub open spec fn dot_at(&self, row: Seq<T>, table: Seq<T>, at: int) -> T {
        self.gathered(
            self.zero(),
            row.len(),
            |d: int| self.times(row[d], table[at + d]),
        )
    }

    /// Rows of a table, weighed and added.
    pub open spec fn weighed_rows(&self, weights: Seq<T>, table: Seq<T>, dim: nat) -> Seq<T> {
        Seq::new(
            dim,
            |d: int|
                self.gathered(
                    self.zero(),
                    weights.len(),
                    |t: int| self.times(weights[t], table[t * dim + d]),
                ),
        )
    }

    /// One over the square root of a width.
    pub open spec fn score_scale(&self, width: usize) -> T {
        self.over(self.one(), self.root(self.number(width)))
    }

    /// A score, kept within a cap where there is one.
    pub open spec fn kept_within(&self, cap: Option<T>, v: T) -> T {
        match cap {
            Some(c) => self.capped(c, v),
            None => v,
        }
    }

    /// The scores of a query against `n` keys of one head, each kept within a
    /// cap where there is one.
    pub open spec fn head_scores(&self, cap: Option<T>, q: Seq<T>, keys: Seq<T>, n: nat) -> Seq<T> {
        Seq::new(
            n,
            |t: int|
                self.kept_within(
                    cap,
                    self.times(
                        self.dot_at(q, keys, t * q.len()),
                        self.score_scale(q.len() as usize),
                    ),
                ),
        )
    }

    /// What a query gives over `n` keys and values of one head: the values,
    /// weighed by the softmax over the scores.
    pub open spec fn attended(
        &self,
        cap: Option<T>,
        q: Seq<T>,
        keys: Seq<T>,
        values: Seq<T>,
        n: nat,
    ) -> Seq<T> {
        self.weighed_rows(
            self.softmax_of(self.head_scores(cap, q, keys, n), None),
            values,
            q.len(),
        )
    }

    /// `r` is what a query gives over all rows of keys and values.
    pub open spec fn attended_rows(
        &self,
        cap: Option<T>,
        q: Seq<T>,
        keys: Seq<T>,
        values: Seq<T>,
        r: Seq<T>,
    ) -> bool {
        &&& r.len() == q.len()
        &&& forall|n: nat|
            keys.len() == n * q.len() && values.len() == n * q.len() ==> r
                == #[trigger] self.attended(cap, q, keys, values, n)
    }

    /// What a query in two parts gives over `n` keys in two parts.
    pub open spec fn attended_in_parts(
        &self,
        q_nope: Seq<T>,
        q_rope: Seq<T>,
        k_nope: Seq<T>,
        k_rope: Seq<T>,
        values: Seq<T>,
        v_dim: nat,
        n: nat,
    ) -> Seq<T> {
        let scores = self.part_scores(q_nope, q_rope, k_nope, k_rope, n);
        self.weighed_rows(self.softmax_of(scores, Some(self.tiny())), values, v_dim)
    }

    /// The scores of a query in two parts against `n` keys in two parts.
    pub open spec fn part_scores(
        &self,
        q_nope: Seq<T>,
        q_rope: Seq<T>,
        k_nope: Seq<T>,
        k_rope: Seq<T>,
        n: nat,
    ) -> Seq<T> {
        Seq::new(
            n,
            |t: int|
                self.times(
                    self.plus(
                        self.dot_at(q_nope, k_nope, t * q_nope.len()),
                        self.dot_at(q_rope, k_rope, t * q_rope.len()),
                    ),
                    self.score_scale((q_nope.len() + q_rope.len()) as usize),
                ),
        )
    }

    /// `r` is what a query in two parts gives over all rows of keys and values.
    pub open spec fn attended_rows_in_parts(
        &self,
        q_nope: Seq<T>,
        q_rope: Seq<T>,
        k_nope: Seq<T>,
        k_rope: Seq<T>,
        values: Seq<T>,
        v_dim: nat,
        r: Seq<T>,
    ) -> bool {
        &&& r.len() == v_dim
        &&& forall|n: nat|
            k_nope.len() == n * q_nope.len() && k_rope.len() == n * q_rope.len() && values.len()
                == n * v_dim ==> r == #[trigger] self.attended_in_parts(
                q_nope,
                q_rope,
                k_nope,
                k_rope,
                values,
                v_dim,
                n,
            )
    }

    /// The weights of chosen experts: a softmax over their scores alone, times a
    /// factor where there is one.
    pub open spec fn expert_weights(
        &self,
        scores: Seq<T>,
        chosen: Seq<usize>,
        factor: Option<T>,
    ) -> Seq<T> {
        let picked = Seq::new(chosen.len(), |i: int| scores[chosen[i] as int]);
        let w = self.softmax_of(picked, Some(self.tiny()));
        match factor {
            Some(f) => Seq::new(w.len(), |i: int| self.times(w[i], f)),
            None => w,
        }
    }

    /// Expert outputs, weighed and added.
    pub open spec fn mixed_outputs(&self, weights: Seq<T>, outs: Seq<Vec<T>>, dim: nat) -> Seq<T> {
        Seq::new(
            dim,
            |d: int|
                self.gathered(
                    self.zero(),
                    outs.len(),
                    |i: int| self.times(weights[i], outs[i]@[d]),
                ),
        )
    }

    /// A row with its mean taken off, over its spread, scaled and shifted.
    pub open spec fn layer_normed(
        &self,
        row: Seq<T>,
        weight: Seq<T>,
        bias: Option<Seq<T>>,
        eps: T,
    ) -> Seq<T> {
        let n = self.number(row.len() as usize);
        let mean = self.over(self.row_sum(row), n);
        let spread = self.over(
            self.gathered(
                self.zero(),
                row.len(),
                |i: int| self.times(self.minus(row[i], mean), self.minus(row[i], mean)),
            ),
            n,
        );
        let inv = self.over(self.one(), self.root(self.plus(spread, eps)));
        Seq::new(
            row.len(),
            |j: int|
                {
                    let y = self.times(self.times(self.minus(row[j], mean), inv), weight[j]);
                    match bias {
                        Some(b) => self.plus(y, b[j]),
                        None => y,
                    }
                },
        )
    }

    /// A logit kept within a cap.
    pub open spec fn capped(&self, cap: T, v: T) -> T {
        self.times(cap, self.tanh(self.over(v, cap)))
    }

    /// The gated output of a short convolution: the newest input by the last tap
    /// first, then the others from the oldest on.
    pub open spec fn shortconv_of(&self, gate: T, taps: Seq<T>, inputs: Seq<T>) -> T {
        let last = taps.len() - 1;
        self.times(
            gate,
            self.gathered(
                self.times(taps[last], inputs[last]),
                last as nat,
                |k: int| self.times(taps[k], inputs[k]),
            ),
        )
    }

    /// The activated output of a convolution with a bias.
    pub open spec fn conv_of(&self, bias: T, taps: Seq<T>, inputs: Seq<T>) -> T {
        self.silu_of(
            self.gathered(bias, taps.len(), |k: int| self.times(taps[k], inputs[k])),
        )
    }

    /// The step size of a scan: the softplus of its rate.
    pub open spec fn step_size(&self, rate: T, bias: T) -> T {
        self.ln(self.plus(self.one(), self.exp(self.plus(rate, bias))))
    }

    /// The cells of a channel after a scan step.
    pub open spec fn scanned_cells(
        &self,
        dt: T,
        a: T,
        input: T,
        cells: Seq<T>,
        b: Seq<T>,
    ) -> Seq<T> {
        let keep = self.exp(self.times(dt, a));
        let x_dt = self.times(input, dt);
        Seq::new(
            cells.len(),
            |k: int| self.plus(self.times(cells[k], keep), self.times(b[k], x_dt)),
        )
    }

    /// The output of a channel after a scan step.
    pub open spec fn scanned_output(
        &self,
        dt: T,
        d: T,
        input: T,
        cells: Seq<T>,
        c: Seq<T>,
    ) -> T {
        self.plus(
            self.gathered(self.zero(), cells.len(), |k: int| self.times(cells[k], c[k])),
            self.times(d, self.times(input, dt)),
        )
    }

    /// What one expert gives for one row, weighed by `p`.
    pub open spec fn expert_row(
        &self,
        row: Seq<T>,
        gate: Seq<T>,
        up: Seq<T>,
        down: Seq<T>,
        n_ff: nat,
        p: T,
    ) -> Seq<T> {
        let hidden = row.len();
        let act = Seq::new(
            n_ff,
            |f: int|
                self.times(
                    self.silu_of(self.dot_at(row, gate, f * hidden)),
                    self.dot_at(row, up, f * hidden),
                ),
        );
        Seq::new(
            hidden,
            |d: int|
                self.times(
                    self.gathered(
                        self.zero(),
                        n_ff,
                        |f: int| self.times(act[f], down[f * hidden + d]),
                    ),
                    p,
                ),
        )
    }

    /// The probabilities of a row of scores; a row whose exponentials add up to
    /// nothing is left as they are.
    pub open spec fn probabilities_of(&self, scores: Seq<T>) -> Seq<T> {
        let e = self.exponentials_of(scores);
        let total = self.row_sum(e);
        if self.above(total, self.zero()) {
            Seq::new(e.len(), |i: int| self.over(e[i], total))
        } else {
            e
        }
    }

    /// What an adapter adds to one logit: the low-rank product of a row, scaled.
    pub open spec fn adapted(
        &self,
        row: Seq<T>,
        a: Seq<T>,
        b: Seq<T>,
        rank: nat,
        scale: T,
        j: int,
    ) -> T {
        self.times(
            scale,
            self.gathered(
                self.zero(),
                rank,
                |r: int| self.times(b[j * rank + r], self.dot_at_swapped(row, a, r * row.len())),
            ),
        )
    }

    /// The product of the row of a table that starts at `at` with a row.
    pub open spec fn dot_at_swapped(&self, row: Seq<T>, table: Seq<T>, at: int) -> T {
        self.gathered(
            self.zero(),
            row.len(),
            |d: int| self.times(table[at + d], row[d]),
        )
    }
}

/// `z / (1 + exp(-z))`.
pub fn silu<
    T: Copy,
    F: Fn(ScalarOp, T, T) -> T,
    C: Fn(Number) -> T,
    Z: Fn(Relation, T, T) -> bool,
>(x: &Scalars<T, F, C, Z>, z: T) -> (r: T)
    requires
        x.wf(),
    ensures
        r == x.silu_of(z),
{
    x.over(z, x.plus(x.one(), x.exp(x.negated(z))))
}

/// The logistic function.
pub fn logistic<
    T: Copy,
    F: Fn(ScalarOp, T, T) -> T,
    C: Fn(Number) -> T,
    Z: Fn(Relation, T, T) -> bool,
>(x: &Scalars<T, F, C, Z>, z: T) -> (r: T)
    requires
        x.wf(),
    ensures
        r == x.logistic_of(z),
{
    x.over(x.one(), x.plus(x.one(), x.exp(x.negated(z))))
}

/// Half of `z`, times one plus the hyperbolic tangent of `inside`.
fn half_gated<
    T: Copy,
    F: Fn(ScalarOp, T, T) -> T,
    C: Fn(Number) -> T,
    Z: Fn(Relation, T, T) -> bool,
>(x: &Scalars<T, F, C, Z>, z: T, inside: T) -> (r: T)
    requires
        x.wf(),
    ensures
        r == x.half_gate(z, inside),
{
    x.times(x.times(x.constant(HALF), z), x.plus(x.one(), x.tanh(inside)))
}

/// Applies an activation.
pub fn activate<
    T: Copy,
    F: Fn(ScalarOp, T, T) -> T,
    C: Fn(Number) -> T,
    Z: Fn(Relation, T, T) -> bool,
>(x: &Scalars<T, F, C, Z>, kind: Activation, z: T) -> (r: T)
    requires
        x.wf(),
    ensures
        r == x.activated(kind, z),
{
    match kind {
        Activation::Silu => silu(x, z),
        Activation::SiluSigmoid => x.times(z, logistic(x, z)),
        Activation::GeluFactored => {
            let bend = x.plus(x.one(), x.times(x.times(x.constant(GELU_CUBIC), z), z));
            half_gated(x, z, x.times(x.times(z, x.constant(GELU_SLOPE_SHORT)), bend))
        },
        Activation::GeluSeries => {
            let cubic = x.times(x.times(x.times(x.constant(GELU_CUBIC), z), z), z);
            half_gated(x, z, x.times(x.constant(GELU_SLOPE), x.plus(z, cubic)))
        },
        Activation::GeluPower => {
            let cubic = x.times(x.constant(GELU_CUBIC), x.times(x.times(z, z), z));
            half_gated(x, z, x.times(x.constant(GELU_SLOPE), x.plus(z, cubic)))
        },
        Activation::GeluRoot => {
            let slope = x.root(x.over(x.number(2), x.constant(PI)));
            let cubic = x.times(x.constant(GELU_CUBIC), x.times(x.times(z, z), z));
            half_gated(x, z, x.times(slope, x.plus(z, cubic)))
        },
    }
}

/// Applies an activation to every entry of a row.
pub fn activate_row<
    T: Copy,
    F: Fn(ScalarOp, T, T) -> T,
    C: Fn(Number) -> T,
    Z: Fn(Relation, T, T) -> bool,
>(x: &Scalars<T, F, C, Z>, kind: Activation, row: &[T]) -> (r: Vec<T>)
    requires
        x.wf(),
    ensures
        r@ == Seq::new(row@.len(), |i: int| x.activated(kind, row@[i])),
{
    let n: usize = row.len();
    let ghost cell = |i: int| x.activated(kind, row@[i]);
    fill_row(
        n,
        |i: usize| -> (o: T)
            requires
                i < n,
            ensures
                o == cell(i as int)
            {
                activate(x, kind, row[i])
            },
        Ghost(cell),
    )
}

/// Applies an activation to every entry of a row, and multiplies by another row.
pub fn activate_gated<
    T: Copy,
    F: Fn(ScalarOp, T, T) -> T,
    C: Fn(Number) -> T,
    Z: Fn(Relation, T, T) -> bool,
>(x: &Scalars<T, F, C, Z>, kind: Activation, gate: &[T], up: &[T]) -> (r: Vec<T>)
    requires
        x.wf(),
        gate@.len() == up@.len(),
    ensures
        r@ == Seq::new(gate@.len(), |i: int| x.times(x.activated(kind, gate@[i]), up@[i])),
{
    let n: usize = gate.len();
    let ghost cell = |i: int| x.times(x.activated(kind, gate@[i]), up@[i]);
    fill_row(
        n,
        |i: usize| -> (o: T)
            requires
                i < n,
            ensures
                o == cell(i as int)
            {
                x.times(activate(x, kind, gate[i]), up[i])
            },
        Ghost(cell),
    )
}

/// The largest of a row of scores.
fn largest<
    T: Copy,
    F: Fn(ScalarOp, T, T) -> T,
    C: Fn(Number) -> T,
    Z: Fn(Relation, T, T) -> bool,
>(x: &Scalars<T, F, C, Z>, scores: &[T]) -> (r: T)
    requires
        x.wf(),
    ensures
        r == x.highest(scores@, scores@.len()),
{
    let mut top: T = x.bottom();
    for i in 0..scores.len()
        invariant
            x.wf(),
            top == x.highest(scores@, i as nat),
    {
        top = x.larger(top, scores[i]);
    }
    top
}

/// The exponentials of scores, measured from the largest.
fn exponentiate<
    T: Copy,
    F: Fn(ScalarOp, T, T) -> T,
    C: Fn(Number) -> T,
    Z: Fn(Relation, T, T) -> bool,
>(x: &Scalars<T, F, C, Z>, scores: &[T]) -> (r: Vec<T>)
    requires
        x.wf(),
    ensures
        r@ == x.exponentials_of(scores@),
{
    let n: usize = scores.len();
    let top = largest(x, scores);
    let ghost cell = |i: int| x.exp(x.minus(scores@[i], top));
    let r = fill_row(
        n,
        |i: usize| -> (o: T)
            requires
                i < n,
            ensures
                o == cell(i as int)
            {
                x.exp(x.minus(scores[i], top))
            },
        Ghost(cell),
    );
    proof {
        assert(r@ =~= x.exponentials_of(scores@));
    }
    r
}

/// The sum of a row.
fn sum_row<
    T: Copy,
    F: Fn(ScalarOp, T, T) -> T,
    C: Fn(Number) -> T,
    Z: Fn(Relation, T, T) -> bool,
>(x: &Scalars<T, F, C, Z>, row: &[T]) -> (r: T)
    requires
        x.wf(),
    ensures
        r == x.row_sum(row@),
{
    let n: usize = row.len();
    let ghost term = |i: int| row@[i];
    x.gather(
        x.zero(),
        n,
        |i: usize| -> (o: T)
            requires
                i < n,
            ensures
                o == term(i as int)
            {
                row[i]
            },
        Ghost(term),
    )
}

/// Scores as weights.
pub fn softmax<
    T: Copy,
    F: Fn(ScalarOp, T, T) -> T,
    C: Fn(Number) -> T,
    Z: Fn(Relation, T, T) -> bool,
>(x: &Scalars<T, F, C, Z>, scores: &[T], floor: Option<T>) -> (r: Vec<T>)
    requires
        x.wf(),
    ensures
        r@ == x.softmax_of(scores@, floor),
{
    let e = exponentiate(x, scores);
    let n: usize = e.len();
    let total = match floor {
        Some(f) => x.plus(sum_row(x, e.as_slice()), f),
        None => sum_row(x, e.as_slice()),
    };
    let ghost cell = |i: int| x.over(e@[i], total);
    let r = fill_row(
        n,
        |i: usize| -> (o: T)
            requires
                i < n,
            ensures
                o == cell(i as int)
            {
                x.over(e[i], total)
            },
        Ghost(cell),
    );
    proof {
        assert(r@ =~= x.softmax_of(scores@, floor));
    }
    r
}

/// The probabilities of a row of scores.
pub fn probabilities<
    T: Copy,
    F: Fn(ScalarOp, T, T) -> T,
    C: Fn(Number) -> T,
    Z: Fn(Relation, T, T) -> bool,
>(x: &Scalars<T, F, C, Z>, scores: &[T]) -> (r: Vec<T>)
    requires
        x.wf(),
    ensures
        r@ == x.probabilities_of(scores@),
{
    let e = exponentiate(x, scores);
    let n: usize = e.len();
    let total = sum_row(x, e.as_slice());
    if !x.above(total, x.zero()) {
        return e;
    }
    let ghost cell = |i: int| x.over(e@[i], total);
    let r = fill_row(
        n,
        |i: usize| -> (o: T)
            requires
                i < n,
            ensures
                o == cell(i as int)
            {
                x.over(e[i], total)
            },
        Ghost(cell),
    );
    proof {
        assert(r@ =~= x.probabilities_of(scores@));
    }
    r
}

/// The product of a row with a row of a table.
fn dot_row<
    T: Copy,
    F: Fn(ScalarOp, T, T) -> T,
    C: Fn(Number) -> T,
    Z: Fn(Relation, T, T) -> bool,
>(x: &Scalars<T, F, C, Z>, row: &[T], table: &[T], at: usize) -> (r: T)
    requires
        x.wf(),
        at + row@.len() <= table@.len(),
    ensures
        r == x.dot_at(row@, table@, at as int),
{
    let n: usize = row.len();
    let len: usize = table.len();
    let ghost term = |d: int| x.times(row@[d], table@[at + d]);
    x.gather(
        x.zero(),
        n,
        |d: usize| -> (o: T)
            requires
                d < n,
            ensures
                o == term(d as int)
            {
                assert(len == table@.len());
                x.times(row[d], table[at + d])
            },
        Ghost(term),
    )
}

/// Rows of a table, weighed and added.
fn weigh_rows<
    T: Copy,
    F: Fn(ScalarOp, T, T) -> T,
    C: Fn(Number) -> T,
    Z: Fn(Relation, T, T) -> bool,
>(x: &Scalars<T, F, C, Z>, weights: &[T], table: &[T], dim: usize) -> (r: Vec<T>)
    requires
        x.wf(),
        weights@.len() * dim <= table@.len(),
    ensures
        r@ == x.weighed_rows(weights@, table@, dim as nat),
{
    let n: usize = weights.len();
    let len: usize = table.len();
    let ghost cell = |d: int|
        x.gathered(
            x.zero(),
            n as nat,
            |t: int| x.times(weights@[t], table@[t * dim + d]),
        );
    let r = fill_row(
        dim,
        |d: usize| -> (o: T)
            requires
                d < dim,
            ensures
                o == cell(d as int)
            {
                let ghost term = |t: int| x.times(weights@[t], table@[t * dim + d as int]);
                x.gather(
                    x.zero(),
                    n,
                    |t: usize| -> (o: T)
                        requires
                            t < n,
                        ensures
                            o == term(t as int)
                        {
                            assert(t * dim + dim <= n * dim) by (nonlinear_arith)
                                requires
                                    t < n,
                            ;
                            x.times(weights[t], table[t * dim + d])
                        },
                    Ghost(term),
                )
            },
        Ghost(cell),
    );
    proof {
        assert(r@ =~= x.weighed_rows(weights@, table@, dim as nat));
    }
    r
}

/// One over the square root of a width.
fn scale_for<
    T: Copy,
    F: Fn(ScalarOp, T, T) -> T,
    C: Fn(Number) -> T,
    Z: Fn(Relation, T, T) -> bool,
>(x: &Scalars<T, F, C, Z>, width: usize) -> (r: T)
    requires
        x.wf(),
    ensures
        r == x.score_scale(width),
{
    x.over(x.one(), x.root(x.number(width)))
}

/// Softmax attention of one query head over the keys and values that it may see.
pub fn attend_head<
    T: Copy,
    F: Fn(ScalarOp, T, T) -> T,
    C: Fn(Number) -> T,
    Z: Fn(Relation, T, T) -> bool,
>(
    x: &Scalars<T, F, C, Z>,
    cap: Option<T>,
    q: &[T],
    keys: &[T],
    values: &[T],
    n: usize,
) -> (r: Vec<T>)
    requires
        x.wf(),
        n * q@.len() <= keys@.len(),
        n * q@.len() <= values@.len(),
    ensures
        r@ == x.attended(cap, q@, keys@, values@, n as nat),
{
    let dim: usize = q.len();
    let key_len: usize = keys.len();
    let scale = scale_for(x, dim);
    let ghost cell = |t: int|
        x.kept_within(cap, x.times(x.dot_at(q@, keys@, t * dim), scale));
    let scores = fill_row(
        n,
        |t: usize| -> (o: T)
            requires
                t < n,
            ensures
                o == cell(t as int)
            {
                assert(t * dim + dim <= n * dim) by (nonlinear_arith)
                    requires
                        t < n,
                ;
                assert(key_len == keys@.len());
                let score = x.times(dot_row(x, q, keys, t * dim), scale);
                match cap {
                    Some(c) => cap_logit(x, c, score),
                    None => score,
                }
            },
        Ghost(cell),
    );
    proof {
        assert(scores@ =~= x.head_scores(cap, q@, keys@, n as nat));
    }
    let weights = softmax(x, scores.as_slice(), None);
    weigh_rows(x, weights.as_slice(), values, dim)
}

/// Softmax attention of one query head over whole rows of keys and values.
pub fn attend_rows<
    T: Copy,
    F: Fn(ScalarOp, T, T) -> T,
    C: Fn(Number) -> T,
    Z: Fn(Relation, T, T) -> bool,
>(
    x: &Scalars<T, F, C, Z>,
    cap: Option<T>,
    q: &[T],
    keys: &[T],
    values: &[T],
) -> (r: Vec<T>)
    requires
        x.wf(),
    ensures
        x.attended_rows(cap, q@, keys@, values@, r@),
{
    let dim: usize = q.len();
    if dim == 0 {
        let r: Vec<T> = Vec::new();
        assert forall|n: nat| r@ == #[trigger] x.attended(cap, q@, keys@, values@, n) by {
            assert(r@ =~= x.attended(cap, q@, keys@, values@, n));
        }
        return r;
    }
    let seen: usize = if keys.len() <= values.len() {
        keys.len() / dim
    } else {
        values.len() / dim
    };
    proof {
        let shorter = if keys@.len() <= values@.len() {
            keys@.len()
        } else {
            values@.len()
        };
        assert(seen * dim <= shorter) by (nonlinear_arith)
            requires
                dim > 0,
                seen == shorter / (dim as nat),
        ;
    }
    let r = attend_head(x, cap, q, keys, values, seen);
    proof {
        assert forall|n: nat|
            keys@.len() == n * q@.len() && values@.len() == n * q@.len() implies r@
            == #[trigger] x.attended(cap, q@, keys@, values@, n) by {
            vstd::arithmetic::div_mod::lemma_div_by_multiple(n as int, dim as int);
        }
    }
    r
}

/// Softmax attention of a query in two parts.
pub fn attend_in_parts<
    T: Copy,
    F: Fn(ScalarOp, T, T) -> T,
    C: Fn(Number) -> T,
    Z: Fn(Relation, T, T) -> bool,
>(x: &Scalars<T, F, C, Z>, q_nope: &[T], q_rope: &[T], k_nope: &[T], k_rope: &[T], values: &[T], v_dim: usize, n: usize) -> (r: Vec<T>)
    requires
        x.wf(),
        q_nope@.len() + q_rope@.len() <= usize::MAX,
        n * q_nope@.len() <= k_nope@.len(),
        n * q_rope@.len() <= k_rope@.len(),
        n * v_dim <= values@.len(),
    ensures
        r@ == x.attended_in_parts(q_nope@, q_rope@, k_nope@, k_rope@, values@, v_dim as nat, n as nat),
{
    let nope: usize = q_nope.len();
    let rope: usize = q_rope.len();
    let nope_len: usize = k_nope.len();
    let rope_len: usize = k_rope.len();
    let scale = scale_for(x, nope + rope);
    let ghost cell = |t: int|
        x.times(
            x.plus(x.dot_at(q_nope@, k_nope@, t * nope), x.dot_at(q_rope@, k_rope@, t * rope)),
            scale,
        );
    let scores = fill_row(
        n,
        |t: usize| -> (o: T)
            requires
                t < n,
            ensures
                o == cell(t as int)
            {
                assert(t * nope + nope <= n * nope && t * rope + rope <= n * rope)
                    by (nonlinear_arith)
                    requires
                        t < n,
                ;
                assert(nope_len == k_nope@.len() && rope_len == k_rope@.len());
                x.times(
                    x.plus(
                        dot_row(x, q_nope, k_nope, t * nope),
                        dot_row(x, q_rope, k_rope, t * rope),
                    ),
                    scale,
                )
            },
        Ghost(cell),
    );
    proof {
        assert(scores@ =~= Seq::new(
            n as nat,
            |t: int|
                x.times(
                    x.plus(
                        x.dot_at(q_nope@, k_nope@, t * q_nope@.len()),
                        x.dot_at(q_rope@, k_rope@, t * q_rope@.len()),
                    ),
                    x.score_scale((q_nope@.len() + q_rope@.len()) as usize),
                ),
        ));
    }
    let weights = softmax(x, scores.as_slice(), Some(x.tiny()));
    weigh_rows(x, weights.as_slice(), values, v_dim)
}

/// How many whole rows of `width` there are, at most `most`.
fn whole_rows(len: usize, width: usize, most: usize) -> (n: usize)
    ensures
        n <= most,
        n * width <= len,
        width > 0 && len >= most * width ==> n == most,
        width == 0 ==> n == most,
{
    if width == 0 {
        return most;
    }
    let n: usize = len / width;
    proof {
        assert(n * width <= len && (len >= most * width ==> n >= most)) by (nonlinear_arith)
            requires
                width > 0,
                n == len / width,
        ;
        assert(most <= n ==> most * width <= n * width) by (nonlinear_arith);
    }
    if n < most {
        n
    } else {
        most
    }
}

/// Softmax attention of a query in two parts over whole rows of keys and values.
pub fn attend_rows_in_parts<
    T: Copy,
    F: Fn(ScalarOp, T, T) -> T,
    C: Fn(Number) -> T,
    Z: Fn(Relation, T, T) -> bool,
>(
    x: &Scalars<T, F, C, Z>,
    q_nope: &[T],
    q_rope: &[T],
    k_nope: &[T],
    k_rope: &[T],
    values: &[T],
    v_dim: usize,
) -> (r: Vec<T>)
    requires
        x.wf(),
        q_nope@.len() + q_rope@.len() <= usize::MAX,
    ensures
        x.attended_rows_in_parts(q_nope@, q_rope@, k_nope@, k_rope@, values@, v_dim as nat, r@),
{
    if v_dim == 0 {
        let r: Vec<T> = Vec::new();
        assert forall|n: nat| r@ == #[trigger] x.attended_in_parts(
            q_nope@,
            q_rope@,
            k_nope@,
            k_rope@,
            values@,
            0,
            n,
        ) by {
            assert(r@ =~= x.attended_in_parts(q_nope@, q_rope@, k_nope@, k_rope@, values@, 0, n));
        }
        return r;
    }
    let rows: usize = values.len() / v_dim;
    let keyed: usize = whole_rows(k_nope.len(), q_nope.len(), rows);
    let seen: usize = whole_rows(k_rope.len(), q_rope.len(), keyed);
    proof {
        assert(seen * v_dim <= values@.len() && seen * q_nope@.len() <= keyed * q_nope@.len())
            by (nonlinear_arith)
            requires
                v_dim > 0,
                rows == values@.len() / (v_dim as nat),
                seen <= keyed <= rows,
        ;
    }
    let r = attend_in_parts(x, q_nope, q_rope, k_nope, k_rope, values, v_dim, seen);
    proof {
        assert forall|n: nat|
            k_nope@.len() == n * q_nope@.len() && k_rope@.len() == n * q_rope@.len()
                && values@.len() == n * v_dim implies r@ == #[trigger] x.attended_in_parts(
            q_nope@,
            q_rope@,
            k_nope@,
            k_rope@,
            values@,
            v_dim as nat,
            n,
        ) by {
            vstd::arithmetic::div_mod::lemma_div_by_multiple(n as int, v_dim as int);
        }
    }
    r
}

/// The weights of chosen experts.
pub fn weigh_experts<
    T: Copy,
    F: Fn(ScalarOp, T, T) -> T,
    C: Fn(Number) -> T,
    Z: Fn(Relation, T, T) -> bool,
>(x: &Scalars<T, F, C, Z>, scores: &[T], chosen: &[usize], factor: Option<T>) -> (r: Vec<T>)
    requires
        x.wf(),
        forall|i: int| 0 <= i < chosen@.len() ==> #[trigger] chosen@[i] < scores@.len(),
    ensures
        r@ == x.expert_weights(scores@, chosen@, factor),
{
    let n: usize = chosen.len();
    let ghost pick = |i: int| scores@[chosen@[i] as int];
    let picked = fill_row(
        n,
        |i: usize| -> (o: T)
            requires
                i < n,
            ensures
                o == pick(i as int)
            {
                assert(chosen@[i as int] < scores@.len());
                scores[chosen[i]]
            },
        Ghost(pick),
    );
    proof {
        assert(picked@ =~= Seq::new(chosen@.len(), |i: int| scores@[chosen@[i] as int]));
    }
    let w = softmax(x, picked.as_slice(), Some(x.tiny()));
    match factor {
        None => w,
        Some(f) => {
            let ghost ws = w@;
            let ghost cell = |i: int| x.times(ws[i], f);
            let r = fill_row(
                n,
                |i: usize| -> (o: T)
                    requires
                        i < n,
                    ensures
                        o == cell(i as int)
                    {
                        x.times(w[i], f)
                    },
                Ghost(cell),
            );
            proof {
                assert(r@ =~= x.expert_weights(scores@, chosen@, factor));
            }
            r
        },
    }
}

/// Expert outputs, weighed and added.
pub fn mix_outputs<
    T: Copy,
    F: Fn(ScalarOp, T, T) -> T,
    C: Fn(Number) -> T,
    Z: Fn(Relation, T, T) -> bool,
>(x: &Scalars<T, F, C, Z>, weights: &[T], outs: &[Vec<T>], dim: usize) -> (r: Vec<T>)
    requires
        x.wf(),
        weights@.len() == outs@.len(),
        forall|i: int| 0 <= i < outs@.len() ==> #[trigger] outs@[i]@.len() == dim,
    ensures
        r@ == x.mixed_outputs(weights@, outs@, dim as nat),
{
    let n: usize = outs.len();
    let ghost cell = |d: int|
        x.gathered(x.zero(), n as nat, |i: int| x.times(weights@[i], outs@[i]@[d]));
    let r = fill_row(
        dim,
        |d: usize| -> (o: T)
            requires
                d < dim,
            ensures
                o == cell(d as int)
            {
                let ghost term = |i: int| x.times(weights@[i], outs@[i]@[d as int]);
                x.gather(
                    x.zero(),
                    n,
                    |i: usize| -> (o: T)
                        requires
                            i < n,
                        ensures
                            o == term(i as int)
                        {
                            assert(outs@[i as int]@.len() == dim);
                            x.times(weights[i], outs[i][d])
                        },
                    Ghost(term),
                )
            },
        Ghost(cell),
    );
    proof {
        assert(r@ =~= x.mixed_outputs(weights@, outs@, dim as nat));
    }
    r
}

/// Normalises a row by its mean and spread.
pub fn layer_norm_row<
    T: Copy,
    F: Fn(ScalarOp, T, T) -> T,
    C: Fn(Number) -> T,
    Z: Fn(Relation, T, T) -> bool,
>(x: &Scalars<T, F, C, Z>, row: &[T], weight: &[T], bias: Option<&[T]>, eps: T) -> (r: Vec<T>)
    requires
        x.wf(),
        weight@.len() >= row@.len(),
        bias matches Some(b) ==> b@.len() >= row@.len(),
    ensures
        r@ == x.layer_normed(row@, weight@, match bias { Some(b) => Some(b@), None => None }, eps),
{
    let n: usize = row.len();
    let count = x.number(n);
    let mean = x.over(sum_row(x, row), count);
    let ghost square = |i: int| x.times(x.minus(row@[i], mean), x.minus(row@[i], mean));
    let squares = x.gather(
        x.zero(),
        n,
        |i: usize| -> (o: T)
            requires
                i < n,
            ensures
                o == square(i as int)
            {
                x.times(x.minus(row[i], mean), x.minus(row[i], mean))
            },
        Ghost(square),
    );
    let spread = x.over(squares, count);
    let inv = x.over(x.one(), x.root(x.plus(spread, eps)));
    let ghost shift: Option<Seq<T>> = match bias {
        Some(b) => Some(b@),
        None => None,
    };
    let ghost cell = |j: int|
        {
            let y = x.times(x.times(x.minus(row@[j], mean), inv), weight@[j]);
            match shift {
                Some(b) => x.plus(y, b[j]),
                None => y,
            }
        };
    let r = fill_row(
        n,
        |j: usize| -> (o: T)
            requires
                j < n,
            ensures
                o == cell(j as int)
            {
                let y = x.times(x.times(x.minus(row[j], mean), inv), weight[j]);
                match bias {
                    Some(b) => x.plus(y, b[j]),
                    None => y,
                }
            },
        Ghost(cell),
    );
    proof {
        assert(r@ =~= x.layer_normed(row@, weight@, shift, eps));
    }
    r
}

/// Keeps a logit within a cap.
pub fn cap_logit<
    T: Copy,
    F: Fn(ScalarOp, T, T) -> T,
    C: Fn(Number) -> T,
    Z: Fn(Relation, T, T) -> bool,
>(x: &Scalars<T, F, C, Z>, cap: T, v: T) -> (r: T)
    requires
        x.wf(),
    ensures
        r == x.capped(cap, v),
{
    x.times(cap, x.tanh(x.over(v, cap)))
}

/// The gated output of a short convolution.
pub fn shortconv_cell_of<
    T: Copy,
    F: Fn(ScalarOp, T, T) -> T,
    C: Fn(Number) -> T,
    Z: Fn(Relation, T, T) -> bool,
>(x: &Scalars<T, F, C, Z>, gate: T, taps: &[T], inputs: &[T]) -> (r: T)
    requires
        x.wf(),
        taps@.len() > 0,
        inputs@.len() == taps@.len(),
    ensures
        r == x.shortconv_of(gate, taps@, inputs@),
{
    let last: usize = taps.len() - 1;
    let ghost term = |k: int| x.times(taps@[k], inputs@[k]);
    let total = x.gather(
        x.times(taps[last], inputs[last]),
        last,
        |k: usize| -> (o: T)
            requires
                k < last,
            ensures
                o == term(k as int)
            {
                x.times(taps[k], inputs[k])
            },
        Ghost(term),
    );
    x.times(gate, total)
}

/// The activated output of a convolution with a bias.
pub fn conv_cell_of<
    T: Copy,
    F: Fn(ScalarOp, T, T) -> T,
    C: Fn(Number) -> T,
    Z: Fn(Relation, T, T) -> bool,
>(x: &Scalars<T, F, C, Z>, bias: T, taps: &[T], inputs: &[T]) -> (r: T)
    requires
        x.wf(),
        inputs@.len() == taps@.len(),
    ensures
        r == x.conv_of(bias, taps@, inputs@),
{
    let n: usize = taps.len();
    let ghost term = |k: int| x.times(taps@[k], inputs@[k]);
    let total = x.gather(
        bias,
        n,
        |k: usize| -> (o: T)
            requires
                k < n,
            ensures
                o == term(k as int)
            {
                x.times(taps[k], inputs[k])
            },
        Ghost(term),
    );
    silu(x, total)
}

/// The step size of a scan.
pub fn step_size_of<
    T: Copy,
    F: Fn(ScalarOp, T, T) -> T,
    C: Fn(Number) -> T,
    Z: Fn(Relation, T, T) -> bool,
>(x: &Scalars<T, F, C, Z>, rate: T, bias: T) -> (r: T)
    requires
        x.wf(),
    ensures
        r == x.step_size(rate, bias),
{
    x.ln(x.plus(x.one(), x.exp(x.plus(rate, bias))))
}

/// One step of one channel of a scan: its cells, and what it gives.
pub fn scan_step<
    T: Copy,
    F: Fn(ScalarOp, T, T) -> T,
    C: Fn(Number) -> T,
    Z: Fn(Relation, T, T) -> bool,
>(x: &Scalars<T, F, C, Z>, dt: T, a: T, d: T, input: T, cells: &[T], b: &[T], c: &[T]) -> (r: (Vec<T>, T))
    requires
        x.wf(),
        b@.len() == cells@.len(),
        c@.len() == cells@.len(),
    ensures
        r.0@ == x.scanned_cells(dt, a, input, cells@, b@),
        r.1 == x.scanned_output(dt, d, input, r.0@, c@),
{
    let n: usize = cells.len();
    let keep = x.exp(x.times(dt, a));
    let x_dt = x.times(input, dt);
    let ghost cell = |k: int| x.plus(x.times(cells@[k], keep), x.times(b@[k], x_dt));
    let next = fill_row(
        n,
        |k: usize| -> (o: T)
            requires
                k < n,
            ensures
                o == cell(k as int)
            {
                x.plus(x.times(cells[k], keep), x.times(b[k], x_dt))
            },
        Ghost(cell),
    );
    proof {
        assert(next@ =~= x.scanned_cells(dt, a, input, cells@, b@));
    }
    let ghost ns = next@;
    let ghost term = |k: int| x.times(ns[k], c@[k]);
    let total = x.gather(
        x.zero(),
        n,
        |k: usize| -> (o: T)
            requires
                k < n,
            ensures
                o == term(k as int)
            {
                x.times(next[k], c[k])
            },
        Ghost(term),
    );
    let y = x.plus(total, x.times(d, x_dt));
    (next, y)
}

/// What one expert gives for one row, weighed by `p`.
pub fn run_expert<
    T: Copy,
    F: Fn(ScalarOp, T, T) -> T,
    C: Fn(Number) -> T,
    Z: Fn(Relation, T, T) -> bool,
>(x: &Scalars<T, F, C, Z>, row: &[T], gate: &[T], up: &[T], down: &[T], n_ff: usize, p: T) -> (r: Vec<T>)
    requires
        x.wf(),
        gate@.len() == n_ff * row@.len(),
        up@.len() == n_ff * row@.len(),
        down@.len() == n_ff * row@.len(),
    ensures
        r@ == x.expert_row(row@, gate@, up@, down@, n_ff as nat, p),
{
    let hidden: usize = row.len();
    let len: usize = gate.len();
    let ghost act_cell = |f: int|
        x.times(
            x.silu_of(x.dot_at(row@, gate@, f * hidden)),
            x.dot_at(row@, up@, f * hidden),
        );
    let act = fill_row(
        n_ff,
        |f: usize| -> (o: T)
            requires
                f < n_ff,
            ensures
                o == act_cell(f as int)
            {
                assert(f * hidden + hidden <= n_ff * hidden) by (nonlinear_arith)
                    requires
                        f < n_ff,
                ;
                assert(len == gate@.len());
                x.times(
                    silu(x, dot_row(x, row, gate, f * hidden)),
                    dot_row(x, row, up, f * hidden),
                )
            },
        Ghost(act_cell),
    );
    let ghost acts = act@;
    let ghost cell = |d: int|
        x.times(
            x.gathered(
                x.zero(),
                n_ff as nat,
                |f: int| x.times(acts[f], down@[f * hidden + d]),
            ),
            p,
        );
    let r = fill_row(
        hidden,
        |d: usize| -> (o: T)
            requires
                d < hidden,
            ensures
                o == cell(d as int)
            {
                let ghost term = |f: int| x.times(acts[f], down@[f * hidden + d as int]);
                let total = x.gather(
                    x.zero(),
                    n_ff,
                    |f: usize| -> (o: T)
                        requires
                            f < n_ff,
                        ensures
                            o == term(f as int)
                        {
                            assert(f * hidden + hidden <= n_ff * hidden) by (nonlinear_arith)
                                requires
                                    f < n_ff,
                            ;
                            assert(len == down@.len());
                            x.times(act[f], down[f * hidden + d])
                        },
                    Ghost(term),
                );
                x.times(total, p)
            },
        Ghost(cell),
    );
    proof {
        assert(acts =~= Seq::new(
            n_ff as nat,
            |f: int|
                x.times(
                    x.silu_of(x.dot_at(row@, gate@, f * row@.len())),
                    x.dot_at(row@, up@, f * row@.len()),
                ),
        ));
        assert(r@ =~= x.expert_row(row@, gate@, up@, down@, n_ff as nat, p));
    }
    r
}

/// What an adapter adds to the logits of one row.
pub fn adapter_row<
    T: Copy,
    F: Fn(ScalarOp, T, T) -> T,
    C: Fn(Number) -> T,
    Z: Fn(Relation, T, T) -> bool,
>(x: &Scalars<T, F, C, Z>, row: &[T], a: &[T], b: &[T], rank: usize, scale: T, vocab: usize) -> (r: Vec<T>)
    requires
        x.wf(),
        rank * row@.len() <= a@.len(),
        vocab * rank <= b@.len(),
    ensures
        r@ == Seq::new(vocab as nat, |j: int| x.adapted(row@, a@, b@, rank as nat, scale, j)),
{
    let width: usize = row.len();
    let a_len: usize = a.len();
    let b_len: usize = b.len();
    let ghost inner_cell = |r: int| x.dot_at_swapped(row@, a@, r * width);
    let inner = fill_row(
        rank,
        |r: usize| -> (o: T)
            requires
                r < rank,
            ensures
                o == inner_cell(r as int)
            {
                assert(r * width + width <= rank * width) by (nonlinear_arith)
                    requires
                        r < rank,
                ;
                assert(a_len == a@.len());
                let at: usize = r * width;
                let ghost term = |d: int| x.times(a@[at + d], row@[d]);
                x.gather(
                    x.zero(),
                    width,
                    |d: usize| -> (o: T)
                        requires
                            d < width,
                        ensures
                            o == term(d as int)
                        {
                            x.times(a[at + d], row[d])
                        },
                    Ghost(term),
                )
            },
        Ghost(inner_cell),
    );
    let ghost is = inner@;
    let ghost cell = |j: int| x.adapted(row@, a@, b@, rank as nat, scale, j);
    let out = fill_row(
        vocab,
        |j: usize| -> (o: T)
            requires
                j < vocab,
            ensures
                o == cell(j as int)
            {
                assert(j * rank + rank <= vocab * rank) by (nonlinear_arith)
                    requires
                        j < vocab,
                ;
                assert(b_len == b@.len());
                let at: usize = j * rank;
                let ghost term = |r: int| x.times(b@[at + r], is[r]);
                let total = x.gather(
                    x.zero(),
                    rank,
                    |r: usize| -> (o: T)
                        requires
                            r < rank,
                        ensures
                            o == term(r as int)
                        {
                            x.times(b[at + r], inner[r])
                        },
                    Ghost(term),
                );
                proof {
                    x.lemma_gathered_same(
                        x.zero(),
                        rank as nat,
                        term,
                        |r: int|
                            x.times(
                                b@[j as int * rank as nat + r],
                                x.dot_at_swapped(row@, a@, r * row@.len()),
                            ),
                    );
                }
                x.times(scale, total)
            },
        Ghost(cell),
    );
    proof {
        assert(out@ =~= Seq::new(
            vocab as nat,
            |j: int| x.adapted(row@, a@, b@, rank as nat, scale, j),
        ));
    }
    out
}

} // verus!
