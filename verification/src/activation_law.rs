//! What activations and norms are, in arithmetic without rounding.

use crate::block_program::Activation;
use crate::gpt2::row_at;
use crate::kernels::{GELU_CUBIC, GELU_SLOPE, GELU_SLOPE_SHORT, PI};
use crate::numeric::HALF;
use crate::rows::{lemma_cell_coordinates, lemma_flat_index, lemma_row_bounds};
use crate::scalar::{Number, Relation, ScalarOp, Scalars};
use vstd::prelude::*;

verus! {

impl<T: Copy, F: Fn(ScalarOp, T, T) -> T, C: Fn(Number) -> T, Z: Fn(Relation, T, T) -> bool> Scalars<T, F, C, Z> {
    /// The hyperbolic tangent is odd, and two halves are one.
    pub open spec fn bends_evenly(&self) -> bool {
        &&& forall|a: T| self.tanh(#[trigger] self.negated(a)) == self.negated(self.tanh(a))
        &&& self.plus(self.constant(HALF), self.constant(HALF)) == self.one()
    }

    /// The exponentials of a number and of its negation undo each other, and one
    /// more than either can be divided by.
    pub open spec fn decays_at(&self, z: T) -> bool {
        &&& self.times(self.exp(z), self.exp(self.negated(z))) == self.one()
        &&& self.unit(self.plus(self.one(), self.exp(z)))
        &&& self.unit(self.plus(self.one(), self.exp(self.negated(z))))
    }

    proof fn lemma_half_gate(&self, z: T, inside: T)
        requires
            self.ring(),
            self.bends_evenly(),
        ensures
            self.minus(
                self.half_gate(z, inside),
                self.half_gate(self.negated(z), self.negated(inside)),
            ) == z,
    {
        let h = self.constant(HALF);
        let t = self.tanh(inside);
        let one = self.one();
        let a = self.times(h, z);
        let n = self.negated(t);
        assert(self.tanh(self.negated(inside)) == n);
        self.times_negated(h, z);
        let up = self.plus(one, t);
        let down = self.plus(one, n);
        self.times_negated(down, a);
        self.minus_is(self.times(a, up), self.negated(self.times(a, down)));
        self.negated_twice(self.times(a, down));
        self.times_plus(a, up, down);
        self.plus_pairs(one, t, one, n);
        self.plus_negated(t);
        self.plus_zero(self.plus(one, one));
        self.times_plus(a, one, one);
        self.times_one(a);
        self.times_plus(z, h, h);
        self.times_one(z);
    }

    proof fn lemma_odd_product(&self, c: T, z: T)
        requires
            self.ring(),
        ensures
            self.times(c, self.negated(z)) == self.negated(self.times(c, z)),
            self.times(self.negated(z), c) == self.negated(self.times(z, c)),
            self.times(self.negated(z), self.negated(z)) == self.times(z, z),
    {
        self.times_negated(c, z);
        self.times_negated(self.negated(z), z);
        self.times_negated(z, z);
        self.negated_twice(self.times(z, z));
    }
}

/// An activation and its reflection make up the number: what it gives for a
/// number, less what it gives for the negated number, is the number itself.
pub proof fn law_activation_reflects<
    T: Copy,
    F: Fn(ScalarOp, T, T) -> T,
    C: Fn(Number) -> T,
    Z: Fn(Relation, T, T) -> bool,
>(x: &Scalars<T, F, C, Z>, kind: Activation, z: T)
    requires
        x.exact(),
        x.bends_evenly(),
        x.decays_at(z),
        x.decays_at(x.negated(z)),
    ensures
        x.minus(x.activated(kind, z), x.activated(kind, x.negated(z))) == z,
{
    let n = x.negated(z);
    x.negated_twice(z);
    let cubic = x.constant(GELU_CUBIC);
    x.lemma_odd_product(cubic, z);
    match kind {
        Activation::Silu => {
            lemma_logistic_shares(x, z);
            lemma_silu_is_weighed(x, z);
            lemma_silu_is_weighed(x, n);
            lemma_reflected_shares(x, z);
        },
        Activation::SiluSigmoid => {
            lemma_logistic_shares(x, z);
            lemma_reflected_shares(x, z);
        },
        Activation::GeluFactored => {
            let slope = x.constant(GELU_SLOPE_SHORT);
            let cz = x.times(cubic, z);
            x.lemma_odd_product(slope, z);
            x.lemma_odd_product(cz, z);
            x.times_negated(n, cz);
            x.times_comm(n, x.negated(cz));
            x.times_comm(n, cz);
            x.negated_twice(x.times(cz, z));
            assert(x.times(x.negated(cz), n) == x.times(cz, z)) by {
                x.times_negated(x.negated(cz), z);
                x.times_negated(z, cz);
            }
            let bend = x.plus(x.one(), x.times(cz, z));
            x.times_negated(bend, x.times(z, slope));
            x.lemma_half_gate(z, x.times(x.times(z, slope), bend));
        },
        Activation::GeluSeries => {
            let slope = x.constant(GELU_SLOPE);
            let cz = x.times(cubic, z);
            let czz = x.times(cz, z);
            assert(x.times(x.negated(cz), n) == czz) by {
                x.times_negated(x.negated(cz), z);
                x.times_negated(z, cz);
                x.negated_twice(czz);
            }
            x.times_negated(czz, z);
            let czzz = x.times(czz, z);
            x.negated_plus(z, czzz);
            x.times_negated(slope, x.plus(z, czzz));
            x.lemma_half_gate(z, x.times(slope, x.plus(z, czzz)));
        },
        Activation::GeluPower => {
            let slope = x.constant(GELU_SLOPE);
            lemma_cube_is_odd(x, z);
            let c = x.times(cubic, x.cube(z));
            x.times_negated(cubic, x.cube(z));
            x.negated_plus(z, c);
            x.times_negated(slope, x.plus(z, c));
            x.lemma_half_gate(z, x.times(slope, x.plus(z, c)));
        },
        Activation::GeluRoot => {
            let slope = x.root(x.over(x.number(2), x.constant(PI)));
            lemma_cube_is_odd(x, z);
            let c = x.times(cubic, x.cube(z));
            x.times_negated(cubic, x.cube(z));
            x.negated_plus(z, c);
            x.times_negated(slope, x.plus(z, c));
            x.lemma_half_gate(z, x.times(slope, x.plus(z, c)));
        },
    }
}

proof fn lemma_cube_is_odd<
    T: Copy,
    F: Fn(ScalarOp, T, T) -> T,
    C: Fn(Number) -> T,
    Z: Fn(Relation, T, T) -> bool,
>(x: &Scalars<T, F, C, Z>, z: T)
    requires
        x.ring(),
    ensures
        x.cube(x.negated(z)) == x.negated(x.cube(z)),
{
    x.lemma_odd_product(z, z);
    x.times_negated(x.times(z, z), z);
}

/// The logistic function shares one between a number and its negation.
pub proof fn law_logistic_shares_one<
    T: Copy,
    F: Fn(ScalarOp, T, T) -> T,
    C: Fn(Number) -> T,
    Z: Fn(Relation, T, T) -> bool,
>(x: &Scalars<T, F, C, Z>, z: T)
    requires
        x.exact(),
        x.decays_at(z),
        x.negated(x.negated(z)) == z,
    ensures
        x.plus(x.logistic_of(z), x.logistic_of(x.negated(z))) == x.one(),
{
    lemma_logistic_shares(x, z);
}

proof fn lemma_logistic_shares<
    T: Copy,
    F: Fn(ScalarOp, T, T) -> T,
    C: Fn(Number) -> T,
    Z: Fn(Relation, T, T) -> bool,
>(x: &Scalars<T, F, C, Z>, z: T)
    requires
        x.exact(),
        x.decays_at(z),
        x.negated(x.negated(z)) == z,
    ensures
        x.plus(x.logistic_of(z), x.logistic_of(x.negated(z))) == x.one(),
{
    let one = x.one();
    let (p, m) = (x.exp(z), x.exp(x.negated(z)));
    let (a, b) = (x.plus(one, m), x.plus(one, p));
    let (sa, sb) = (x.logistic_of(z), x.logistic_of(x.negated(z)));
    assert(x.times(sa, a) == one);
    assert(x.times(sb, b) == one);
    // a * b = 1 + m + p + m * p = a + b.
    x.times_plus(a, one, p);
    x.times_one(a);
    x.times_plus(p, one, m);
    x.times_one(p);
    x.times_comm(p, m);
    assert(x.times(a, p) == x.plus(p, one)) by {
        assert(x.times(p, m) == one);
        x.times_comm(m, p);
    }
    x.plus_comm(p, one);
    assert(x.times(a, b) == x.plus(a, b));
    // (sa + sb) * (a * b) = b + a.
    let s = x.plus(sa, sb);
    x.times_plus(x.times(a, b), sa, sb);
    x.times_assoc(sa, a, b);
    x.times_one(b);
    x.times_comm(a, b);
    x.times_assoc(sb, b, a);
    x.times_one(a);
    x.plus_comm(a, b);
    let total = x.times(a, b);
    assert(x.times(s, total) == x.plus(b, a));
    x.times_one(total);
    assert(x.unit(total)) by {
        let i = choose|i: T| #[trigger] x.times(a, i) == one;
        let j = choose|j: T| #[trigger] x.times(b, j) == one;
        let k = x.times(j, i);
        x.times_assoc(a, b, k);
        x.times_assoc(b, j, i);
        x.times_one(i);
        assert(x.times(total, k) == one);
    }
    x.unit_cancel(s, one, total);
}

/// `z / (1 + exp(-z))` is `z` times the logistic function.
proof fn lemma_silu_is_weighed<
    T: Copy,
    F: Fn(ScalarOp, T, T) -> T,
    C: Fn(Number) -> T,
    Z: Fn(Relation, T, T) -> bool,
>(x: &Scalars<T, F, C, Z>, z: T)
    requires
        x.exact(),
        x.decays_at(z),
    ensures
        x.silu_of(z) == x.times(z, x.logistic_of(z)),
{
    let a = x.plus(x.one(), x.exp(x.negated(z)));
    let s = x.logistic_of(z);
    assert(x.times(x.over(z, a), a) == z);
    assert(x.times(s, a) == x.one());
    x.times_assoc(z, s, a);
    x.times_one(z);
    x.unit_cancel(x.silu_of(z), x.times(z, s), a);
}

proof fn lemma_reflected_shares<
    T: Copy,
    F: Fn(ScalarOp, T, T) -> T,
    C: Fn(Number) -> T,
    Z: Fn(Relation, T, T) -> bool,
>(x: &Scalars<T, F, C, Z>, z: T)
    requires
        x.ring(),
        x.plus(x.logistic_of(z), x.logistic_of(x.negated(z))) == x.one(),
    ensures
        x.minus(
            x.times(z, x.logistic_of(z)),
            x.times(x.negated(z), x.logistic_of(x.negated(z))),
        ) == z,
{
    let n = x.negated(z);
    let (a, b) = (x.logistic_of(z), x.logistic_of(n));
    x.times_negated(b, z);
    x.minus_is(x.times(z, a), x.negated(x.times(z, b)));
    x.negated_twice(x.times(z, b));
    x.times_plus(z, a, b);
    x.times_one(z);
}

/// Only the sum of a rate and its bias matters for the step that they make.
pub proof fn law_rate_and_bias_add_up<
    T: Copy,
    F: Fn(ScalarOp, T, T) -> T,
    C: Fn(Number) -> T,
    Z: Fn(Relation, T, T) -> bool,
>(x: &Scalars<T, F, C, Z>, rate: T, bias: T, other_rate: T, other_bias: T)
    requires
        x.plus(rate, bias) == x.plus(other_rate, other_bias),
    ensures
        x.step_size(rate, bias) == x.step_size(other_rate, other_bias),
{
}

/// A normed row is scaled and shifted entry by entry: weights and biases that are
/// the same at an entry give it the same, whatever they are elsewhere.
pub proof fn law_norm_weights_belong_to_their_entry<
    T: Copy,
    F: Fn(ScalarOp, T, T) -> T,
    C: Fn(Number) -> T,
    Z: Fn(Relation, T, T) -> bool,
>(
    x: &Scalars<T, F, C, Z>,
    row: Seq<T>,
    weight: Seq<T>,
    bias: Seq<T>,
    other: Seq<T>,
    other_bias: Seq<T>,
    eps: T,
    j: int,
)
    requires
        0 <= j < row.len(),
        weight[j] == other[j],
        bias[j] == other_bias[j],
    ensures
        x.layer_normed(row, weight, Some(bias), eps)[j] == x.layer_normed(
            row,
            other,
            Some(other_bias),
            eps,
        )[j],
        x.layer_normed(row, weight, None, eps)[j] == x.layer_normed(row, other, None, eps)[j],
        x.layer_normed(row, weight, Some(bias), eps)[j] == x.plus(
            x.layer_normed(row, weight, None, eps)[j],
            bias[j],
        ),
{
}

/// A norm that takes the mean off does not see a shift: a row with the same
/// number added to every entry is normed to the same row.
pub proof fn law_norm_does_not_see_a_shift<
    T: Copy,
    F: Fn(ScalarOp, T, T) -> T,
    C: Fn(Number) -> T,
    Z: Fn(Relation, T, T) -> bool,
>(
    x: &Scalars<T, F, C, Z>,
    row: Seq<T>,
    shifted: Seq<T>,
    by: T,
    weight: Seq<T>,
    bias: Option<Seq<T>>,
    eps: T,
)
    requires
        x.exact(),
        shifted.len() == row.len(),
        forall|i: int| 0 <= i < row.len() ==> #[trigger] shifted[i] == x.plus(row[i], by),
        x.unit(x.number(row.len() as usize)),
        x.gathered(x.zero(), row.len(), |i: int| x.one()) == x.number(row.len() as usize),
    ensures
        x.layer_normed(shifted, weight, bias, eps) == x.layer_normed(row, weight, bias, eps),
{
    let len = row.len();
    let n = x.number(len as usize);
    let (s, t) = (x.row_sum(row), x.row_sum(shifted));
    let (mean, moved) = (x.over(s, n), x.over(t, n));
    let ones = |i: int| x.one();
    let same = |i: int| by;
    assert forall|i: int| 0 <= i < len implies #[trigger] same(i) == x.times(by, ones(i)) by {
        x.times_one(by);
    }
    x.gathered_times(len, by, ones, same);
    x.gathered_plus(len, |i: int| row[i], same, |i: int| shifted[i]);
    assert(t == x.plus(s, x.times(by, n)));
    assert(x.times(mean, n) == s && x.times(moved, n) == t);
    x.times_plus(n, mean, by);
    x.unit_cancel(moved, x.plus(mean, by), n);
    assert forall|i: int| 0 <= i < len implies #[trigger] x.minus(shifted[i], moved) == x.minus(
        row[i],
        mean,
    ) by {
        assert(shifted[i] == x.plus(row[i], by));
        let (a, nm, nb) = (row[i], x.negated(mean), x.negated(by));
        x.minus_is(shifted[i], moved);
        x.minus_is(a, mean);
        x.negated_plus(mean, by);
        x.plus_pairs(a, by, nm, nb);
        x.plus_negated(by);
        x.plus_zero(x.plus(a, nm));
    }
    x.lemma_gathered_same(
        x.zero(),
        len,
        |i: int| x.times(x.minus(shifted[i], moved), x.minus(shifted[i], moved)),
        |i: int| x.times(x.minus(row[i], mean), x.minus(row[i], mean)),
    );
    assert forall|j: int| 0 <= j < len implies x.layer_normed(shifted, weight, bias, eps)[j]
        == x.layer_normed(row, weight, bias, eps)[j] by {
        assert(x.minus(shifted[j], moved) == x.minus(row[j], mean));
    }
    assert(x.layer_normed(shifted, weight, bias, eps) =~= x.layer_normed(row, weight, bias, eps));
}

/// A norm gives rows of one spread: without a floor under it, and with weights of
/// one, the squares of a normed row add up to its length.
pub proof fn law_norm_gives_one_spread<
    T: Copy,
    F: Fn(ScalarOp, T, T) -> T,
    C: Fn(Number) -> T,
    Z: Fn(Relation, T, T) -> bool,
>(x: &Scalars<T, F, C, Z>, row: Seq<T>, weight: Seq<T>)
    requires
        x.exact(),
        x.unit(x.number(row.len() as usize)),
        forall|j: int| 0 <= j < row.len() ==> #[trigger] weight[j] == x.one(),
        x.times(x.root(x.spread_of(row)), x.root(x.spread_of(row))) == x.spread_of(row),
        x.unit(x.root(x.spread_of(row))),
    ensures
        ({
            let out = x.layer_normed(row, weight, None, x.zero());
            x.gathered(x.zero(), row.len(), |j: int| x.times(out[j], out[j])) == x.number(
                row.len() as usize,
            )
        }),
{
    let len = row.len();
    let n = x.number(len as usize);
    let mean = x.over(x.row_sum(row), n);
    let square = |i: int| x.times(x.minus(row[i], mean), x.minus(row[i], mean));
    let sum = x.gathered(x.zero(), len, square);
    let spread = x.over(sum, n);
    assert(spread == x.spread_of(row));
    assert(x.times(spread, n) == sum);
    x.plus_zero(spread);
    let root = x.root(spread);
    let inv = x.over(x.one(), root);
    assert(x.times(inv, root) == x.one());
    let out = x.layer_normed(row, weight, None, x.zero());
    let term = |j: int| x.times(out[j], out[j]);
    let factor = x.times(inv, inv);
    assert forall|j: int| 0 <= j < len implies #[trigger] term(j) == x.times(factor, square(j)) by {
        let d = x.minus(row[j], mean);
        let y = x.times(d, inv);
        assert(weight[j] == x.one());
        x.times_one(y);
        x.times_assoc(d, inv, y);
        x.times_assoc(inv, d, inv);
        x.times_comm(d, inv);
        x.times_comm(inv, y);
        x.times_assoc(d, inv, inv);
        x.times_assoc(d, d, factor);
        x.times_comm(x.times(d, d), factor);
        assert(x.times(inv, y) == x.times(d, factor));
        assert(out[j] == y);
    }
    x.gathered_times(len, factor, square, term);
    // inv * inv * (root * root) is one.
    x.times_assoc(inv, inv, spread);
    x.times_assoc(inv, root, root);
    x.times_one(root);
    assert(x.times(inv, spread) == root);
    assert(x.times(factor, spread) == x.one());
    x.times_assoc(factor, spread, n);
    x.times_one(n);
}

impl<T: Copy, F: Fn(ScalarOp, T, T) -> T, C: Fn(Number) -> T, Z: Fn(Relation, T, T) -> bool> Scalars<T, F, C, Z> {
    /// The mean square distance of a row from its mean.
    pub open spec fn spread_of(&self, row: Seq<T>) -> T {
        let n = self.number(row.len() as usize);
        let mean = self.over(self.row_sum(row), n);
        self.over(
            self.gathered(
                self.zero(),
                row.len(),
                |i: int| self.times(self.minus(row[i], mean), self.minus(row[i], mean)),
            ),
            n,
        )
    }
}

/// A tap weighs its own input: with a one for tap `at` and zeros for the others, a
/// short convolution gives the input there, gated, and a convolution with a bias
/// gives the input there and the bias, activated.
pub proof fn law_one_tap_weighs_its_input<
    T: Copy,
    F: Fn(ScalarOp, T, T) -> T,
    C: Fn(Number) -> T,
    Z: Fn(Relation, T, T) -> bool,
>(
    x: &Scalars<T, F, C, Z>,
    gate: T,
    bias: T,
    taps: Seq<T>,
    inputs: Seq<T>,
    at: int,
)
    requires
        x.ring(),
        0 <= at < taps.len(),
        inputs.len() == taps.len(),
        forall|k: int|
            0 <= k < taps.len() ==> #[trigger] taps[k] == if k == at {
                x.one()
            } else {
                x.zero()
            },
    ensures
        x.shortconv_of(gate, taps, inputs) == x.times(gate, inputs[at]),
        x.conv_of(bias, taps, inputs) == x.silu_of(x.plus(bias, inputs[at])),
{
    let n = taps.len();
    let last = n - 1;
    let term = |k: int| x.times(taps[k], inputs[k]);
    assert forall|k: int| 0 <= k < n && k != at implies #[trigger] term(k) == x.zero() by {
        x.times_zero(inputs[k]);
    }
    x.times_one(inputs[at]);
    assert(term(at) == inputs[at]);
    x.lemma_lone_term(n, at, term);
    x.gathered_start(bias, n, term);
    x.gathered_start(term(last), last as nat, term);
    x.plus_zero(inputs[at]);
    if at == last {
        x.gathered_nothing(last as nat, term);
    } else {
        x.lemma_lone_term(last as nat, at, term);
    }
}

/// The cells of a scan run by themselves: a cell with the contents and the opening
/// of a cell of another channel changes alike, and a reader that is one at a cell
/// and zero elsewhere reads that cell.
pub proof fn law_scan_cells_run_alike<
    T: Copy,
    F: Fn(ScalarOp, T, T) -> T,
    C: Fn(Number) -> T,
    Z: Fn(Relation, T, T) -> bool,
>(
    x: &Scalars<T, F, C, Z>,
    dt: T,
    a: T,
    d: T,
    input: T,
    cells: Seq<T>,
    b: Seq<T>,
    reader: Seq<T>,
    k: int,
    other: Seq<T>,
    other_b: Seq<T>,
    l: int,
)
    requires
        x.ring(),
        0 <= k < cells.len(),
        0 <= l < other.len(),
        cells[k] == other[l],
        b[k] == other_b[l],
        forall|i: int|
            0 <= i < cells.len() ==> #[trigger] reader[i] == if i == k {
                x.one()
            } else {
                x.zero()
            },
    ensures
        x.scanned_cells(dt, a, input, cells, b)[k] == x.scanned_cells(
            dt,
            a,
            input,
            other,
            other_b,
        )[l],
        x.scanned_output(dt, d, input, cells, reader) == x.plus(
            cells[k],
            x.times(d, x.times(input, dt)),
        ),
{
    let term = |i: int| x.times(cells[i], reader[i]);
    assert forall|i: int| 0 <= i < cells.len() && i != k implies #[trigger] term(i)
        == x.zero() by {
        x.times_zero(cells[i]);
    }
    x.times_one(cells[k]);
    x.lemma_lone_term(cells.len(), k, term);
}

/// A channel without input but decays: its cells shrink by one common factor, so
/// what a scan step does to two channels' cells, added up, it does to each.
pub proof fn law_scan_step_adds_up<
    T: Copy,
    F: Fn(ScalarOp, T, T) -> T,
    C: Fn(Number) -> T,
    Z: Fn(Relation, T, T) -> bool,
>(
    x: &Scalars<T, F, C, Z>,
    dt: T,
    a: T,
    input: T,
    other: T,
    cells: Seq<T>,
    more: Seq<T>,
    b: Seq<T>,
    k: int,
)
    requires
        x.ring(),
        0 <= k < cells.len(),
        more.len() == cells.len(),
    ensures
        x.scanned_cells(
            dt,
            a,
            x.plus(input, other),
            Seq::new(cells.len(), |i: int| x.plus(cells[i], more[i])),
            b,
        )[k] == x.plus(
            x.scanned_cells(dt, a, input, cells, b)[k],
            x.scanned_cells(dt, a, other, more, b)[k],
        ),
{
    let keep = x.exp(x.times(dt, a));
    x.times_plus(dt, input, other);
    x.times_plus(keep, cells[k], more[k]);
    let (p, q) = (x.times(input, dt), x.times(other, dt));
    x.times_plus(b[k], p, q);
    x.plus_pairs(
        x.times(cells[k], keep),
        x.times(more[k], keep),
        x.times(b[k], p),
        x.times(b[k], q),
    );
}

/// Rows are normed by themselves: norming two stretches of rows at once gives the
/// normed rows of the one, and then those of the other; and a single row is normed
/// as a row.
pub proof fn law_normed_rows_join<
    T: Copy,
    F: Fn(ScalarOp, T, T) -> T,
    C: Fn(Number) -> T,
    Z: Fn(Relation, T, T) -> bool,
>(
    x: &Scalars<T, F, C, Z>,
    a: Seq<T>,
    b: Seq<T>,
    count: nat,
    more: nat,
    width: nat,
    weight: Seq<T>,
    bias: Option<Seq<T>>,
    eps: T,
)
    requires
        width > 0,
        a.len() == count * width,
        b.len() == more * width,
    ensures
        x.layer_normed_rows(a + b, width, weight, bias, eps) == x.layer_normed_rows(
            a,
            width,
            weight,
            bias,
            eps,
        ) + x.layer_normed_rows(b, width, weight, bias, eps),
        count == 1 ==> x.layer_normed_rows(a, width, weight, bias, eps) == x.layer_normed(
            a,
            weight,
            bias,
            eps,
        ),
{
    let all = x.layer_normed_rows(a + b, width, weight, bias, eps);
    let parts = x.layer_normed_rows(a, width, weight, bias, eps) + x.layer_normed_rows(
        b,
        width,
        weight,
        bias,
        eps,
    );
    let w = width as int;
    assert forall|p: int| 0 <= p < all.len() implies all[p] == parts[p] by {
        if p < a.len() {
            lemma_flat_index(p, count as int, w);
            lemma_row_bounds(p / w, count as int, w);
            assert(row_at(a + b, w, p / w) =~= row_at(a, w, p / w));
        } else {
            let q = p - count * width;
            lemma_flat_index(q, more as int, w);
            let s = q / w;
            assert((count + s) * w + q % w == p) by (nonlinear_arith)
                requires
                    q == s * w + q % w,
                    p == count * w + q,
            ;
            lemma_cell_coordinates(count + s, q % w, w);
            assert((count + s) * w == count * w + s * w) by (nonlinear_arith);
            lemma_row_bounds(s, more as int, w);
            assert(row_at(a + b, w, count + s) =~= row_at(b, w, s));
        }
    }
    assert(all =~= parts);
    if count == 1 {
        assert(1 * width == width);
        let (rows, row) = (
            x.layer_normed_rows(a, width, weight, bias, eps),
            x.layer_normed(a, weight, bias, eps),
        );
        assert(row_at(a, w, 0) =~= a);
        assert forall|p: int| 0 <= p < width implies rows[p] == row[p] by {
            lemma_cell_coordinates(0, p, w);
            assert(0 * w + p == p);
        }
        assert(rows =~= row);
    }
}

} // verus!
