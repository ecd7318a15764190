//! The slopes of feature matching are gradients: what they weigh the slopes of
//! the logits to is the slope of the summed squared distance.

use crate::gla::{head_rows, HeadRows};
use crate::gla_backward::TokenBack;
use crate::gla_features::{
    common, heads_side_by_side, kv_start, lemma_head_of, part_of, FmCache, FmWeights,
};
use crate::gla_gradient::{
    changes, input_slope, law_backward_is_gradient, lemma_state_values, lemma_total_changes,
    output_slope, Dual, TokenRows,
};
use crate::numeric::Real;
use crate::rows::lemma_row_bounds;
use crate::scalar::{grid, Number, Relation, ScalarOp, Scalars, TINY};
use vstd::prelude::*;

verus! {

impl<T: Copy, F: Fn(ScalarOp, T, T) -> T, C: Fn(Number) -> T, Z: Fn(Relation, T, T) -> bool> Scalars<T, F, C, Z> {
    /// The squared distances of the cells of two tables, added up.
    pub open spec fn squared_distance(
        &self,
        rows: nat,
        cols: nat,
        a: Seq<Seq<T>>,
        b: Seq<Seq<T>>,
    ) -> T {
        self.table_total(
            rows,
            cols,
            |i: int, j: int|
                self.times(self.minus(a[i][j], b[i][j]), self.minus(a[i][j], b[i][j])),
        )
    }

    proof fn minus_nothing(&self, a: T)
        requires
            self.ring(),
        ensures
            self.minus(a, self.zero()) == a,
    {
        let z = self.zero();
        self.minus_is(a, z);
        self.plus_negated(z);
        self.plus_zero(self.negated(z));
        self.plus_zero(a);
    }

    /// What the quotient rule gives for the logistic function is its result
    /// times what that result leaves to one.
    proof fn logistic_slope(&self, d: T, e: T)
        requires
            self.exact(),
            self.unit(self.plus(self.one(), e)),
        ensures
            ({
                let s = self.plus(self.one(), e);
                let g = self.over(self.one(), s);
                self.over(
                    self.minus(
                        self.zero(),
                        self.times(g, self.plus(self.zero(), self.times(e, self.negated(d)))),
                    ),
                    s,
                ) == self.through_gate(d, g)
            }),
    {
        let one = self.one();
        let s = self.plus(one, e);
        let g = self.over(one, s);
        let m = self.times(e, d);
        let q = self.times(g, m);
        self.times_negated(e, d);
        self.plus_zero(self.negated(m));
        self.times_negated(g, m);
        self.minus_is(self.zero(), self.negated(q));
        self.negated_twice(q);
        self.plus_zero(q);
        // 1 - g = e g
        let rest = self.minus(one, g);
        let eg = self.times(e, g);
        assert(self.times(g, s) == one);
        self.times_plus(g, one, e);
        self.times_one(g);
        self.times_comm(g, e);
        self.minus_is(one, g);
        self.plus_comm(g, eg);
        self.plus_assoc(eg, g, self.negated(g));
        self.plus_negated(g);
        self.plus_zero(eg);
        assert(rest == eg);
        // Both sides times s are g e d.
        let left = self.over(q, s);
        let dg = self.times(d, g);
        let right = self.times(dg, rest);
        assert(self.times(left, s) == q);
        self.times_assoc(dg, eg, s);
        self.times_assoc(e, g, s);
        self.times_one(e);
        assert(self.times(right, s) == self.times(dg, e));
        self.times_comm(d, g);
        self.times_assoc(g, d, e);
        self.times_comm(d, e);
        self.unit_cancel(left, right, s);
    }

    /// A sum over heads and channels, head after head.
    proof fn total_by_heads(&self, heads: nat, dv: nat, f: spec_fn(int) -> T)
        requires
            self.ring(),
        ensures
            self.total(heads * dv, f) == self.total(
                heads,
                |h: int| self.total(dv, |j: int| f(h * dv + j)),
            ),
        decreases heads,
    {
        let by_head = |h: int| self.total(dv, |j: int| f(h * dv + j));
        if heads == 0 {
            assert(heads * dv == 0) by (nonlinear_arith)
                requires
                    heads == 0,
            ;
        } else {
            let m = (heads - 1) as nat;
            self.total_by_heads(m, dv, f);
            assert(heads * dv == m * dv + dv) by (nonlinear_arith)
                requires
                    heads == m + 1,
            ;
            self.total_from(m * dv, dv, f);
            assert(by_head(heads - 1) == self.total(dv, |j: int| f(m * dv + j)));
        }
    }

    /// A sum can be cut in two.
    proof fn total_from(&self, n: nat, more: nat, f: spec_fn(int) -> T)
        requires
            self.ring(),
        ensures
            self.total(n + more, f) == self.plus(
                self.total(n, f),
                self.total(more, |j: int| f(n + j)),
            ),
        decreases more,
    {
        let rest = |j: int| f(n + j);
        if more == 0 {
            self.plus_zero(self.total(n, f));
        } else {
            let m = (more - 1) as nat;
            self.total_from(n, m, f);
            self.plus_assoc(self.total(n, f), self.total(m, rest), rest(m as int));
            assert((n + more - 1) as nat == n + m);
        }
    }

    /// The slope of a token's squared distances, weighed by output in place of
    /// by distance.
    proof fn distances_turn(
        &self,
        hidden: nat,
        n: nat,
        d: spec_fn(int) -> T,
        w: spec_fn(int, int) -> T,
        o: spec_fn(int) -> T,
        turned: spec_fn(int) -> T,
        weighed: spec_fn(int) -> T,
    )
        requires
            self.ring(),
            forall|i: int|
                0 <= i < hidden ==> #[trigger] turned(i) == self.plus(
                    self.times(self.total(n, |c: int| self.times(w(i, c), o(c))), d(i)),
                    self.times(d(i), self.total(n, |c: int| self.times(w(i, c), o(c)))),
                ),
            forall|c: int|
                0 <= c < n ==> #[trigger] weighed(c) == self.times(
                    self.times(
                        self.total(hidden, |i: int| self.times(w(i, c), d(i))),
                        self.plus(self.one(), self.one()),
                    ),
                    o(c),
                ),
        ensures
            self.total(hidden, turned) == self.total(n, weighed),
    {
        let two = self.plus(self.one(), self.one());
        let cell = |i: int, c: int| self.times(self.times(d(i), two), self.times(w(i, c), o(c)));
        let by_row = |i: int| self.total(n, |c: int| cell(i, c));
        let by_col = |c: int| self.total(hidden, |i: int| cell(i, c));
        assert forall|i: int| 0 <= i < hidden implies #[trigger] turned(i) == by_row(i) by {
            let part = |c: int| self.times(w(i, c), o(c));
            let sum = self.total(n, part);
            self.lemma_gathered_same(
                self.zero(),
                n,
                part,
                |c: int| self.times(w(i, c), o(c)),
            );
            let dd = self.times(d(i), two);
            self.gathered_times(n, dd, part, |c: int| cell(i, c));
            // d 2 sum = d sum + d sum
            self.times_plus(d(i), self.one(), self.one());
            self.times_one(d(i));
            self.times_plus(sum, d(i), d(i));
            self.times_comm(sum, d(i));
        }
        self.lemma_gathered_same(self.zero(), hidden, turned, by_row);
        self.gathered_swap(hidden, n, cell);
        assert forall|c: int| 0 <= c < n implies #[trigger] weighed(c) == by_col(c) by {
            let part = |i: int| self.times(w(i, c), d(i));
            let sum = self.total(hidden, part);
            let oo = self.times(two, o(c));
            let col = |i: int| cell(i, c);
            assert forall|i: int| 0 <= i < hidden implies #[trigger] col(i) == self.times(
                oo,
                part(i),
            ) by {
                // (d 2) (w o) = (2 o) (w d)
                let (di, wi, oc) = (d(i), w(i, c), o(c));
                self.times_comm(di, two);
                self.times_assoc(two, di, self.times(wi, oc));
                self.times_assoc(two, oc, self.times(wi, di));
                self.times_comm(di, self.times(wi, oc));
                self.times_swap(wi, oc, di);
                self.times_comm(oc, self.times(wi, di));
            }
            self.gathered_times(hidden, oo, part, col);
            self.times_assoc(sum, two, o(c));
            self.times_comm(sum, oo);
        }
        self.lemma_gathered_same(self.zero(), n, weighed, by_col);
        self.lemma_gathered_same(
            self.zero(),
            n,
            by_col,
            |c: int| self.total(hidden, |i: int| cell(i, c)),
        );
    }

    /// What the gradients of a token weigh the changes of its gates to, where
    /// nothing else changes.
    proof fn earned_by_gates(&self, dk: nat, dv: nat, c: TokenBack<T>, d: TokenRows<T>)
        requires
            self.ring(),
            forall|i: int| 0 <= i < dk ==> #[trigger] d.q[i] == self.zero(),
            forall|i: int| 0 <= i < dk ==> #[trigger] d.k[i] == self.zero(),
            forall|j: int| 0 <= j < dv ==> #[trigger] d.v[j] == self.zero(),
        ensures
            self.earned(dk, dv, c, d) == self.plus(
                self.plus(
                    self.paired(dk, self.alpha_slope(dk, dv, c), d.alpha),
                    self.paired(dk, self.b_slope(dk, dv, c), d.b),
                ),
                self.paired(dv, self.w_slope(dk, dv, c), d.w),
            ),
    {
        self.paired_nothing(dk, self.q_slope(dk, dv, c), d.q);
        self.paired_nothing(dk, self.k_slope(dk, dv, c), d.k);
        self.paired_nothing(dv, self.v_slope(dk, dv, c), d.v);
        let a = self.paired(dk, self.alpha_slope(dk, dv, c), d.alpha);
        let b = self.paired(dk, self.b_slope(dk, dv, c), d.b);
        self.plus_zero(self.zero());
        self.plus_zero(a);
        self.plus_zero(self.plus(a, b));
    }

    proof fn paired_nothing(&self, n: nat, a: Seq<T>, b: Seq<T>)
        requires
            self.ring(),
            forall|i: int| 0 <= i < n ==> #[trigger] b[i] == self.zero(),
        ensures
            self.paired(n, a, b) == self.zero(),
    {
        let f = |i: int| self.times(a[i], b[i]);
        assert forall|i: int| 0 <= i < n implies #[trigger] f(i) == self.zero() by {
            assert(b[i] == self.zero());
            self.times_zero(a[i]);
        }
        self.gathered_nothing(n, f);
    }

    /// A slope in a gate is a slope in its logit.
    proof fn gates_turn(
        &self,
        n: nat,
        slope: Seq<T>,
        gate: Seq<T>,
        turn: Seq<T>,
        z: spec_fn(int) -> T,
        weighed: spec_fn(int) -> T,
    )
        requires
            self.ring(),
            forall|i: int| 0 <= i < n ==> #[trigger] turn[i] == self.through_gate(z(i), gate[i]),
            forall|i: int|
                0 <= i < n ==> #[trigger] weighed(i) == self.times(
                    self.through_gate(slope[i], gate[i]),
                    z(i),
                ),
        ensures
            self.paired(n, slope, turn) == self.total(n, weighed),
    {
        let f = |i: int| self.times(slope[i], turn[i]);
        assert forall|i: int| 0 <= i < n implies #[trigger] f(i) == weighed(i) by {
            assert(turn[i] == self.through_gate(z(i), gate[i]));
            let (a, zi, g) = (slope[i], z(i), gate[i]);
            let rest = self.minus(self.one(), g);
            // a ((z g) r) = ((a g) r) z
            self.times_assoc(a, self.times(zi, g), rest);
            self.times_comm(zi, g);
            self.times_assoc(a, g, zi);
            self.times_swap(self.times(a, g), zi, rest);
        }
        self.lemma_gathered_same(self.zero(), n, f, weighed);
    }

    /// Sums over heads, tokens and channels, with what the heads share taken
    /// out.
    proof fn heads_share(
        &self,
        heads: nat,
        t: nat,
        n: nat,
        g: spec_fn(int, int, int) -> T,
        z: spec_fn(int, int) -> T,
        by_head: spec_fn(int, int) -> T,
        shared: spec_fn(int, int) -> T,
    )
        requires
            self.ring(),
            forall|h: int, s: int|
                0 <= h < heads && 0 <= s < t ==> #[trigger] by_head(h, s) == self.total(
                    n,
                    |i: int| self.times(g(h, s, i), z(s, i)),
                ),
            forall|s: int, i: int|
                0 <= s < t && 0 <= i < n ==> #[trigger] shared(s, i) == self.times(
                    self.total(heads, |h: int| g(h, s, i)),
                    z(s, i),
                ),
        ensures
            self.table_total(heads, t, by_head) == self.table_total(t, n, shared),
    {
        self.gathered_swap(heads, t, by_head);
        let over_heads = |s: int| self.total(heads, |h: int| by_head(h, s));
        let over_channels = |s: int| self.total(n, |i: int| shared(s, i));
        assert forall|s: int| 0 <= s < t implies #[trigger] over_heads(s) == over_channels(s) by {
            let cell = |h: int, i: int| self.times(g(h, s, i), z(s, i));
            let rows = |h: int| self.total(n, |i: int| cell(h, i));
            let cols = |i: int| self.total(heads, |h: int| cell(h, i));
            assert forall|h: int| 0 <= h < heads implies #[trigger] rows(h) == by_head(h, s) by {
                self.lemma_gathered_same(
                    self.zero(),
                    n,
                    |i: int| cell(h, i),
                    |i: int| self.times(g(h, s, i), z(s, i)),
                );
            }
            self.lemma_gathered_same(self.zero(), heads, rows, |h: int| by_head(h, s));
            self.gathered_swap(heads, n, cell);
            assert forall|i: int| 0 <= i < n implies #[trigger] cols(i) == shared(s, i) by {
                let part = |h: int| g(h, s, i);
                assert forall|h: int| 0 <= h < heads implies #[trigger] cell(h, i) == self.times(
                    z(s, i),
                    part(h),
                ) by {
                    self.times_comm(g(h, s, i), z(s, i));
                }
                self.gathered_times(heads, z(s, i), part, |h: int| cell(h, i));
                self.times_comm(self.total(heads, part), z(s, i));
                self.lemma_gathered_same(self.zero(), heads, part, |h: int| g(h, s, i));
            }
            self.lemma_gathered_same(self.zero(), n, cols, |i: int| shared(s, i));
        }
        self.lemma_gathered_same(self.zero(), t, over_heads, over_channels);
    }
}

/// The numbers of `y` are changing numbers of `x` under every operation. Values
/// are those of `x`; counts and constants do not change, and what is made of
/// numbers that do not change does not change. Slopes follow the rules for sums,
/// differences and products, and those for quotients and the exponential
/// function.
#[verifier::opaque]
pub open spec fn differentiates<
    T: Copy,
    F: Fn(ScalarOp, T, T) -> T,
    C: Fn(Number) -> T,
    Z: Fn(Relation, T, T) -> bool,
    D: Copy,
    F2: Fn(ScalarOp, D, D) -> D,
    C2: Fn(Number) -> D,
    Z2: Fn(Relation, D, D) -> bool,
>(x: &Scalars<T, F, C, Z>, y: &Scalars<D, F2, C2, Z2>, p: Dual<D, T>) -> bool {
    let value = p.value;
    let slope = p.slope;
    &&& changes(x, y, p)
    &&& forall|o: ScalarOp, a: D, b: D| #[trigger]
        value(y.value(o, a, b)) == x.value(o, value(a), value(b))
    &&& forall|o: ScalarOp, a: D, b: D|
        slope(a) == x.zero() && slope(b) == x.zero() ==> #[trigger] slope(y.value(o, a, b))
            == x.zero()
    &&& forall|n: Number| #[trigger] value(y.numbered(n)) == x.numbered(n)
    &&& forall|n: Number| #[trigger] slope(y.numbered(n)) == x.zero()
    &&& forall|a: D| #[trigger] slope(y.negated(a)) == x.negated(slope(a))
    &&& forall|a: D| #[trigger] slope(y.exp(a)) == x.times(x.exp(value(a)), slope(a))
    &&& forall|a: D, b: D|
        x.unit(value(b)) ==> #[trigger] slope(y.over(a, b)) == x.over(
            x.minus(slope(a), x.times(x.over(value(a), value(b)), slope(b))),
            value(b),
        )
}

impl<D, T> Dual<D, T> {
    /// The values of a row.
    pub open spec fn row_values(&self, row: Seq<D>) -> Seq<T> {
        Seq::new(row.len(), |i: int| (self.value)(row[i]))
    }
}

/// The table does not change.
pub open spec fn still<T, D>(p: Dual<D, T>, zero: T, table: Seq<Seq<D>>) -> bool {
    forall|i: int, j: int|
        0 <= i < table.len() && 0 <= j < table[i].len() ==> (p.slope)(#[trigger] table[i][j])
            == zero
}

spec fn row_still<T, D>(p: Dual<D, T>, zero: T, row: Seq<D>) -> bool {
    forall|j: int| 0 <= j < row.len() ==> (p.slope)(#[trigger] row[j]) == zero
}

proof fn lemma_changes<
    T: Copy,
    F: Fn(ScalarOp, T, T) -> T,
    C: Fn(Number) -> T,
    Z: Fn(Relation, T, T) -> bool,
    D: Copy,
    F2: Fn(ScalarOp, D, D) -> D,
    C2: Fn(Number) -> D,
    Z2: Fn(Relation, D, D) -> bool,
>(x: &Scalars<T, F, C, Z>, y: &Scalars<D, F2, C2, Z2>, p: Dual<D, T>)
    requires
        differentiates(x, y, p),
    ensures
        changes(x, y, p),
{
    reveal(differentiates);
}

proof fn lemma_value<
    T: Copy,
    F: Fn(ScalarOp, T, T) -> T,
    C: Fn(Number) -> T,
    Z: Fn(Relation, T, T) -> bool,
    D: Copy,
    F2: Fn(ScalarOp, D, D) -> D,
    C2: Fn(Number) -> D,
    Z2: Fn(Relation, D, D) -> bool,
>(
    x: &Scalars<T, F, C, Z>,
    y: &Scalars<D, F2, C2, Z2>,
    p: Dual<D, T>,
    o: ScalarOp,
    a: D,
    b: D,
)
    requires
        differentiates(x, y, p),
    ensures
        (p.value)(y.value(o, a, b)) == x.value(o, (p.value)(a), (p.value)(b)),
        (p.slope)(a) == x.zero() && (p.slope)(b) == x.zero() ==> (p.slope)(y.value(o, a, b))
            == x.zero(),
{
    reveal(differentiates);
}

proof fn lemma_number<
    T: Copy,
    F: Fn(ScalarOp, T, T) -> T,
    C: Fn(Number) -> T,
    Z: Fn(Relation, T, T) -> bool,
    D: Copy,
    F2: Fn(ScalarOp, D, D) -> D,
    C2: Fn(Number) -> D,
    Z2: Fn(Relation, D, D) -> bool,
>(
    x: &Scalars<T, F, C, Z>,
    y: &Scalars<D, F2, C2, Z2>,
    p: Dual<D, T>,
    n: Number,
)
    requires
        differentiates(x, y, p),
    ensures
        (p.value)(y.numbered(n)) == x.numbered(n),
        (p.slope)(y.numbered(n)) == x.zero(),
{
    reveal(differentiates);
}

/// A gate with a changing logit.
proof fn lemma_gate<
    T: Copy,
    F: Fn(ScalarOp, T, T) -> T,
    C: Fn(Number) -> T,
    Z: Fn(Relation, T, T) -> bool,
    D: Copy,
    F2: Fn(ScalarOp, D, D) -> D,
    C2: Fn(Number) -> D,
    Z2: Fn(Relation, D, D) -> bool,
>(
    x: &Scalars<T, F, C, Z>,
    y: &Scalars<D, F2, C2, Z2>,
    p: Dual<D, T>,
    z: D,
)
    requires
        x.exact(),
        differentiates(x, y, p),
        x.unit(x.plus(x.one(), x.exp(x.negated((p.value)(z))))),
    ensures
        (p.value)(y.logistic_of(z)) == x.logistic_of((p.value)(z)),
        (p.slope)(y.logistic_of(z)) == x.through_gate(
            (p.slope)(z),
            x.logistic_of((p.value)(z)),
        ),
{
    reveal(differentiates);
    let v = (p.value)(z);
    let d = (p.slope)(z);
    let n = y.negated(z);
    let e = y.exp(n);
    let s = y.plus(y.one(), e);
    let g = y.over(y.one(), s);
    let ex = x.exp(x.negated(v));
    assert((p.value)(n) == x.negated(v));
    assert((p.value)(e) == ex);
    assert((p.value)(y.one()) == x.one());
    assert((p.slope)(y.one()) == x.zero());
    assert((p.value)(s) == x.plus(x.one(), ex));
    assert((p.value)(g) == x.over(x.one(), (p.value)(s)));
    assert((p.slope)(e) == x.times(ex, x.negated(d)));
    assert((p.slope)(s) == x.plus(x.zero(), x.times(ex, x.negated(d))));
    x.logistic_slope(d, ex);
}

/// A matrix that does not change times a vector that does not.
proof fn lemma_matvec<
    T: Copy,
    F: Fn(ScalarOp, T, T) -> T,
    C: Fn(Number) -> T,
    Z: Fn(Relation, T, T) -> bool,
    D: Copy,
    F2: Fn(ScalarOp, D, D) -> D,
    C2: Fn(Number) -> D,
    Z2: Fn(Relation, D, D) -> bool,
>(
    x: &Scalars<T, F, C, Z>,
    y: &Scalars<D, F2, C2, Z2>,
    p: Dual<D, T>,
    w: Seq<Seq<D>>,
    v: Seq<D>,
)
    requires
        x.ring(),
        differentiates(x, y, p),
    ensures
        p.row_values(y.matvec_of(w, v)) == x.matvec_of(p.values(w), p.row_values(v)),
        still(p, x.zero(), w) && row_still(p, x.zero(), v) ==> row_still(
            p,
            x.zero(),
            y.matvec_of(w, v),
        ),
{
    lemma_changes(x, y, p);
    let out = y.matvec_of(w, v);
    let want = x.matvec_of(p.values(w), p.row_values(v));
    assert forall|r: int| 0 <= r < w.len() implies (p.value)(#[trigger] out[r]) == want[r] && (
    still(p, x.zero(), w) && row_still(p, x.zero(), v) ==> (p.slope)(out[r]) == x.zero()) by {
        let n = common(w[r].len(), v.len());
        let f = |i: int| y.times(w[r][i], v[i]);
        let vs = |i: int| x.times(p.values(w)[r][i], p.row_values(v)[i]);
        let ss = |i: int| (p.slope)(f(i));
        lemma_total_changes(x, y, p, n, f, vs, ss);
        if still(p, x.zero(), w) && row_still(p, x.zero(), v) {
            assert forall|i: int| 0 <= i < n implies #[trigger] ss(i) == x.zero() by {
                assert((p.slope)(w[r][i]) == x.zero());
                assert((p.slope)(v[i]) == x.zero());
                lemma_value(x, y, p, ScalarOp::Times, w[r][i], v[i]);
            }
            x.gathered_nothing(n, ss);
        }
    }
    assert(p.row_values(out) =~= want);
}

/// A vector divided by its length.
proof fn lemma_normed<
    T: Copy,
    F: Fn(ScalarOp, T, T) -> T,
    C: Fn(Number) -> T,
    Z: Fn(Relation, T, T) -> bool,
    D: Copy,
    F2: Fn(ScalarOp, D, D) -> D,
    C2: Fn(Number) -> D,
    Z2: Fn(Relation, D, D) -> bool,
>(
    x: &Scalars<T, F, C, Z>,
    y: &Scalars<D, F2, C2, Z2>,
    p: Dual<D, T>,
    v: Seq<D>,
)
    requires
        x.ring(),
        differentiates(x, y, p),
        row_still(p, x.zero(), v),
    ensures
        p.row_values(y.normed(v)) == x.normed(p.row_values(v)),
        row_still(p, x.zero(), y.normed(v)),
{
    lemma_changes(x, y, p);
    let vx = p.row_values(v);
    let f = |i: int| y.times(v[i], v[i]);
    let vs = |i: int| x.times(vx[i], vx[i]);
    let ss = |i: int| (p.slope)(f(i));
    lemma_total_changes(x, y, p, v.len(), f, vs, ss);
    assert forall|i: int| 0 <= i < v.len() implies #[trigger] ss(i) == x.zero() by {
        assert((p.slope)(v[i]) == x.zero());
        lemma_value(x, y, p, ScalarOp::Times, v[i], v[i]);
    }
    x.gathered_nothing(v.len(), ss);
    let sum = y.gathered(y.zero(), v.len(), f);
    lemma_value(x, y, p, ScalarOp::Root, sum, sum);
    lemma_number(x, y, p, Number::Real(Real { bits: TINY }));
    lemma_value(x, y, p, ScalarOp::Larger, y.root(sum), y.tiny());
    let norm = y.norm_of(v);
    assert((p.value)(norm) == x.norm_of(vx));
    assert((p.slope)(norm) == x.zero());
    assert forall|i: int| 0 <= i < v.len() implies (p.value)(#[trigger] y.normed(v)[i])
        == x.normed(vx)[i] && (p.slope)(y.normed(v)[i]) == x.zero() by {
        assert((p.slope)(v[i]) == x.zero());
        lemma_value(x, y, p, ScalarOp::Over, v[i], norm);
    }
    assert(p.row_values(y.normed(v)) =~= x.normed(vx));
}

/// A run of feature matching: what it was given, and what going forward left.
pub struct MatchRun<T> {
    pub rows: Seq<Vec<T>>,
    pub weights: FmWeights<T>,
    pub target: Seq<Vec<T>>,
    pub zb: Seq<Vec<T>>,
    pub zw: Seq<Vec<T>>,
    pub zf: Seq<Vec<T>>,
    pub cache: FmCache<T>,
}

impl<T> MatchRun<T> {
    /// The weights cover every head, there is a row of logits and of the target
    /// for each token, and rows have their widths.
    pub open spec fn sized(&self, heads: nat, kv_heads: nat, dk: nat, dv: nat) -> bool {
        let t = self.rows.len();
        &&& t > 0
        &&& heads > 0
        &&& heads * dk <= self.weights.wq@.len()
        &&& forall|h: nat|
            h < heads ==> #[trigger] kv_start(h, heads, kv_heads, dk) + dk
                <= self.weights.wk@.len()
        &&& forall|h: nat|
            h < heads ==> #[trigger] kv_start(h, heads, kv_heads, dv) + dv
                <= self.weights.wv@.len()
        &&& forall|i: int|
            0 <= i < self.weights.wo@.len() ==> #[trigger] self.weights.wo@[i]@.len() >= heads * dv
        &&& self.zb.len() == t
        &&& self.zw.len() == t
        &&& self.zf.len() == t
        &&& forall|s: int| 0 <= s < t ==> #[trigger] self.zb[s]@.len() == dk
        &&& forall|s: int| 0 <= s < t ==> #[trigger] self.zw[s]@.len() == dv
        &&& forall|s: int| 0 <= s < t ==> #[trigger] self.zf[s]@.len() == dk
        &&& self.target.len() == t
        &&& forall|s: int|
            0 <= s < t ==> #[trigger] self.target[s]@.len() >= self.weights.wo@.len()
    }
}

/// Going forward left what it leaves.
pub open spec fn went_forward<
    T: Copy,
    F: Fn(ScalarOp, T, T) -> T,
    C: Fn(Number) -> T,
    Z: Fn(Relation, T, T) -> bool,
>(
    x: &Scalars<T, F, C, Z>,
    heads: nat,
    kv_heads: nat,
    dk: nat,
    dv: nat,
    run: MatchRun<T>,
) -> bool {
    x.fm_cached(
        run.rows,
        run.weights,
        heads,
        kv_heads,
        dk,
        dv,
        run.zb,
        run.zw,
        run.zf,
        run.cache,
    )
}

/// A run in changing numbers whose values are those of a run. The inputs, the
/// weights and the target do not change; the logits may.
pub open spec fn turns<T, D>(p: Dual<D, T>, zero: T, run: MatchRun<T>, turned: MatchRun<D>) -> bool {
    &&& p.values(grid(turned.rows)) == grid(run.rows)
    &&& p.values(grid(turned.weights.wq@)) == grid(run.weights.wq@)
    &&& p.values(grid(turned.weights.wk@)) == grid(run.weights.wk@)
    &&& p.values(grid(turned.weights.wv@)) == grid(run.weights.wv@)
    &&& p.values(grid(turned.weights.wo@)) == grid(run.weights.wo@)
    &&& p.values(grid(turned.target)) == grid(run.target)
    &&& p.values(grid(turned.zb)) == grid(run.zb)
    &&& p.values(grid(turned.zw)) == grid(run.zw)
    &&& p.values(grid(turned.zf)) == grid(run.zf)
    &&& still(p, zero, grid(turned.rows))
    &&& still(p, zero, grid(turned.weights.wq@))
    &&& still(p, zero, grid(turned.weights.wk@))
    &&& still(p, zero, grid(turned.weights.wv@))
    &&& still(p, zero, grid(turned.weights.wo@))
    &&& still(p, zero, grid(turned.target))
}

/// Every gate can be divided by what it is divided by.
pub open spec fn gates_exist<
    T: Copy,
    F: Fn(ScalarOp, T, T) -> T,
    C: Fn(Number) -> T,
    Z: Fn(Relation, T, T) -> bool,
>(x: &Scalars<T, F, C, Z>) -> bool {
    forall|a: T| x.unit(x.plus(x.one(), #[trigger] x.exp(a)))
}

/// Channels of a projection that does not change.
proof fn lemma_channels<
    T: Copy,
    F: Fn(ScalarOp, T, T) -> T,
    C: Fn(Number) -> T,
    Z: Fn(Relation, T, T) -> bool,
    D: Copy,
    F2: Fn(ScalarOp, D, D) -> D,
    C2: Fn(Number) -> D,
    Z2: Fn(Relation, D, D) -> bool,
>(
    x: &Scalars<T, F, C, Z>,
    y: &Scalars<D, F2, C2, Z2>,
    p: Dual<D, T>,
    w: Seq<Seq<D>>,
    v: Seq<D>,
    from: nat,
    len: nat,
)
    requires
        x.ring(),
        differentiates(x, y, p),
        from + len <= w.len(),
        still(p, x.zero(), w),
        row_still(p, x.zero(), v),
    ensures
        p.row_values(part_of(y.matvec_of(w, v), from, len)) == part_of(
            x.matvec_of(p.values(w), p.row_values(v)),
            from,
            len,
        ),
        row_still(p, x.zero(), part_of(y.matvec_of(w, v), from, len)),
{
    lemma_matvec(x, y, p, w, v);
    let whole = y.matvec_of(w, v);
    let part = part_of(whole, from, len);
    assert forall|j: int| 0 <= j < part.len() implies (p.slope)(#[trigger] part[j])
        == x.zero() by {
        assert(part[j] == whole[from + j]);
    }
    assert(p.row_values(part) =~= part_of(p.row_values(whole), from, len));
}

/// A row of gates.
proof fn lemma_gates<
    T: Copy,
    F: Fn(ScalarOp, T, T) -> T,
    C: Fn(Number) -> T,
    Z: Fn(Relation, T, T) -> bool,
    D: Copy,
    F2: Fn(ScalarOp, D, D) -> D,
    C2: Fn(Number) -> D,
    Z2: Fn(Relation, D, D) -> bool,
>(
    x: &Scalars<T, F, C, Z>,
    y: &Scalars<D, F2, C2, Z2>,
    p: Dual<D, T>,
    z: Seq<D>,
)
    requires
        x.exact(),
        differentiates(x, y, p),
        gates_exist(x),
    ensures
        p.row_values(y.gates_of(z)) == x.gates_of(p.row_values(z)),
        forall|i: int|
            0 <= i < z.len() ==> (p.slope)(#[trigger] y.gates_of(z)[i]) == x.through_gate(
                (p.slope)(z[i]),
                x.gates_of(p.row_values(z))[i],
            ),
{
    let g = y.gates_of(z);
    let want = x.gates_of(p.row_values(z));
    assert forall|i: int| 0 <= i < z.len() implies (p.value)(#[trigger] g[i]) == want[i] && (
    p.slope)(g[i]) == x.through_gate((p.slope)(z[i]), want[i]) by {
        assert(x.unit(x.plus(x.one(), x.exp(x.negated((p.value)(z[i]))))));
        lemma_gate(x, y, p, z[i]);
    }
    assert(p.row_values(g) =~= want);
}

/// What a head reads in changing numbers: its values are what the head reads,
/// and only its gates change.
proof fn lemma_head<
    T: Copy,
    F: Fn(ScalarOp, T, T) -> T,
    C: Fn(Number) -> T,
    Z: Fn(Relation, T, T) -> bool,
    D: Copy,
    F2: Fn(ScalarOp, D, D) -> D,
    C2: Fn(Number) -> D,
    Z2: Fn(Relation, D, D) -> bool,
>(
    x: &Scalars<T, F, C, Z>,
    y: &Scalars<D, F2, C2, Z2>,
    p: Dual<D, T>,
    heads: nat,
    kv_heads: nat,
    dk: nat,
    dv: nat,
    run: MatchRun<T>,
    turned: MatchRun<D>,
    h: int,
)
    requires
        x.exact(),
        differentiates(x, y, p),
        gates_exist(x),
        run.sized(heads, kv_heads, dk, dv),
        turned.sized(heads, kv_heads, dk, dv),
        went_forward(x, heads, kv_heads, dk, dv, run),
        went_forward(y, heads, kv_heads, dk, dv, turned),
        turns(p, x.zero(), run, turned),
        0 <= h < heads,
    ensures
        ({
            let c = turned.cache;
            let rows = head_rows(c.q@, c.k@, c.v@, c.alpha@, c.b@, c.w@, h);
            &&& rows.wf(run.rows.len(), dk, dv)
            &&& still(p, x.zero(), rows.q)
            &&& still(p, x.zero(), rows.k)
            &&& still(p, x.zero(), rows.v)
            &&& p.head_values(rows) == head_rows(
                run.cache.q@,
                run.cache.k@,
                run.cache.v@,
                run.cache.alpha@,
                run.cache.b@,
                run.cache.w@,
                h,
            )
        }),
{
    let t = run.rows.len();
    let c = turned.cache;
    let d = run.cache;
    let rows = head_rows(c.q@, c.k@, c.v@, c.alpha@, c.b@, c.w@, h);
    let want = head_rows(d.q@, d.k@, d.v@, d.alpha@, d.b@, d.w@, h);
    let start = kv_start(h as nat, heads, kv_heads, dk);
    assert(grid(turned.rows).len() == p.values(grid(turned.rows)).len());
    assert(turned.rows.len() == t);
    assert(h * dk + dk <= heads * dk) by (nonlinear_arith)
        requires
            0 <= h < heads,
            0 <= dk,
    ;
    assert(grid(turned.weights.wq@).len() == p.values(grid(turned.weights.wq@)).len());
    assert forall|s: int|
        #![trigger rows.q[s]]
        #![trigger rows.k[s]]
        #![trigger rows.v[s]]
        0 <= s < t implies {
        &&& rows.q[s].len() == dk
        &&& rows.k[s].len() == dk
        &&& rows.v[s].len() == dv
        &&& row_still(p, x.zero(), rows.q[s])
        &&& row_still(p, x.zero(), rows.k[s])
        &&& row_still(p, x.zero(), rows.v[s])
        &&& p.row_values(rows.q[s]) == want.q[s]
        &&& p.row_values(rows.k[s]) == want.k[s]
        &&& p.row_values(rows.v[s]) == want.v[s]
    } by {
        let r = turned.rows[s]@;
        assert(grid(turned.rows)[s] == r);
        assert(p.row_values(r) =~= p.values(grid(turned.rows))[s]);
        assert(p.row_values(r) == run.rows[s]@);
        assert(row_still(p, x.zero(), r)) by {
            assert forall|j: int| 0 <= j < r.len() implies (p.slope)(#[trigger] r[j])
                == x.zero() by {
                assert(grid(turned.rows)[s][j] == r[j]);
            }
        }
        lemma_channels(x, y, p, grid(turned.weights.wq@), r, h as nat * dk, dk);
        lemma_channels(x, y, p, grid(turned.weights.wk@), r, start, dk);
        lemma_channels(
            x,
            y,
            p,
            grid(turned.weights.wv@),
            r,
            kv_start(h as nat, heads, kv_heads, dv),
            dv,
        );
        lemma_normed(
            x,
            y,
            p,
            part_of(y.matvec_of(grid(turned.weights.wq@), r), h as nat * dk, dk),
        );
        lemma_normed(x, y, p, part_of(y.matvec_of(grid(turned.weights.wk@), r), start, dk));
        assert(rows.q[s] == c.q@[h]@[s]@);
        assert(rows.k[s] == c.k@[h]@[s]@);
        assert(rows.v[s] == c.v@[h]@[s]@);
        assert(want.q[s] == d.q@[h]@[s]@);
        assert(want.k[s] == d.k@[h]@[s]@);
        assert(want.v[s] == d.v@[h]@[s]@);
    }
    assert forall|s: int|
        #![trigger rows.alpha[s]]
        #![trigger rows.b[s]]
        #![trigger rows.w[s]]
        0 <= s < t implies {
        &&& rows.alpha[s].len() == dk
        &&& rows.b[s].len() == dk
        &&& rows.w[s].len() == dv
        &&& p.row_values(rows.alpha[s]) == want.alpha[s]
        &&& p.row_values(rows.b[s]) == want.b[s]
        &&& p.row_values(rows.w[s]) == want.w[s]
    } by {
        assert(p.row_values(turned.zf[s]@) =~= p.values(grid(turned.zf))[s]);
        assert(p.row_values(turned.zb[s]@) =~= p.values(grid(turned.zb))[s]);
        assert(p.row_values(turned.zw[s]@) =~= p.values(grid(turned.zw))[s]);
        assert(grid(run.zf)[s] == run.zf[s]@);
        assert(grid(run.zb)[s] == run.zb[s]@);
        assert(grid(run.zw)[s] == run.zw[s]@);
        lemma_gates(x, y, p, turned.zf[s]@);
        lemma_gates(x, y, p, turned.zb[s]@);
        lemma_gates(x, y, p, turned.zw[s]@);
        assert(rows.alpha[s] == c.alpha@[h]@[s]@);
        assert(rows.b[s] == c.b@[h]@[s]@);
        assert(rows.w[s] == c.w@[h]@[s]@);
        assert(want.alpha[s] == d.alpha@[h]@[s]@);
        assert(want.b[s] == d.b@[h]@[s]@);
        assert(want.w[s] == d.w@[h]@[s]@);
    }
    lemma_table_still(p, x.zero(), rows.q);
    lemma_table_still(p, x.zero(), rows.k);
    lemma_table_still(p, x.zero(), rows.v);
    lemma_table_values(p, rows.q, want.q);
    lemma_table_values(p, rows.k, want.k);
    lemma_table_values(p, rows.v, want.v);
    lemma_table_values(p, rows.alpha, want.alpha);
    lemma_table_values(p, rows.b, want.b);
    lemma_table_values(p, rows.w, want.w);
}

proof fn lemma_table_still<T, D>(p: Dual<D, T>, zero: T, table: Seq<Seq<D>>)
    requires
        forall|s: int| 0 <= s < table.len() ==> row_still(p, zero, #[trigger] table[s]),
    ensures
        still(p, zero, table),
{
    assert forall|i: int, j: int| 0 <= i < table.len() && 0 <= j < table[i].len() implies (
    p.slope)(#[trigger] table[i][j]) == zero by {
        assert(row_still(p, zero, table[i]));
    }
}

proof fn lemma_table_values<T, D>(p: Dual<D, T>, table: Seq<Seq<D>>, want: Seq<Seq<T>>)
    requires
        table.len() == want.len(),
        forall|s: int|
            0 <= s < table.len() ==> p.row_values(#[trigger] table[s]) == want[s],
    ensures
        p.values(table) == want,
{
    assert forall|s: int| 0 <= s < table.len() implies #[trigger] p.values(table)[s] == want[s] by {
        assert(p.values(table)[s] =~= p.row_values(table[s]));
    }
    assert(p.values(table) =~= want);
}

/// The values of an output are the output of the values.
proof fn lemma_output_values<
    T: Copy,
    F: Fn(ScalarOp, T, T) -> T,
    C: Fn(Number) -> T,
    Z: Fn(Relation, T, T) -> bool,
    D: Copy,
    F2: Fn(ScalarOp, D, D) -> D,
    C2: Fn(Number) -> D,
    Z2: Fn(Relation, D, D) -> bool,
>(
    x: &Scalars<T, F, C, Z>,
    y: &Scalars<D, F2, C2, Z2>,
    p: Dual<D, T>,
    dk: nat,
    dv: nat,
    t: nat,
    rows: HeadRows<D>,
    s: int,
)
    requires
        changes(x, y, p),
        rows.wf(t, dk, dv),
        0 <= s < t,
    ensures
        p.row_values(y.serial_output(dk, dv, rows, y.blank(dk, dv), s)) == x.serial_output(
            dk,
            dv,
            p.head_values(rows),
            x.blank(dk, dv),
            s,
        ),
{
    let n = (s + 1) as nat;
    let after = y.serial_state(dk, dv, rows, y.blank(dk, dv), n);
    let after_x = x.serial_state(dk, dv, p.head_values(rows), x.blank(dk, dv), n);
    lemma_state_values(x, y, p, dk, dv, t, rows, n);
    let out = y.serial_output(dk, dv, rows, y.blank(dk, dv), s);
    let want = x.serial_output(dk, dv, p.head_values(rows), x.blank(dk, dv), s);
    assert forall|j: int| 0 <= j < dv implies (p.value)(#[trigger] out[j]) == want[j] by {
        let f = |i: int| y.times(rows.q[s][i], after[i][j]);
        let v = |i: int| x.times(p.head_values(rows).q[s][i], after_x[i][j]);
        assert forall|i: int| 0 <= i < dk implies #[trigger] v(i) == (p.value)(f(i)) by {
            assert(after_x[i][j] == (p.value)(after[i][j]));
            assert(p.head_values(rows).q[s][i] == (p.value)(rows.q[s][i]));
        }
        lemma_total_changes(x, y, p, dk, f, v, |i: int| (p.slope)(f(i)));
    }
    assert(p.row_values(out) =~= want);
}

spec fn rows_of<T>(run: MatchRun<T>, h: int) -> HeadRows<T> {
    head_rows(
        run.cache.q@,
        run.cache.k@,
        run.cache.v@,
        run.cache.alpha@,
        run.cache.b@,
        run.cache.w@,
        h,
    )
}

/// The outputs of a token in changing numbers.
proof fn lemma_out<
    T: Copy,
    F: Fn(ScalarOp, T, T) -> T,
    C: Fn(Number) -> T,
    Z: Fn(Relation, T, T) -> bool,
    D: Copy,
    F2: Fn(ScalarOp, D, D) -> D,
    C2: Fn(Number) -> D,
    Z2: Fn(Relation, D, D) -> bool,
>(
    x: &Scalars<T, F, C, Z>,
    y: &Scalars<D, F2, C2, Z2>,
    p: Dual<D, T>,
    heads: nat,
    kv_heads: nat,
    dk: nat,
    dv: nat,
    run: MatchRun<T>,
    turned: MatchRun<D>,
    s: int,
)
    requires
        x.exact(),
        differentiates(x, y, p),
        gates_exist(x),
        run.sized(heads, kv_heads, dk, dv),
        turned.sized(heads, kv_heads, dk, dv),
        went_forward(x, heads, kv_heads, dk, dv, run),
        went_forward(y, heads, kv_heads, dk, dv, turned),
        turns(p, x.zero(), run, turned),
        0 <= s < run.rows.len(),
    ensures
        run.cache.out@[s]@.len() == run.weights.wo@.len(),
        turned.cache.out@[s]@.len() == run.weights.wo@.len(),
        p.row_values(turned.cache.out@[s]@) == run.cache.out@[s]@,
        forall|i: int|
            0 <= i < run.weights.wo@.len() ==> (p.slope)(#[trigger] turned.cache.out@[s]@[i])
                == x.total(
                heads * dv,
                |c: int|
                    x.times(
                        run.weights.wo@[i]@[c],
                        (p.slope)(heads_side_by_side(turned.cache.o@, heads, dv, s)[c]),
                    ),
            ),
{
    lemma_changes(x, y, p);
    let t = run.rows.len();
    assert(p.values(grid(turned.rows)).len() == grid(run.rows).len());
    let n = heads * dv;
    let joined = heads_side_by_side(turned.cache.o@, heads, dv, s);
    let joined_x = heads_side_by_side(run.cache.o@, heads, dv, s);
    assert forall|c: int| 0 <= c < n implies (p.value)(#[trigger] joined[c]) == joined_x[c] by {
        lemma_head_of(c, heads as int, dv as int);
        let h = c / dv as int;
        let j = c % dv as int;
        lemma_head(x, y, p, heads, kv_heads, dk, dv, run, turned, h);
        lemma_output_values(x, y, p, dk, dv, t, rows_of(turned, h), s);
        let out = y.serial_output(dk, dv, rows_of(turned, h), y.blank(dk, dv), s);
        assert(turned.cache.o@[h]@[s]@ == out);
        assert(run.cache.o@[h]@[s]@ == p.row_values(out));
    }
    assert(p.row_values(joined) =~= joined_x);
    let wo = grid(turned.weights.wo@);
    let wo_x = grid(run.weights.wo@);
    lemma_matvec(x, y, p, wo, joined);
    assert(p.values(wo).len() == wo_x.len());
    assert forall|i: int| 0 <= i < wo_x.len() implies (p.slope)(
        #[trigger] turned.cache.out@[s]@[i],
    ) == x.total(n, |c: int| x.times(run.weights.wo@[i]@[c], (p.slope)(joined[c]))) by {
        assert(turned.weights.wo@[i]@.len() >= n);
        assert(common(wo[i].len(), joined.len()) == n);
        let f = |c: int| y.times(wo[i][c], joined[c]);
        let slopes = |c: int| x.times(run.weights.wo@[i]@[c], (p.slope)(joined[c]));
        assert forall|c: int| 0 <= c < n implies #[trigger] slopes(c) == (p.slope)(f(c)) by {
            assert(p.values(wo)[i][c] == (p.value)(wo[i][c]));
            assert(wo_x[i][c] == run.weights.wo@[i]@[c]);
            assert((p.slope)(wo[i][c]) == x.zero());
            x.times_zero((p.value)(joined[c]));
            x.plus_zero(slopes(c));
        }
        lemma_total_changes(x, y, p, n, f, |c: int| (p.value)(f(c)), slopes);
        assert(turned.cache.out@[s]@[i] == y.gathered(
            y.zero(),
            n,
            |c: int| y.times(wo[i][c], joined[c]),
        ));
        y.lemma_gathered_same(y.zero(), n, f, |c: int| y.times(wo[i][c], joined[c]));
    }
}

spec fn up_of<
    T: Copy,
    F: Fn(ScalarOp, T, T) -> T,
    C: Fn(Number) -> T,
    Z: Fn(Relation, T, T) -> bool,
>(x: &Scalars<T, F, C, Z>, dv: nat, run: MatchRun<T>, h: int) -> Seq<Seq<T>> {
    x.fm_up(run.cache.out@, run.target, run.weights.wo@, dv, h)
}

/// How a token's squared distance changes.
spec fn distance_turn<
    T: Copy,
    F: Fn(ScalarOp, T, T) -> T,
    C: Fn(Number) -> T,
    Z: Fn(Relation, T, T) -> bool,
    D: Copy,
    F2: Fn(ScalarOp, D, D) -> D,
    C2: Fn(Number) -> D,
    Z2: Fn(Relation, D, D) -> bool,
>(
    x: &Scalars<T, F, C, Z>,
    y: &Scalars<D, F2, C2, Z2>,
    p: Dual<D, T>,
    run: MatchRun<T>,
    turned: MatchRun<D>,
    s: int,
    i: int,
) -> T {
    let d = x.minus(run.cache.out@[s]@[i], run.target[s]@[i]);
    let o = (p.slope)(turned.cache.out@[s]@[i]);
    x.plus(x.times(o, d), x.times(d, o))
}

/// The slope of the squared distances is the sum of how they change.
proof fn lemma_distance_turns<
    T: Copy,
    F: Fn(ScalarOp, T, T) -> T,
    C: Fn(Number) -> T,
    Z: Fn(Relation, T, T) -> bool,
    D: Copy,
    F2: Fn(ScalarOp, D, D) -> D,
    C2: Fn(Number) -> D,
    Z2: Fn(Relation, D, D) -> bool,
>(
    x: &Scalars<T, F, C, Z>,
    y: &Scalars<D, F2, C2, Z2>,
    p: Dual<D, T>,
    heads: nat,
    kv_heads: nat,
    dk: nat,
    dv: nat,
    run: MatchRun<T>,
    turned: MatchRun<D>,
)
    requires
        x.exact(),
        differentiates(x, y, p),
        gates_exist(x),
        run.sized(heads, kv_heads, dk, dv),
        turned.sized(heads, kv_heads, dk, dv),
        went_forward(x, heads, kv_heads, dk, dv, run),
        went_forward(y, heads, kv_heads, dk, dv, turned),
        turns(p, x.zero(), run, turned),
    ensures
        (p.slope)(
            y.squared_distance(
                run.rows.len(),
                run.weights.wo@.len(),
                grid(turned.cache.out@),
                grid(turned.target),
            ),
        ) == x.table_total(
            run.rows.len(),
            run.weights.wo@.len(),
            |s: int, i: int| distance_turn(x, y, p, run, turned, s, i),
        ),
{
    lemma_changes(x, y, p);
    let t = run.rows.len();
    let hidden = run.weights.wo@.len();
    let out = grid(turned.cache.out@);
    let target = grid(turned.target);
    assert(p.values(grid(turned.rows)).len() == grid(run.rows).len());
    let cell = |s: int, i: int|
        y.times(y.minus(out[s][i], target[s][i]), y.minus(out[s][i], target[s][i]));
    let row = |s: int| y.total(hidden, |i: int| cell(s, i));
    let turn = |s: int, i: int| distance_turn(x, y, p, run, turned, s, i);
    let row_turn = |s: int| x.total(hidden, |i: int| turn(s, i));
    assert forall|s: int| 0 <= s < t implies #[trigger] row_turn(s) == (p.slope)(row(s)) by {
        lemma_out(x, y, p, heads, kv_heads, dk, dv, run, turned, s);
        let f = |i: int| cell(s, i);
        let ss = |i: int| turn(s, i);
        assert forall|i: int| 0 <= i < hidden implies #[trigger] ss(i) == (p.slope)(f(i)) by {
            let o = turned.cache.out@[s]@[i];
            let g = turned.target[s]@[i];
            assert(out[s][i] == o);
            assert(target[s][i] == g);
            assert(p.row_values(turned.cache.out@[s]@)[i] == run.cache.out@[s]@[i]);
            assert(p.values(target)[s][i] == run.target[s]@[i]) by {
                assert(grid(run.target)[s] == run.target[s]@);
            }
            assert((p.slope)(target[s][i]) == x.zero());
            x.minus_nothing((p.slope)(o));
        }
        lemma_total_changes(x, y, p, hidden, f, |i: int| (p.value)(f(i)), ss);
    }
    lemma_total_changes(x, y, p, t, row, |s: int| (p.value)(row(s)), row_turn);
    assert(y.squared_distance(t, hidden, out, target) == y.total(t, row)) by {
        y.table_same(t, hidden, cell, |i: int, j: int|
            y.times(y.minus(out[i][j], target[i][j]), y.minus(out[i][j], target[i][j])));
    }
    x.table_same(
        t,
        hidden,
        turn,
        |s: int, i: int| distance_turn(x, y, p, run, turned, s, i),
    );
}

/// How a token's squared distances change is what its heads' outputs are
/// weighed to.
proof fn lemma_token_by_heads<
    T: Copy,
    F: Fn(ScalarOp, T, T) -> T,
    C: Fn(Number) -> T,
    Z: Fn(Relation, T, T) -> bool,
    D: Copy,
    F2: Fn(ScalarOp, D, D) -> D,
    C2: Fn(Number) -> D,
    Z2: Fn(Relation, D, D) -> bool,
>(
    x: &Scalars<T, F, C, Z>,
    y: &Scalars<D, F2, C2, Z2>,
    p: Dual<D, T>,
    heads: nat,
    kv_heads: nat,
    dk: nat,
    dv: nat,
    run: MatchRun<T>,
    turned: MatchRun<D>,
    s: int,
)
    requires
        x.exact(),
        differentiates(x, y, p),
        gates_exist(x),
        run.sized(heads, kv_heads, dk, dv),
        turned.sized(heads, kv_heads, dk, dv),
        went_forward(x, heads, kv_heads, dk, dv, run),
        went_forward(y, heads, kv_heads, dk, dv, turned),
        turns(p, x.zero(), run, turned),
        x.number(2) == x.plus(x.one(), x.one()),
        0 <= s < run.rows.len(),
    ensures
        x.total(
            run.weights.wo@.len(),
            |i: int| distance_turn(x, y, p, run, turned, s, i),
        ) == x.total(
            heads,
            |h: int|
                output_slope(x, y, p, dk, dv, rows_of(turned, h), up_of(x, dv, run, h), s),
        ),
{
    let n = heads * dv;
    let hidden = run.weights.wo@.len();
    let joined = heads_side_by_side(turned.cache.o@, heads, dv, s);
    lemma_out(x, y, p, heads, kv_heads, dk, dv, run, turned, s);
    lemma_out(x, y, p, heads, kv_heads, dk, dv, run, turned, 0);
    let d = |i: int| x.minus(run.cache.out@[s]@[i], run.target[s]@[i]);
    let w = |i: int, c: int| run.weights.wo@[i]@[c];
    let o = |c: int| (p.slope)(joined[c]);
    let turn = |i: int| distance_turn(x, y, p, run, turned, s, i);
    let weighed = |c: int|
        x.times(
            x.times(
                x.total(hidden, |i: int| x.times(w(i, c), d(i))),
                x.plus(x.one(), x.one()),
            ),
            o(c),
        );
    assert forall|i: int| 0 <= i < hidden implies #[trigger] turn(i) == x.plus(
        x.times(x.total(n, |c: int| x.times(w(i, c), o(c))), d(i)),
        x.times(d(i), x.total(n, |c: int| x.times(w(i, c), o(c)))),
    ) by {
        let slope = (p.slope)(turned.cache.out@[s]@[i]);
        x.lemma_gathered_same(
            x.zero(),
            n,
            |c: int| x.times(run.weights.wo@[i]@[c], (p.slope)(joined[c])),
            |c: int| x.times(w(i, c), o(c)),
        );
    }
    x.distances_turn(hidden, n, d, w, o, turn, weighed);
    x.total_by_heads(heads, dv, weighed);
    let outs = |h: int|
        output_slope(x, y, p, dk, dv, rows_of(turned, h), up_of(x, dv, run, h), s);
    let by_head = |h: int| x.total(dv, |j: int| weighed(h * dv + j));
    assert forall|h: int| 0 <= h < heads implies #[trigger] by_head(h) == outs(h) by {
        let up = up_of(x, dv, run, h);
        let out = y.serial_output(dk, dv, rows_of(turned, h), y.blank(dk, dv), s);
        let part = |j: int| weighed(h * dv + j);
        let pair = |j: int| x.times(up[s][j], p.slopes(out)[j]);
        assert(turned.cache.o@[h]@[s]@ == out) by {
            assert(p.values(grid(turned.rows)).len() == grid(run.rows).len());
        }
        assert forall|j: int| 0 <= j < dv implies #[trigger] part(j) == pair(j) by {
            let c = h * dv + j;
            lemma_column(h, heads as int, dv as int, j);
            assert(joined[c] == out[j]);
            x.lemma_gathered_same(
                x.zero(),
                hidden,
                |i: int| x.times(w(i, c), d(i)),
                |i: int|
                    x.times(
                        run.weights.wo@[i]@[h * dv + j],
                        x.minus(run.cache.out@[s]@[i], run.target[s]@[i]),
                    ),
            );
        }
        x.lemma_gathered_same(x.zero(), dv, part, pair);
    }
    x.lemma_gathered_same(x.zero(), heads, by_head, outs);
    x.lemma_gathered_same(
        x.zero(),
        heads,
        |h: int| x.total(dv, |j: int| weighed(h * dv + j)),
        by_head,
    );
}

proof fn lemma_column(h: int, heads: int, dv: int, j: int)
    requires
        0 <= h < heads,
        0 <= j < dv,
    ensures
        0 <= h * dv + j < heads * dv,
        (h * dv + j) / dv == h,
        (h * dv + j) % dv == j,
{
    lemma_row_bounds(h, heads, dv);
    vstd::arithmetic::div_mod::lemma_fundamental_div_mod_converse(h * dv + j, dv, h, j);
}

/// What the slopes in a row of gates weigh the slopes of its logits to.
spec fn logit_part<
    T: Copy,
    F: Fn(ScalarOp, T, T) -> T,
    C: Fn(Number) -> T,
    Z: Fn(Relation, T, T) -> bool,
    D: Copy,
>(
    x: &Scalars<T, F, C, Z>,
    p: Dual<D, T>,
    n: nat,
    slope: Seq<T>,
    gate: Seq<T>,
    z: Seq<D>,
) -> T {
    x.total(n, |i: int| x.times(x.through_gate(slope[i], gate[i]), (p.slope)(z[i])))
}

/// What the gradients of a token weigh the slopes of its logits to, head by
/// head.
proof fn lemma_token_inputs<
    T: Copy,
    F: Fn(ScalarOp, T, T) -> T,
    C: Fn(Number) -> T,
    Z: Fn(Relation, T, T) -> bool,
    D: Copy,
    F2: Fn(ScalarOp, D, D) -> D,
    C2: Fn(Number) -> D,
    Z2: Fn(Relation, D, D) -> bool,
>(
    x: &Scalars<T, F, C, Z>,
    y: &Scalars<D, F2, C2, Z2>,
    p: Dual<D, T>,
    heads: nat,
    kv_heads: nat,
    dk: nat,
    dv: nat,
    run: MatchRun<T>,
    turned: MatchRun<D>,
    h: int,
    s: int,
)
    requires
        x.exact(),
        differentiates(x, y, p),
        gates_exist(x),
        run.sized(heads, kv_heads, dk, dv),
        turned.sized(heads, kv_heads, dk, dv),
        went_forward(x, heads, kv_heads, dk, dv, run),
        went_forward(y, heads, kv_heads, dk, dv, turned),
        turns(p, x.zero(), run, turned),
        0 <= h < heads,
        0 <= s < run.rows.len(),
    ensures
        ({
            let c = x.fm_back(run.cache, run.target, run.weights.wo@, dk, dv, h, s);
            input_slope(
                x,
                p,
                dk,
                dv,
                run.rows.len(),
                rows_of(turned, h),
                up_of(x, dv, run, h),
                s,
            ) == x.plus(
                x.plus(
                    logit_part(
                        x,
                        p,
                        dk,
                        x.alpha_slope(dk, dv, c),
                        run.cache.alpha@[h]@[s]@,
                        turned.zf[s]@,
                    ),
                    logit_part(
                        x,
                        p,
                        dk,
                        x.b_slope(dk, dv, c),
                        run.cache.b@[h]@[s]@,
                        turned.zb[s]@,
                    ),
                ),
                logit_part(
                    x,
                    p,
                    dv,
                    x.w_slope(dk, dv, c),
                    run.cache.w@[h]@[s]@,
                    turned.zw[s]@,
                ),
            )
        }),
{
    let t = run.rows.len();
    assert(p.values(grid(turned.rows)).len() == grid(run.rows).len());
    lemma_head(x, y, p, heads, kv_heads, dk, dv, run, turned, h);
    let rows = rows_of(turned, h);
    let c = x.fm_back(run.cache, run.target, run.weights.wo@, dk, dv, h, s);
    assert(run.cache.q@[0]@.len() == t);
    assert(c == x.back_at(dk, dv, p.head_values(rows), up_of(x, dv, run, h), t, s));
    let d = p.token_slopes(rows, s);
    assert forall|i: int| 0 <= i < dk implies #[trigger] d.q[i] == x.zero() by {
        assert(rows.q[s].len() == dk);
        assert((p.slope)(rows.q[s][i]) == x.zero());
    }
    assert forall|i: int| 0 <= i < dk implies #[trigger] d.k[i] == x.zero() by {
        assert(rows.k[s].len() == dk);
        assert((p.slope)(rows.k[s][i]) == x.zero());
    }
    assert forall|j: int| 0 <= j < dv implies #[trigger] d.v[j] == x.zero() by {
        assert(rows.v[s].len() == dv);
        assert((p.slope)(rows.v[s][j]) == x.zero());
    }
    x.earned_by_gates(dk, dv, c, d);
    lemma_gate_row(
        x,
        y,
        p,
        dk,
        x.alpha_slope(dk, dv, c),
        run.cache.alpha@[h]@[s]@,
        d.alpha,
        run.zf,
        turned.zf,
        s,
    );
    lemma_gate_row(
        x,
        y,
        p,
        dk,
        x.b_slope(dk, dv, c),
        run.cache.b@[h]@[s]@,
        d.b,
        run.zb,
        turned.zb,
        s,
    );
    lemma_gate_row(
        x,
        y,
        p,
        dv,
        x.w_slope(dk, dv, c),
        run.cache.w@[h]@[s]@,
        d.w,
        run.zw,
        turned.zw,
        s,
    );
}

proof fn lemma_gate_row<
    T: Copy,
    F: Fn(ScalarOp, T, T) -> T,
    C: Fn(Number) -> T,
    Z: Fn(Relation, T, T) -> bool,
    D: Copy,
    F2: Fn(ScalarOp, D, D) -> D,
    C2: Fn(Number) -> D,
    Z2: Fn(Relation, D, D) -> bool,
>(
    x: &Scalars<T, F, C, Z>,
    y: &Scalars<D, F2, C2, Z2>,
    p: Dual<D, T>,
    n: nat,
    slope: Seq<T>,
    gate: Seq<T>,
    turn: Seq<T>,
    z: Seq<Vec<T>>,
    z_turned: Seq<Vec<D>>,
    s: int,
)
    requires
        x.exact(),
        differentiates(x, y, p),
        gates_exist(x),
        p.values(grid(z_turned)) == grid(z),
        0 <= s < z.len(),
        z[s]@.len() == n,
        gate == x.gates_of(z[s]@),
        turn == p.slopes(y.gates_of(z_turned[s]@)),
    ensures
        x.paired(n, slope, turn) == logit_part(x, p, n, slope, gate, z_turned[s]@),
{
    let row = z_turned[s]@;
    assert(p.values(grid(z_turned)).len() == grid(z_turned).len());
    assert(grid(z).len() == z.len());
    assert(grid(z_turned)[s] == row);
    assert(p.row_values(row) =~= p.values(grid(z_turned))[s]);
    assert(grid(z)[s] == z[s]@);
    assert(row.len() == p.row_values(row).len());
    lemma_gates(x, y, p, row);
    let zs = |i: int| (p.slope)(row[i]);
    let weighed = |i: int| x.times(x.through_gate(slope[i], gate[i]), (p.slope)(row[i]));
    assert forall|i: int| 0 <= i < n implies #[trigger] turn[i] == x.through_gate(
        zs(i),
        gate[i],
    ) by {
        assert(turn[i] == (p.slope)(y.gates_of(row)[i]));
    }
    x.gates_turn(n, slope, gate, turn, zs, weighed);
}

/// What the heads' gradients weigh the slopes of their logits to, put together.
proof fn lemma_inputs_by_logit<
    T: Copy,
    F: Fn(ScalarOp, T, T) -> T,
    C: Fn(Number) -> T,
    Z: Fn(Relation, T, T) -> bool,
    D: Copy,
    F2: Fn(ScalarOp, D, D) -> D,
    C2: Fn(Number) -> D,
    Z2: Fn(Relation, D, D) -> bool,
>(
    x: &Scalars<T, F, C, Z>,
    y: &Scalars<D, F2, C2, Z2>,
    p: Dual<D, T>,
    heads: nat,
    kv_heads: nat,
    dk: nat,
    dv: nat,
    run: MatchRun<T>,
    turned: MatchRun<D>,
)
    requires
        x.exact(),
        differentiates(x, y, p),
        gates_exist(x),
        run.sized(heads, kv_heads, dk, dv),
        turned.sized(heads, kv_heads, dk, dv),
        went_forward(x, heads, kv_heads, dk, dv, run),
        went_forward(y, heads, kv_heads, dk, dv, turned),
        turns(p, x.zero(), run, turned),
    ensures
        x.table_total(
            heads,
            run.rows.len(),
            |h: int, s: int|
                input_slope(
                    x,
                    p,
                    dk,
                    dv,
                    run.rows.len(),
                    rows_of(turned, h),
                    up_of(x, dv, run, h),
                    s,
                ),
        ) == logit_slope(x, p, heads, dk, dv, run, turned),
{
    let t = run.rows.len();
    let back = |h: int, s: int|
        x.fm_back(run.cache, run.target, run.weights.wo@, dk, dv, h, s);
    let ins = |h: int, s: int|
        input_slope(x, p, dk, dv, t, rows_of(turned, h), up_of(x, dv, run, h), s);
    let decay_z = |s: int, i: int| (p.slope)(turned.zf[s]@[i]);
    let decay_g = |h: int, s: int, i: int|
        x.through_gate(
            x.alpha_slope(dk, dv, back(h, s))[i],
            run.cache.alpha@[h]@[s]@[i],
        );
    let decay_part = |h: int, s: int|
        logit_part(
            x,
            p,
            dk,
            x.alpha_slope(dk, dv, back(h, s)),
            run.cache.alpha@[h]@[s]@,
            turned.zf[s]@,
        );
    let decay_all = |s: int, i: int|
        x.times(
            x.decay_logit_slope(run.cache, run.target, run.weights.wo@, heads, dk, dv, s, i),
            (p.slope)(turned.zf[s]@[i]),
        );
    assert forall|h: int, s: int| 0 <= h < heads && 0 <= s < t implies #[trigger] decay_part(
        h,
        s,
    ) == x.total(dk, |i: int| x.times(decay_g(h, s, i), decay_z(s, i))) by {
        x.lemma_gathered_same(
            x.zero(),
            dk,
            |i: int|
                x.times(
                    x.through_gate(
                        x.alpha_slope(dk, dv, back(h, s))[i],
                        run.cache.alpha@[h]@[s]@[i],
                    ),
                    (p.slope)(turned.zf[s]@[i]),
                ),
            |i: int| x.times(decay_g(h, s, i), decay_z(s, i)),
        );
    }
    assert forall|s: int, i: int| 0 <= s < t && 0 <= i < dk implies #[trigger] decay_all(
        s,
        i,
    ) == x.times(x.total(heads, |h: int| decay_g(h, s, i)), decay_z(s, i)) by {
        x.lemma_gathered_same(
            x.zero(),
            heads,
            |h: int|
                x.through_gate(
                    x.alpha_slope(
                        dk,
                        dv,
                        x.fm_back(run.cache, run.target, run.weights.wo@, dk, dv, h, s),
                    )[i],
                    run.cache.alpha@[h]@[s]@[i],
                ),
            |h: int| decay_g(h, s, i),
        );
    }
    x.heads_share(
        heads,
        t,
        dk,
        decay_g,
        decay_z,
        decay_part,
        decay_all,
    );
    let erase_z = |s: int, i: int| (p.slope)(turned.zb[s]@[i]);
    let erase_g = |h: int, s: int, i: int|
        x.through_gate(
            x.b_slope(dk, dv, back(h, s))[i],
            run.cache.b@[h]@[s]@[i],
        );
    let erase_part = |h: int, s: int|
        logit_part(
            x,
            p,
            dk,
            x.b_slope(dk, dv, back(h, s)),
            run.cache.b@[h]@[s]@,
            turned.zb[s]@,
        );
    let erase_all = |s: int, i: int|
        x.times(
            x.erase_logit_slope(run.cache, run.target, run.weights.wo@, heads, dk, dv, s, i),
            (p.slope)(turned.zb[s]@[i]),
        );
    assert forall|h: int, s: int| 0 <= h < heads && 0 <= s < t implies #[trigger] erase_part(
        h,
        s,
    ) == x.total(dk, |i: int| x.times(erase_g(h, s, i), erase_z(s, i))) by {
        x.lemma_gathered_same(
            x.zero(),
            dk,
            |i: int|
                x.times(
                    x.through_gate(
                        x.b_slope(dk, dv, back(h, s))[i],
                        run.cache.b@[h]@[s]@[i],
                    ),
                    (p.slope)(turned.zb[s]@[i]),
                ),
            |i: int| x.times(erase_g(h, s, i), erase_z(s, i)),
        );
    }
    assert forall|s: int, i: int| 0 <= s < t && 0 <= i < dk implies #[trigger] erase_all(
        s,
        i,
    ) == x.times(x.total(heads, |h: int| erase_g(h, s, i)), erase_z(s, i)) by {
        x.lemma_gathered_same(
            x.zero(),
            heads,
            |h: int|
                x.through_gate(
                    x.b_slope(
                        dk,
                        dv,
                        x.fm_back(run.cache, run.target, run.weights.wo@, dk, dv, h, s),
                    )[i],
                    run.cache.b@[h]@[s]@[i],
                ),
            |h: int| erase_g(h, s, i),
        );
    }
    x.heads_share(
        heads,
        t,
        dk,
        erase_g,
        erase_z,
        erase_part,
        erase_all,
    );
    let write_z = |s: int, i: int| (p.slope)(turned.zw[s]@[i]);
    let write_g = |h: int, s: int, i: int|
        x.through_gate(
            x.w_slope(dk, dv, back(h, s))[i],
            run.cache.w@[h]@[s]@[i],
        );
    let write_part = |h: int, s: int|
        logit_part(
            x,
            p,
            dv,
            x.w_slope(dk, dv, back(h, s)),
            run.cache.w@[h]@[s]@,
            turned.zw[s]@,
        );
    let write_all = |s: int, i: int|
        x.times(
            x.write_logit_slope(run.cache, run.target, run.weights.wo@, heads, dk, dv, s, i),
            (p.slope)(turned.zw[s]@[i]),
        );
    assert forall|h: int, s: int| 0 <= h < heads && 0 <= s < t implies #[trigger] write_part(
        h,
        s,
    ) == x.total(dv, |i: int| x.times(write_g(h, s, i), write_z(s, i))) by {
        x.lemma_gathered_same(
            x.zero(),
            dv,
            |i: int|
                x.times(
                    x.through_gate(
                        x.w_slope(dk, dv, back(h, s))[i],
                        run.cache.w@[h]@[s]@[i],
                    ),
                    (p.slope)(turned.zw[s]@[i]),
                ),
            |i: int| x.times(write_g(h, s, i), write_z(s, i)),
        );
    }
    assert forall|s: int, i: int| 0 <= s < t && 0 <= i < dv implies #[trigger] write_all(
        s,
        i,
    ) == x.times(x.total(heads, |h: int| write_g(h, s, i)), write_z(s, i)) by {
        x.lemma_gathered_same(
            x.zero(),
            heads,
            |h: int|
                x.through_gate(
                    x.w_slope(
                        dk,
                        dv,
                        x.fm_back(run.cache, run.target, run.weights.wo@, dk, dv, h, s),
                    )[i],
                    run.cache.w@[h]@[s]@[i],
                ),
            |h: int| write_g(h, s, i),
        );
    }
    x.heads_share(
        heads,
        t,
        dv,
        write_g,
        write_z,
        write_part,
        write_all,
    );
    let two = |h: int, s: int| x.plus(decay_part(h, s), erase_part(h, s));
    assert forall|h: int, s: int| 0 <= h < heads && 0 <= s < t implies #[trigger] ins(h, s)
        == x.plus(two(h, s), write_part(h, s)) by {
        lemma_token_inputs(x, y, p, heads, kv_heads, dk, dv, run, turned, h, s);
    }
    x.table_plus(heads, t, two, write_part, ins);
    x.table_plus(heads, t, decay_part, erase_part, two);
    x.table_same(
        heads,
        t,
        ins,
        |h: int, s: int|
            input_slope(
                x,
                p,
                dk,
                dv,
                run.rows.len(),
                rows_of(turned, h),
                up_of(x, dv, run, h),
                s,
            ),
    );
}

/// What the slopes in the logits weigh the slopes of the logits to.
pub open spec fn logit_slope<
    T: Copy,
    F: Fn(ScalarOp, T, T) -> T,
    C: Fn(Number) -> T,
    Z: Fn(Relation, T, T) -> bool,
    D: Copy,
>(
    x: &Scalars<T, F, C, Z>,
    p: Dual<D, T>,
    heads: nat,
    dk: nat,
    dv: nat,
    run: MatchRun<T>,
    turned: MatchRun<D>,
) -> T {
    let t = run.rows.len();
    let (c, y, wo) = (run.cache, run.target, run.weights.wo@);
    x.plus(
        x.plus(
            x.table_total(
                t,
                dk,
                |s: int, i: int|
                    x.times(
                        x.decay_logit_slope(c, y, wo, heads, dk, dv, s, i),
                        (p.slope)(turned.zf[s]@[i]),
                    ),
            ),
            x.table_total(
                t,
                dk,
                |s: int, i: int|
                    x.times(
                        x.erase_logit_slope(c, y, wo, heads, dk, dv, s, i),
                        (p.slope)(turned.zb[s]@[i]),
                    ),
            ),
        ),
        x.table_total(
            t,
            dv,
            |s: int, j: int|
                x.times(
                    x.write_logit_slope(c, y, wo, heads, dk, dv, s, j),
                    (p.slope)(turned.zw[s]@[j]),
                ),
        ),
    )
}

/// The slopes of feature matching are gradients: let the logits of the gates
/// change, and the summed squared distance between outputs and target changes by
/// what the slopes in the logits weigh those changes to, in arithmetic without
/// rounding. The inputs, the weights and the target stay as they are.
pub proof fn law_matching_backward_is_gradient<
    T: Copy,
    F: Fn(ScalarOp, T, T) -> T,
    C: Fn(Number) -> T,
    Z: Fn(Relation, T, T) -> bool,
    D: Copy,
    F2: Fn(ScalarOp, D, D) -> D,
    C2: Fn(Number) -> D,
    Z2: Fn(Relation, D, D) -> bool,
>(
    x: &Scalars<T, F, C, Z>,
    y: &Scalars<D, F2, C2, Z2>,
    p: Dual<D, T>,
    heads: nat,
    kv_heads: nat,
    dk: nat,
    dv: nat,
    run: MatchRun<T>,
    turned: MatchRun<D>,
)
    requires
        x.exact(),
        differentiates(x, y, p),
        gates_exist(x),
        run.sized(heads, kv_heads, dk, dv),
        turned.sized(heads, kv_heads, dk, dv),
        went_forward(x, heads, kv_heads, dk, dv, run),
        went_forward(y, heads, kv_heads, dk, dv, turned),
        turns(p, x.zero(), run, turned),
        x.number(2) == x.plus(x.one(), x.one()),
    ensures
        (p.slope)(
            y.squared_distance(
                run.rows.len(),
                run.weights.wo@.len(),
                grid(turned.cache.out@),
                grid(turned.target),
            ),
        ) == logit_slope(x, p, heads, dk, dv, run, turned),
{
    lemma_changes(x, y, p);
    let t = run.rows.len();
    let hidden = run.weights.wo@.len();
    let turn = |s: int, i: int| distance_turn(x, y, p, run, turned, s, i);
    let outs = |s: int, h: int|
        output_slope(x, y, p, dk, dv, rows_of(turned, h), up_of(x, dv, run, h), s);
    let ins = |h: int, s: int|
        input_slope(x, p, dk, dv, t, rows_of(turned, h), up_of(x, dv, run, h), s);
    lemma_distance_turns(x, y, p, heads, kv_heads, dk, dv, run, turned);
    let by_token = |s: int| x.total(hidden, |i: int| turn(s, i));
    let by_heads = |s: int| x.total(heads, |h: int| outs(s, h));
    assert forall|s: int| 0 <= s < t implies #[trigger] by_token(s) == by_heads(s) by {
        lemma_token_by_heads(x, y, p, heads, kv_heads, dk, dv, run, turned, s);
        x.lemma_gathered_same(
            x.zero(),
            hidden,
            |i: int| turn(s, i),
            |i: int| distance_turn(x, y, p, run, turned, s, i),
        );
        x.lemma_gathered_same(
            x.zero(),
            heads,
            |h: int| outs(s, h),
            |h: int|
                output_slope(x, y, p, dk, dv, rows_of(turned, h), up_of(x, dv, run, h), s),
        );
    }
    x.lemma_gathered_same(x.zero(), t, by_token, by_heads);
    x.gathered_swap(t, heads, outs);
    let out_head = |h: int| x.total(t, |s: int| outs(s, h));
    let in_head = |h: int| x.total(t, |s: int| ins(h, s));
    assert forall|h: int| 0 <= h < heads implies #[trigger] out_head(h) == in_head(h) by {
        lemma_head(x, y, p, heads, kv_heads, dk, dv, run, turned, h);
        law_backward_is_gradient(
            x,
            y,
            p,
            dk,
            dv,
            t,
            rows_of(turned, h),
            up_of(x, dv, run, h),
        );
        x.lemma_gathered_same(
            x.zero(),
            t,
            |s: int| outs(s, h),
            |s: int|
                output_slope(x, y, p, dk, dv, rows_of(turned, h), up_of(x, dv, run, h), s),
        );
        x.lemma_gathered_same(
            x.zero(),
            t,
            |s: int| ins(h, s),
            |s: int|
                input_slope(x, p, dk, dv, t, rows_of(turned, h), up_of(x, dv, run, h), s),
        );
    }
    x.lemma_gathered_same(x.zero(), heads, out_head, in_head);
    lemma_inputs_by_logit(x, y, p, heads, kv_heads, dk, dv, run, turned);
    x.table_same(
        t,
        hidden,
        turn,
        |s: int, i: int| distance_turn(x, y, p, run, turned, s, i),
    );
    x.table_same(
        heads,
        t,
        ins,
        |h: int, s: int|
            input_slope(x, p, dk, dv, t, rows_of(turned, h), up_of(x, dv, run, h), s),
    );
}

impl<T: Copy, F: Fn(ScalarOp, T, T) -> T, C: Fn(Number) -> T, Z: Fn(Relation, T, T) -> bool> Scalars<T, F, C, Z> {
    /// Where every term is there, all are added.
    proof fn gathered_all(&self, n: nat, there: spec_fn(int) -> bool, term: spec_fn(int) -> T)
        requires
            forall|t: int| 0 <= t < n ==> #[trigger] there(t),
        ensures
            self.gathered_where(n, there, term) == self.total(n, term),
        decreases n,
    {
        if n > 0 {
            self.gathered_all((n - 1) as nat, there, term);
            assert(there(n - 1));
        }
    }
}

/// The slopes in a projection are gradients: let the projection and the bias
/// that give the logits change, and what the slopes in the logits weigh the
/// changes of the logits to is what the slopes in the projection and in the bias
/// weigh theirs to.
pub proof fn law_projection_slopes_are_gradients<
    T: Copy,
    F: Fn(ScalarOp, T, T) -> T,
    C: Fn(Number) -> T,
    Z: Fn(Relation, T, T) -> bool,
>(
    x: &Scalars<T, F, C, Z>,
    dz: Seq<Vec<T>>,
    rows: Seq<Vec<T>>,
    outputs: nat,
    inputs: nat,
    w_turn: Seq<Seq<T>>,
    beta_turn: Seq<T>,
)
    requires
        x.ring(),
        dz.len() == rows.len(),
        forall|t: int| 0 <= t < dz.len() ==> #[trigger] dz[t]@.len() == outputs,
        forall|t: int| 0 <= t < rows.len() ==> #[trigger] rows[t]@.len() == inputs,
    ensures
        x.table_total(
            rows.len(),
            outputs,
            |t: int, i: int|
                x.times(
                    dz[t]@[i],
                    x.plus(
                        x.total(inputs, |j: int| x.times(w_turn[i][j], rows[t]@[j])),
                        beta_turn[i],
                    ),
                ),
        ) == x.plus(
            x.table_total(
                outputs,
                inputs,
                |i: int, j: int|
                    x.times(
                        x.gathered_where(
                            rows.len(),
                            |t: int| i < dz[t]@.len() && j < rows[t]@.len(),
                            |t: int| x.times(dz[t]@[i], rows[t]@[j]),
                        ),
                        w_turn[i][j],
                    ),
            ),
            x.total(
                outputs,
                |i: int|
                    x.times(
                        x.gathered_where(
                            rows.len(),
                            |t: int| i < dz[t]@.len(),
                            |t: int| dz[t]@[i],
                        ),
                        beta_turn[i],
                    ),
            ),
        ),
{
    let n = rows.len();
    let logit = |t: int, i: int|
        x.times(
            dz[t]@[i],
            x.plus(
                x.total(inputs, |j: int| x.times(w_turn[i][j], rows[t]@[j])),
                beta_turn[i],
            ),
        );
    let by_w = |t: int, i: int|
        x.times(dz[t]@[i], x.total(inputs, |j: int| x.times(w_turn[i][j], rows[t]@[j])));
    let by_beta = |t: int, i: int| x.times(dz[t]@[i], beta_turn[i]);
    assert forall|t: int, i: int| 0 <= t < n && 0 <= i < outputs implies #[trigger] logit(t, i)
        == x.plus(by_w(t, i), by_beta(t, i)) by {
        x.times_plus(
            dz[t]@[i],
            x.total(inputs, |j: int| x.times(w_turn[i][j], rows[t]@[j])),
            beta_turn[i],
        );
    }
    x.table_plus(n, outputs, by_w, by_beta, logit);
    let w_slope = |i: int, j: int|
        x.times(
            x.gathered_where(
                n,
                |t: int| i < dz[t]@.len() && j < rows[t]@.len(),
                |t: int| x.times(dz[t]@[i], rows[t]@[j]),
            ),
            w_turn[i][j],
        );
    let beta_slope = |i: int|
        x.times(
            x.gathered_where(n, |t: int| i < dz[t]@.len(), |t: int| dz[t]@[i]),
            beta_turn[i],
        );
    x.gathered_swap(n, outputs, by_w);
    x.gathered_swap(n, outputs, by_beta);
    let w_rows = |i: int| x.total(inputs, |j: int| w_slope(i, j));
    let w_cols = |i: int| x.total(n, |t: int| by_w(t, i));
    let beta_cols = |i: int| x.total(n, |t: int| by_beta(t, i));
    assert forall|i: int| 0 <= i < outputs implies #[trigger] w_cols(i) == w_rows(i) by {
        let cell = |t: int, j: int|
            x.times(dz[t]@[i], x.times(w_turn[i][j], rows[t]@[j]));
        let at = |t: int| x.total(inputs, |j: int| cell(t, j));
        assert forall|t: int| 0 <= t < n implies #[trigger] at(t) == by_w(t, i) by {
            x.gathered_times(
                inputs,
                dz[t]@[i],
                |j: int| x.times(w_turn[i][j], rows[t]@[j]),
                |j: int| cell(t, j),
            );
        }
        x.lemma_gathered_same(x.zero(), n, at, |t: int| by_w(t, i));
        x.gathered_swap(n, inputs, cell);
        let over_tokens = |j: int| x.total(n, |t: int| cell(t, j));
        assert forall|j: int| 0 <= j < inputs implies #[trigger] over_tokens(j) == w_slope(
            i,
            j,
        ) by {
            let there = |t: int| i < dz[t]@.len() && j < rows[t]@.len();
            let part = |t: int| x.times(dz[t]@[i], rows[t]@[j]);
            assert forall|t: int| 0 <= t < n implies #[trigger] there(t) by {
                assert(dz[t]@.len() == outputs);
                assert(rows[t]@.len() == inputs);
            }
            x.gathered_all(n, there, part);
            let c = |t: int| cell(t, j);
            assert forall|t: int| 0 <= t < n implies #[trigger] c(t) == x.times(
                w_turn[i][j],
                part(t),
            ) by {
                let (d, w, r) = (dz[t]@[i], w_turn[i][j], rows[t]@[j]);
                x.times_assoc(d, w, r);
                x.times_comm(d, w);
                x.times_assoc(w, d, r);
            }
            x.gathered_times(n, w_turn[i][j], part, c);
            x.times_comm(w_turn[i][j], x.total(n, part));
        }
        x.lemma_gathered_same(x.zero(), inputs, over_tokens, |j: int| w_slope(i, j));
    }
    x.lemma_gathered_same(x.zero(), outputs, w_cols, w_rows);
    assert forall|i: int| 0 <= i < outputs implies #[trigger] beta_cols(i) == beta_slope(i) by {
        let there = |t: int| i < dz[t]@.len();
        let part = |t: int| dz[t]@[i];
        assert forall|t: int| 0 <= t < n implies #[trigger] there(t) by {
            assert(dz[t]@.len() == outputs);
        }
        x.gathered_all(n, there, part);
        let c = |t: int| by_beta(t, i);
        assert forall|t: int| 0 <= t < n implies #[trigger] c(t) == x.times(
            beta_turn[i],
            part(t),
        ) by {
            x.times_comm(dz[t]@[i], beta_turn[i]);
        }
        x.gathered_times(n, beta_turn[i], part, c);
        x.times_comm(beta_turn[i], x.total(n, part));
    }
    x.lemma_gathered_same(x.zero(), outputs, beta_cols, beta_slope);
    x.table_same(
        n,
        outputs,
        logit,
        |t: int, i: int|
            x.times(
                dz[t]@[i],
                x.plus(
                    x.total(inputs, |j: int| x.times(w_turn[i][j], rows[t]@[j])),
                    beta_turn[i],
                ),
            ),
    );
}

} // verus!
