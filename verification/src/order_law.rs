//! What the order of numbers says of attention and of the gated delta
//! recurrence, in arithmetic without rounding.

use crate::gla_laws::law_unwritten_read_is_scaled;
use crate::scalar::{Number, Relation, ScalarOp, Scalars};
use crate::softmax_law::law_softmax_weights_add_up;
use vstd::prelude::*;

verus! {

impl<T: Copy, F: Fn(ScalarOp, T, T) -> T, C: Fn(Number) -> T, Z: Fn(Relation, T, T) -> bool> Scalars<T, F, C, Z> {
    /// `a` is at most `b`.
    pub open spec fn at_most(&self, a: T, b: T) -> bool {
        !self.above(a, b)
    }

    /// Numbers are ordered as real numbers are: the order is total, sums and
    /// products with positive numbers keep it, exponentials are positive, grow
    /// with their exponent and turn sums into products, and a hyperbolic
    /// tangent lies between minus one and one.
    pub open spec fn ordered(&self) -> bool {
        &&& forall|a: T| !#[trigger] self.above(a, a)
        &&& forall|a: T, b: T| a == b || #[trigger] self.above(a, b) || self.above(b, a)
        &&& forall|a: T, b: T, c: T| #[trigger]
            self.above(a, b) && #[trigger] self.above(b, c) ==> self.above(a, c)
        &&& forall|a: T, b: T, c: T|
            self.above(a, b) ==> #[trigger] self.above(self.plus(a, c), self.plus(b, c))
        &&& forall|a: T, b: T, c: T|
            self.above(a, b) && self.above(c, self.zero()) ==> #[trigger] self.above(
                self.times(a, c),
                self.times(b, c),
            )
        &&& forall|a: T| self.above(#[trigger] self.exp(a), self.zero())
        &&& forall|a: T, b: T|
            self.above(a, b) ==> #[trigger] self.above(self.exp(a), self.exp(b))
        &&& forall|a: T, b: T|
            #![trigger self.exp(self.plus(a, b))]
            self.exp(self.plus(a, b)) == self.times(self.exp(a), self.exp(b))
        &&& forall|a: T|
            self.at_most(#[trigger] self.tanh(a), self.one()) && self.at_most(
                self.negated(self.one()),
                self.tanh(a),
            )
    }

    proof fn at_most_through(&self, a: T, b: T, c: T)
        requires
            self.ordered(),
            self.at_most(a, b),
            self.at_most(b, c),
        ensures
            self.at_most(a, c),
    {
        if self.above(a, c) {
            assert(b == c || self.above(b, c) || self.above(c, b));
            assert(a == b || self.above(a, b) || self.above(b, a));
        }
    }

    proof fn plus_keeps_at_most(&self, a: T, b: T, c: T)
        requires
            self.ordered(),
            self.at_most(a, b),
        ensures
            self.at_most(self.plus(a, c), self.plus(b, c)),
    {
        assert(a == b || self.above(a, b) || self.above(b, a));
        if self.above(b, a) {
            assert(self.above(self.plus(b, c), self.plus(a, c)));
            if self.above(self.plus(a, c), self.plus(b, c)) {
                assert(self.above(self.plus(a, c), self.plus(a, c)));
            }
        }
    }

    proof fn times_keeps_at_most(&self, a: T, b: T, c: T)
        requires
            self.ordered(),
            self.at_most(a, b),
            self.above(c, self.zero()),
        ensures
            self.at_most(self.times(a, c), self.times(b, c)),
    {
        assert(a == b || self.above(a, b) || self.above(b, a));
        if self.above(b, a) {
            assert(self.above(self.times(b, c), self.times(a, c)));
            if self.above(self.times(a, c), self.times(b, c)) {
                assert(self.above(self.times(a, c), self.times(a, c)));
            }
        }
    }

    proof fn plus_both_at_most(&self, a: T, b: T, c: T, d: T)
        requires
            self.ring(),
            self.ordered(),
            self.at_most(a, b),
            self.at_most(c, d),
        ensures
            self.at_most(self.plus(a, c), self.plus(b, d)),
    {
        self.plus_keeps_at_most(a, b, c);
        self.plus_keeps_at_most(c, d, b);
        self.plus_comm(c, b);
        self.plus_comm(d, b);
        self.at_most_through(self.plus(a, c), self.plus(b, c), self.plus(b, d));
    }

    proof fn exp_keeps_at_most(&self, a: T, b: T)
        requires
            self.ordered(),
            self.at_most(a, b),
        ensures
            self.at_most(self.exp(a), self.exp(b)),
    {
        assert(a == b || self.above(a, b) || self.above(b, a));
        if self.above(b, a) {
            assert(self.above(self.exp(b), self.exp(a)));
            if self.above(self.exp(a), self.exp(b)) {
                assert(self.above(self.exp(a), self.exp(a)));
            }
        }
    }

    proof fn gathered_keeps_at_most(&self, n: nat, f: spec_fn(int) -> T, g: spec_fn(int) -> T)
        requires
            self.ring(),
            self.ordered(),
            forall|i: int| 0 <= i < n ==> self.at_most(#[trigger] f(i), g(i)),
        ensures
            self.at_most(self.gathered(self.zero(), n, f), self.gathered(self.zero(), n, g)),
        decreases n,
    {
        if n > 0 {
            let m = (n - 1) as nat;
            self.gathered_keeps_at_most(m, f, g);
            assert(self.at_most(f(n - 1), g(n - 1)));
            self.plus_both_at_most(
                self.gathered(self.zero(), m, f),
                self.gathered(self.zero(), m, g),
                f(n - 1),
                g(n - 1),
            );
        }
    }

    proof fn gathered_positive(&self, n: nat, f: spec_fn(int) -> T)
        requires
            self.ring(),
            self.ordered(),
            n > 0,
            forall|i: int| 0 <= i < n ==> self.above(#[trigger] f(i), self.zero()),
        ensures
            self.above(self.gathered(self.zero(), n, f), self.zero()),
        decreases n,
    {
        let m = (n - 1) as nat;
        let last = f(n - 1);
        let before = self.gathered(self.zero(), m, f);
        assert(self.above(last, self.zero()));
        self.plus_zero(last);
        self.plus_comm(last, self.zero());
        if m > 0 {
            self.gathered_positive(m, f);
            assert(self.above(self.plus(before, last), self.plus(self.zero(), last)));
        }
    }

    /// A positive quotient times its divisor is what was divided, so that the
    /// quotient of positive numbers is positive.
    proof fn share_positive(&self, a: T, b: T)
        requires
            self.ring(),
            self.ordered(),
            self.above(a, self.zero()),
            self.above(b, self.zero()),
            self.times(self.over(a, b), b) == a,
        ensures
            self.above(self.over(a, b), self.zero()),
    {
        let q = self.over(a, b);
        self.times_zero(b);
        self.times_comm(b, self.zero());
        assert(q == self.zero() || self.above(q, self.zero()) || self.above(self.zero(), q));
        if self.above(self.zero(), q) {
            assert(self.above(self.times(self.zero(), b), self.times(q, b)));
            assert(self.above(self.zero(), a));
            assert(self.above(a, a));
        }
    }

    /// `a` is no greater in size than `m`.
    pub open spec fn within(&self, a: T, m: T) -> bool {
        self.at_most(self.negated(m), a) && self.at_most(a, m)
    }

    proof fn negated_flips_at_most(&self, a: T, b: T)
        requires
            self.ring(),
            self.ordered(),
            self.at_most(a, b),
        ensures
            self.at_most(self.negated(b), self.negated(a)),
    {
        let na = self.negated(a);
        let nb = self.negated(b);
        self.plus_keeps_at_most(a, b, self.plus(na, nb));
        self.plus_assoc(a, na, nb);
        self.plus_negated(a);
        self.plus_zero(nb);
        self.plus_comm(na, nb);
        self.plus_assoc(b, nb, na);
        self.plus_negated(b);
        self.plus_zero(na);
    }

    proof fn share_is_within(&self, a: T, m: T)
        requires
            self.ring(),
            self.ordered(),
            self.within(a, self.one()),
            self.at_most(self.zero(), m),
        ensures
            self.within(self.times(a, m), m),
    {
        let zero = self.zero();
        if m == zero {
            self.times_zero(a);
            self.plus_negated(zero);
            self.plus_zero(self.negated(zero));
        } else {
            assert(self.above(m, zero));
            self.times_keeps_at_most(a, self.one(), m);
            self.times_keeps_at_most(self.negated(self.one()), a, m);
            self.times_one(m);
            self.times_negated(m, self.one());
        }
    }
}

proof fn lemma_weights_positive<
    T: Copy,
    F: Fn(ScalarOp, T, T) -> T,
    C: Fn(Number) -> T,
    Z: Fn(Relation, T, T) -> bool,
>(x: &Scalars<T, F, C, Z>, scores: Seq<T>)
    requires
        x.exact(),
        x.ordered(),
        scores.len() > 0,
        x.unit(x.row_sum(x.exponentials_of(scores))),
    ensures
        x.above(x.row_sum(x.exponentials_of(scores)), x.zero()),
        forall|i: int|
            0 <= i < scores.len() ==> x.above(#[trigger] x.softmax_of(scores, None)[i], x.zero()),
{
    let e = x.exponentials_of(scores);
    let total = x.row_sum(e);
    let w = x.softmax_of(scores, None);
    x.gathered_positive(scores.len(), |i: int| e[i]);
    assert forall|i: int| 0 <= i < scores.len() implies x.above(#[trigger] w[i], x.zero()) by {
        assert(x.times(x.over(e[i], total), total) == e[i]);
        x.share_positive(e[i], total);
    }
}

/// What attention gives lies between the least and the greatest of the values
/// that it sees: whatever bounds column `d` of every visible row bounds column
/// `d` of the result.
pub proof fn law_attention_stays_between_its_values<
    T: Copy,
    F: Fn(ScalarOp, T, T) -> T,
    C: Fn(Number) -> T,
    Z: Fn(Relation, T, T) -> bool,
>(
    x: &Scalars<T, F, C, Z>,
    cap: Option<T>,
    q: Seq<T>,
    keys: Seq<T>,
    values: Seq<T>,
    n: nat,
    d: int,
    least: T,
    greatest: T,
)
    requires
        x.exact(),
        x.ordered(),
        n > 0,
        0 <= d < q.len(),
        x.unit(x.row_sum(x.exponentials_of(x.head_scores(cap, q, keys, n)))),
        forall|t: int|
            0 <= t < n ==> x.at_most(least, #[trigger] values[t * q.len() + d]) && x.at_most(
                values[t * q.len() + d],
                greatest,
            ),
    ensures
        x.at_most(least, x.attended(cap, q, keys, values, n)[d]),
        x.at_most(x.attended(cap, q, keys, values, n)[d], greatest),
{
    let dim = q.len();
    let scores = x.head_scores(cap, q, keys, n);
    let w = x.softmax_of(scores, None);
    lemma_weights_positive(x, scores);
    law_softmax_weights_add_up(x, scores);
    let part = |t: int| x.times(w[t], values[t * dim + d]);
    let low = |t: int| x.times(least, w[t]);
    let high = |t: int| x.times(greatest, w[t]);
    assert forall|t: int| 0 <= t < n implies x.at_most(low(t), #[trigger] part(t)) && x.at_most(
        part(t),
        high(t),
    ) by {
        let v = values[t * dim + d];
        assert(x.at_most(least, v) && x.at_most(v, greatest));
        assert(x.above(w[t], x.zero()));
        x.times_keeps_at_most(least, v, w[t]);
        x.times_keeps_at_most(v, greatest, w[t]);
        x.times_comm(w[t], v);
    }
    assert forall|t: int| 0 <= t < n implies x.at_most(#[trigger] low(t), part(t)) by {
        assert(x.at_most(low(t), part(t)) && part(t) == part(t));
    }
    x.gathered_keeps_at_most(n, low, part);
    x.gathered_keeps_at_most(n, part, high);
    x.gathered_times(n, least, |t: int| w[t], low);
    x.gathered_times(n, greatest, |t: int| w[t], high);
    x.times_one(least);
    x.times_one(greatest);
}

proof fn lemma_capped_between<
    T: Copy,
    F: Fn(ScalarOp, T, T) -> T,
    C: Fn(Number) -> T,
    Z: Fn(Relation, T, T) -> bool,
>(x: &Scalars<T, F, C, Z>, cap: T, v: T)
    requires
        x.ring(),
        x.ordered(),
        x.above(cap, x.zero()),
    ensures
        x.at_most(x.capped(cap, v), cap),
        x.at_most(x.negated(cap), x.capped(cap, v)),
{
    let t = x.tanh(x.over(v, cap));
    x.times_keeps_at_most(t, x.one(), cap);
    x.times_keeps_at_most(x.negated(x.one()), t, cap);
    x.times_comm(t, cap);
    x.times_comm(x.one(), cap);
    x.times_one(cap);
    x.times_comm(x.negated(x.one()), cap);
    x.times_negated(cap, x.one());
}

/// A cap keeps the weights of attention together: of two visible rows, none
/// weighs more than the other times the exponential of twice the cap.
pub proof fn law_capped_weights_stay_close<
    T: Copy,
    F: Fn(ScalarOp, T, T) -> T,
    C: Fn(Number) -> T,
    Z: Fn(Relation, T, T) -> bool,
>(
    x: &Scalars<T, F, C, Z>,
    cap: T,
    q: Seq<T>,
    keys: Seq<T>,
    n: nat,
    i: int,
    j: int,
)
    requires
        x.exact(),
        x.ordered(),
        x.above(cap, x.zero()),
        0 <= i < n,
        0 <= j < n,
        x.unit(x.row_sum(x.exponentials_of(x.head_scores(Some(cap), q, keys, n)))),
    ensures
        ({
            let w = x.softmax_of(x.head_scores(Some(cap), q, keys, n), None);
            x.at_most(w[i], x.times(w[j], x.exp(x.plus(cap, cap))))
        }),
{
    let scores = x.head_scores(Some(cap), q, keys, n);
    let e = x.exponentials_of(scores);
    let total = x.row_sum(e);
    let w = x.softmax_of(scores, None);
    let top = x.highest(scores, n);
    let twice = x.plus(cap, cap);
    lemma_weights_positive(x, scores);
    let (a, b) = (scores[i], scores[j]);
    let score = |t: int|
        x.times(x.dot_at(q, keys, t * q.len()), x.score_scale(q.len() as usize));
    lemma_capped_between(x, cap, score(i));
    lemma_capped_between(x, cap, score(j));
    assert(x.at_most(a, cap) && x.at_most(x.negated(cap), b));
    // `a` is at most `b` plus twice the cap.
    x.plus_keeps_at_most(x.negated(cap), b, twice);
    x.plus_assoc(x.negated(cap), cap, cap);
    x.plus_comm(x.negated(cap), cap);
    x.plus_negated(cap);
    x.plus_comm(x.zero(), cap);
    x.plus_zero(cap);
    assert(x.plus(x.negated(cap), twice) == cap);
    x.at_most_through(a, cap, x.plus(b, twice));
    // So it is when both are measured from the largest.
    let down = x.negated(top);
    x.plus_keeps_at_most(a, x.plus(b, twice), down);
    x.minus_is(a, top);
    x.minus_is(b, top);
    x.plus_assoc(b, twice, down);
    x.plus_comm(twice, down);
    x.plus_assoc(b, down, twice);
    let (da, db) = (x.minus(a, top), x.minus(b, top));
    assert(x.at_most(da, x.plus(db, twice)));
    x.exp_keeps_at_most(da, x.plus(db, twice));
    assert(x.exp(x.plus(db, twice)) == x.times(x.exp(db), x.exp(twice)));
    assert(e[i] == x.exp(da) && e[j] == x.exp(db));
    // Dividing both by the sum keeps it.
    let other = x.times(w[j], x.exp(twice));
    assert(x.times(x.over(e[i], total), total) == e[i]);
    assert(x.times(x.over(e[j], total), total) == e[j]);
    x.times_comm(x.exp(twice), w[j]);
    x.times_assoc(x.exp(twice), w[j], total);
    x.times_comm(x.exp(twice), e[j]);
    assert(x.times(other, total) == x.times(e[j], x.exp(twice)));
    if x.above(w[i], other) {
        assert(x.above(x.times(w[i], total), x.times(other, total)));
    }
}

/// Old associations fade: a token that writes nothing, with one decay between
/// zero and one and a strength that takes at most twice what the key holds,
/// leaves every read along its key no greater in size than it was.
pub proof fn law_unwritten_reads_never_grow<
    T: Copy,
    F: Fn(ScalarOp, T, T) -> T,
    C: Fn(Number) -> T,
    Z: Fn(Relation, T, T) -> bool,
>(
    x: &Scalars<T, F, C, Z>,
    dk: nat,
    dv: nat,
    state: Seq<Seq<T>>,
    k: Seq<T>,
    gamma: T,
    beta: T,
    j: int,
)
    requires
        x.ring(),
        x.ordered(),
        0 <= j < dv,
        x.at_most(x.zero(), gamma),
        x.at_most(gamma, x.one()),
        ({
            let taken = x.times(
                beta,
                x.gathered(x.zero(), dk, |i: int| x.times(k[i], k[i])),
            );
            x.at_most(x.zero(), taken) && x.at_most(taken, x.plus(x.one(), x.one()))
        }),
    ensures
        ({
            let old_read = x.read_out(dk, dv, state, k)[j];
            let new_read = x.read_out(
                dk,
                dv,
                x.engraved(
                    dk,
                    dv,
                    state,
                    k,
                    Seq::new(dv, |j: int| x.zero()),
                    Seq::new(dk, |i: int| gamma),
                    Seq::new(dk, |i: int| beta),
                    Seq::new(dv, |j: int| beta),
                ),
                k,
            )[j];
            x.within(new_read, old_read) || x.within(new_read, x.negated(old_read))
        }),
{
    let zero = x.zero();
    let one = x.one();
    let taken = x.times(beta, x.gathered(zero, dk, |i: int| x.times(k[i], k[i])));
    let rest = x.minus(one, taken);
    let factor = x.times(gamma, rest);
    let old_read = x.read_out(dk, dv, state, k)[j];
    law_unwritten_read_is_scaled(x, dk, dv, state, k, gamma, beta);
    // The rest lies between minus one and one.
    let nt = x.negated(taken);
    x.minus_is(one, taken);
    x.plus_comm(one, nt);
    x.negated_flips_at_most(zero, taken);
    x.plus_negated(zero);
    x.plus_zero(x.negated(zero));
    x.plus_keeps_at_most(nt, zero, one);
    x.plus_zero(one);
    x.negated_flips_at_most(taken, x.plus(one, one));
    let none = x.negated(one);
    x.negated_plus(one, one);
    x.plus_keeps_at_most(x.plus(none, none), nt, one);
    x.plus_assoc(none, none, one);
    x.plus_negated(one);
    x.plus_zero(none);
    assert(x.within(rest, one));
    // So does the factor.
    x.share_is_within(rest, gamma);
    x.times_comm(rest, gamma);
    x.negated_flips_at_most(gamma, one);
    x.at_most_through(factor, gamma, one);
    x.at_most_through(none, x.negated(gamma), factor);
    assert(x.within(factor, one));
    if x.at_most(zero, old_read) {
        x.share_is_within(factor, old_read);
    } else {
        let m = x.negated(old_read);
        x.negated_flips_at_most(old_read, zero);
        x.share_is_within(factor, m);
        x.times_negated(factor, old_read);
        let new_read = x.times(factor, old_read);
        x.negated_twice(new_read);
        x.negated_twice(m);
        x.negated_flips_at_most(x.negated(m), x.negated(new_read));
        x.negated_flips_at_most(x.negated(new_read), m);
    }
}

} // verus!
