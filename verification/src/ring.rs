//! Arithmetic without rounding: what a commutative ring gives for sums.

use crate::scalar::{Number, Relation, ScalarOp, Scalars};
use vstd::prelude::*;

verus! {

impl<T: Copy, F: Fn(ScalarOp, T, T) -> T, C: Fn(Number) -> T, Z: Fn(Relation, T, T) -> bool> Scalars<T, F, C, Z> {
    /// The operations are those of a commutative ring: nothing is rounded.
    #[verifier::opaque]
    pub open spec fn ring(&self) -> bool {
        &&& forall|a: T, b: T| #[trigger] self.plus(a, b) == self.plus(b, a)
        &&& forall|a: T, b: T, c: T|
            #![trigger self.plus(self.plus(a, b), c)]
            self.plus(self.plus(a, b), c) == self.plus(a, self.plus(b, c))
        &&& forall|a: T| #[trigger] self.plus(a, self.zero()) == a
        &&& forall|a: T| self.plus(a, #[trigger] self.negated(a)) == self.zero()
        &&& forall|a: T, b: T| #[trigger] self.minus(a, b) == self.plus(a, self.negated(b))
        &&& forall|a: T, b: T| #[trigger] self.times(a, b) == self.times(b, a)
        &&& forall|a: T, b: T, c: T|
            #![trigger self.times(self.times(a, b), c)]
            self.times(self.times(a, b), c) == self.times(a, self.times(b, c))
        &&& forall|a: T| #[trigger] self.times(a, self.one()) == a
        &&& forall|a: T, b: T, c: T|
            #![trigger self.times(a, self.plus(b, c))]
            self.times(a, self.plus(b, c)) == self.plus(self.times(a, b), self.times(a, c))
    }

    pub proof fn plus_comm(&self, a: T, b: T)
        requires
            self.ring(),
        ensures
            self.plus(a, b) == self.plus(b, a),
    {
        reveal(Scalars::ring);
    }

    pub proof fn plus_assoc(&self, a: T, b: T, c: T)
        requires
            self.ring(),
        ensures
            self.plus(self.plus(a, b), c) == self.plus(a, self.plus(b, c)),
    {
        reveal(Scalars::ring);
    }

    pub proof fn plus_zero(&self, a: T)
        requires
            self.ring(),
        ensures
            self.plus(a, self.zero()) == a,
            self.plus(self.zero(), a) == a,
    {
        reveal(Scalars::ring);
        self.plus_comm(a, self.zero());
    }

    pub proof fn plus_negated(&self, a: T)
        requires
            self.ring(),
        ensures
            self.plus(a, self.negated(a)) == self.zero(),
            self.plus(self.negated(a), a) == self.zero(),
    {
        reveal(Scalars::ring);
        self.plus_comm(a, self.negated(a));
    }

    pub proof fn minus_is(&self, a: T, b: T)
        requires
            self.ring(),
        ensures
            self.minus(a, b) == self.plus(a, self.negated(b)),
    {
        reveal(Scalars::ring);
    }

    pub proof fn times_comm(&self, a: T, b: T)
        requires
            self.ring(),
        ensures
            self.times(a, b) == self.times(b, a),
    {
        reveal(Scalars::ring);
    }

    pub proof fn times_assoc(&self, a: T, b: T, c: T)
        requires
            self.ring(),
        ensures
            self.times(self.times(a, b), c) == self.times(a, self.times(b, c)),
    {
        reveal(Scalars::ring);
    }

    pub proof fn times_one(&self, a: T)
        requires
            self.ring(),
        ensures
            self.times(a, self.one()) == a,
            self.times(self.one(), a) == a,
    {
        reveal(Scalars::ring);
        self.times_comm(a, self.one());
    }

    pub proof fn times_plus(&self, a: T, b: T, c: T)
        requires
            self.ring(),
        ensures
            self.times(a, self.plus(b, c)) == self.plus(self.times(a, b), self.times(a, c)),
            self.times(self.plus(b, c), a) == self.plus(self.times(b, a), self.times(c, a)),
    {
        reveal(Scalars::ring);
        self.times_comm(a, self.plus(b, c));
        self.times_comm(a, b);
        self.times_comm(a, c);
    }

    /// What is added on both sides can be left out.
    pub proof fn plus_cancel(&self, a: T, b: T, c: T)
        requires
            self.ring(),
            self.plus(a, c) == self.plus(b, c),
        ensures
            a == b,
    {
        let n = self.negated(c);
        self.plus_assoc(a, c, n);
        self.plus_assoc(b, c, n);
        self.plus_negated(c);
        self.plus_zero(a);
        self.plus_zero(b);
    }

    /// Zero times a number is zero.
    pub proof fn times_zero(&self, a: T)
        requires
            self.ring(),
        ensures
            self.times(a, self.zero()) == self.zero(),
            self.times(self.zero(), a) == self.zero(),
    {
        let z = self.zero();
        self.plus_zero(z);
        self.times_plus(a, z, z);
        self.plus_zero(self.times(a, z));
        self.plus_cancel(z, self.times(a, z), self.times(a, z));
        self.times_comm(a, z);
    }

    /// A product with a negated number is the negated product.
    pub proof fn times_negated(&self, a: T, b: T)
        requires
            self.ring(),
        ensures
            self.times(a, self.negated(b)) == self.negated(self.times(a, b)),
            self.times(self.negated(b), a) == self.negated(self.times(b, a)),
    {
        let n = self.negated(b);
        self.times_plus(a, n, b);
        self.plus_negated(b);
        self.times_zero(a);
        self.plus_negated(self.times(a, b));
        self.plus_cancel(
            self.times(a, n),
            self.negated(self.times(a, b)),
            self.times(a, b),
        );
        self.times_comm(a, n);
        self.times_comm(a, b);
    }

    /// A product with a difference is the difference of the products.
    pub proof fn times_minus(&self, a: T, b: T, c: T)
        requires
            self.ring(),
        ensures
            self.times(a, self.minus(b, c)) == self.minus(self.times(a, b), self.times(a, c)),
            self.times(self.minus(b, c), a) == self.minus(self.times(b, a), self.times(c, a)),
    {
        self.minus_is(b, c);
        self.times_plus(a, b, self.negated(c));
        self.times_negated(a, c);
        self.minus_is(self.times(a, b), self.times(a, c));
        self.times_comm(a, self.minus(b, c));
        self.times_comm(a, b);
        self.times_comm(a, c);
    }

    /// Two sums added part by part.
    pub proof fn plus_pairs(&self, a: T, b: T, c: T, d: T)
        requires
            self.ring(),
        ensures
            self.plus(self.plus(a, b), self.plus(c, d)) == self.plus(
                self.plus(a, c),
                self.plus(b, d),
            ),
    {
        self.plus_assoc(a, b, self.plus(c, d));
        self.plus_assoc(b, c, d);
        self.plus_comm(b, c);
        self.plus_assoc(c, b, d);
        self.plus_assoc(a, c, self.plus(b, d));
    }

    /// The negated sum is the sum of the negated.
    pub proof fn negated_plus(&self, a: T, b: T)
        requires
            self.ring(),
        ensures
            self.negated(self.plus(a, b)) == self.plus(self.negated(a), self.negated(b)),
    {
        let na = self.negated(a);
        let nb = self.negated(b);
        self.plus_pairs(na, nb, a, b);
        self.plus_negated(a);
        self.plus_negated(b);
        self.plus_zero(self.zero());
        self.plus_negated(self.plus(a, b));
        self.plus_cancel(self.negated(self.plus(a, b)), self.plus(na, nb), self.plus(a, b));
    }

    /// Negating twice gives the number back.
    pub proof fn negated_twice(&self, a: T)
        requires
            self.ring(),
        ensures
            self.negated(self.negated(a)) == a,
    {
        let n = self.negated(a);
        self.plus_negated(n);
        self.plus_negated(a);
        self.plus_cancel(self.negated(n), a, n);
    }

    /// Two differences added part by part.
    pub proof fn minus_pairs(&self, a: T, b: T, c: T, d: T)
        requires
            self.ring(),
        ensures
            self.plus(self.minus(a, b), self.minus(c, d)) == self.minus(
                self.plus(a, c),
                self.plus(b, d),
            ),
    {
        self.minus_is(a, b);
        self.minus_is(c, d);
        self.minus_is(self.plus(a, c), self.plus(b, d));
        self.negated_plus(b, d);
        self.plus_pairs(a, self.negated(b), c, self.negated(d));
    }

    /// The order of three factors does not matter.
    pub proof fn times_swap(&self, a: T, b: T, c: T)
        requires
            self.ring(),
        ensures
            self.times(self.times(a, b), c) == self.times(self.times(a, c), b),
    {
        self.times_assoc(a, b, c);
        self.times_comm(b, c);
        self.times_assoc(a, c, b);
    }

    /// A sum can start anywhere.
    pub proof fn gathered_start(&self, start: T, n: nat, f: spec_fn(int) -> T)
        requires
            self.ring(),
        ensures
            self.gathered(start, n, f) == self.plus(start, self.gathered(self.zero(), n, f)),
        decreases n,
    {
        if n == 0 {
            self.plus_zero(start);
        } else {
            self.gathered_start(start, (n - 1) as nat, f);
            self.plus_assoc(
                start,
                self.gathered(self.zero(), (n - 1) as nat, f),
                f(n - 1),
            );
        }
    }

    /// The sum of sums.
    pub proof fn gathered_plus(
        &self,
        n: nat,
        f: spec_fn(int) -> T,
        g: spec_fn(int) -> T,
        h: spec_fn(int) -> T,
    )
        requires
            self.ring(),
            forall|i: int| 0 <= i < n ==> #[trigger] h(i) == self.plus(f(i), g(i)),
        ensures
            self.gathered(self.zero(), n, h) == self.plus(
                self.gathered(self.zero(), n, f),
                self.gathered(self.zero(), n, g),
            ),
        decreases n,
    {
        let z = self.zero();
        if n == 0 {
            self.plus_zero(z);
        } else {
            let m = (n - 1) as nat;
            self.gathered_plus(m, f, g, h);
            assert(h(n - 1) == self.plus(f(n - 1), g(n - 1)));
            self.plus_pairs(self.gathered(z, m, f), self.gathered(z, m, g), f(n - 1), g(n - 1));
        }
    }

    /// A factor of every term is a factor of the sum.
    pub proof fn gathered_times(
        &self,
        n: nat,
        a: T,
        f: spec_fn(int) -> T,
        g: spec_fn(int) -> T,
    )
        requires
            self.ring(),
            forall|i: int| 0 <= i < n ==> #[trigger] g(i) == self.times(a, f(i)),
        ensures
            self.gathered(self.zero(), n, g) == self.times(a, self.gathered(self.zero(), n, f)),
        decreases n,
    {
        let z = self.zero();
        if n == 0 {
            self.times_zero(a);
        } else {
            let m = (n - 1) as nat;
            self.gathered_times(m, a, f, g);
            assert(g(n - 1) == self.times(a, f(n - 1)));
            self.times_plus(a, self.gathered(z, m, f), f(n - 1));
        }
    }

    /// A sum of zeros is zero.
    pub proof fn gathered_nothing(&self, n: nat, f: spec_fn(int) -> T)
        requires
            self.ring(),
            forall|i: int| 0 <= i < n ==> #[trigger] f(i) == self.zero(),
        ensures
            self.gathered(self.zero(), n, f) == self.zero(),
        decreases n,
    {
        if n > 0 {
            self.gathered_nothing((n - 1) as nat, f);
            assert(f(n - 1) == self.zero());
            self.plus_zero(self.zero());
        }
    }

    /// Sums over rows and columns can be taken in either order.
    pub proof fn gathered_swap(&self, rows: nat, cols: nat, f: spec_fn(int, int) -> T)
        requires
            self.ring(),
        ensures
            self.gathered(
                self.zero(),
                rows,
                |i: int| self.gathered(self.zero(), cols, |j: int| f(i, j)),
            ) == self.gathered(
                self.zero(),
                cols,
                |j: int| self.gathered(self.zero(), rows, |i: int| f(i, j)),
            ),
        decreases rows,
    {
        let z = self.zero();
        let by_row = |i: int| self.gathered(z, cols, |j: int| f(i, j));
        let by_col = |j: int| self.gathered(z, rows, |i: int| f(i, j));
        if rows == 0 {
            self.gathered_nothing(cols, by_col);
        } else {
            let m = (rows - 1) as nat;
            self.gathered_swap(m, cols, f);
            let short = |j: int| self.gathered(z, m, |i: int| f(i, j));
            let last = |j: int| f(rows - 1, j);
            assert forall|j: int| 0 <= j < cols implies #[trigger] by_col(j) == self.plus(
                short(j),
                last(j),
            ) by {}
            self.gathered_plus(cols, short, last, by_col);
            assert(self.gathered(z, rows, by_row) == self.plus(
                self.gathered(z, m, by_row),
                by_row(rows - 1),
            ));
            self.lemma_gathered_same(z, cols, last, |j: int| f(rows - 1, j));
        }
    }
}

} // verus!
