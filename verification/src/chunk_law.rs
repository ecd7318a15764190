//! A chunk at once gives what its tokens give one after the other, in arithmetic
//! without rounding.

use crate::gla::HeadRows;
use crate::gla_chunks::{chunk_rows, ChunkForm};
use crate::scalar::{shaped, Number, Relation, ScalarOp, Scalars};
use vstd::prelude::*;

verus! {

impl<T: Copy, F: Fn(ScalarOp, T, T) -> T, C: Fn(Number) -> T, Z: Fn(Relation, T, T) -> bool> Scalars<T, F, C, Z> {
    /// The number can be divided by.
    pub open spec fn unit(&self, a: T) -> bool {
        exists|i: T| #[trigger] self.times(a, i) == self.one()
    }

    /// Nothing is rounded, division undoes multiplication, and only zero counts
    /// as zero.
    pub open spec fn exact(&self) -> bool {
        &&& self.ring()
        &&& forall|a: T, b: T|
            self.unit(b) ==> self.times(#[trigger] self.over(a, b), b) == a
        &&& forall|a: T| #[trigger] self.zero_at(a) ==> a == self.zero()
    }

    /// Every decay of the first `n` tokens can be divided by.
    pub open spec fn decays_are_units(&self, alpha: Seq<Seq<T>>, n: nat, dk: nat) -> bool {
        forall|r: int, d: int|
            0 <= r < n && 0 <= d < dk ==> self.unit(#[trigger] alpha[r][d])
    }

    pub(crate) proof fn unit_cancel(&self, a: T, b: T, c: T)
        requires
            self.ring(),
            self.unit(c),
            self.times(a, c) == self.times(b, c),
        ensures
            a == b,
    {
        let i = choose|i: T| #[trigger] self.times(c, i) == self.one();
        self.times_assoc(a, c, i);
        self.times_assoc(b, c, i);
        self.times_one(a);
        self.times_one(b);
    }

    proof fn unit_times(&self, a: T, b: T)
        requires
            self.ring(),
            self.unit(a),
            self.unit(b),
        ensures
            self.unit(self.times(a, b)),
    {
        let i = choose|i: T| #[trigger] self.times(a, i) == self.one();
        let j = choose|j: T| #[trigger] self.times(b, j) == self.one();
        let p = self.times(i, j);
        // (a b) (i j) = ((a b) i) j = ((a i) b) j = b j
        self.times_assoc(self.times(a, b), i, j);
        self.times_swap(a, b, i);
        self.times_one(b);
        assert(self.times(self.times(a, b), p) == self.one());
    }

    proof fn faded_unit(&self, alpha: Seq<Seq<T>>, d: int, n: nat, dk: nat)
        requires
            self.ring(),
            0 <= d < dk,
            self.decays_are_units(alpha, n, dk),
        ensures
            self.unit(self.faded(alpha, d, n)),
        decreases n,
    {
        if n == 0 {
            self.times_one(self.one());
            assert(self.times(self.one(), self.one()) == self.one());
        } else {
            self.faded_unit(alpha, d, (n - 1) as nat, dk);
            assert(self.unit(alpha[n - 1][d]));
            self.unit_times(self.faded(alpha, d, (n - 1) as nat), alpha[n - 1][d]);
        }
    }

    /// A quotient times a number is the other number's quotient times the first.
    proof fn over_moves(&self, a: T, b: T, c: T)
        requires
            self.exact(),
            self.unit(b),
        ensures
            self.times(self.over(a, b), c) == self.times(a, self.over(c, b)),
    {
        let left = self.times(self.over(a, b), c);
        let right = self.times(a, self.over(c, b));
        // left * b = (a / b) b c = a c
        self.times_swap(self.over(a, b), c, b);
        // right * b = a ((c / b) b) = a c
        self.times_assoc(a, self.over(c, b), b);
        self.unit_cancel(left, right, b);
    }

    /// What token `r` writes into value channel `j` when the tokens run one after
    /// the other.
    pub open spec fn serial_written(
        &self,
        dk: nat,
        dv: nat,
        rows: HeadRows<T>,
        state: Seq<Seq<T>>,
        r: int,
        j: int,
    ) -> T {
        self.correction(
            dk,
            self.decayed(dk, dv, self.serial_state(dk, dv, rows, state, r as nat), rows.alpha[r]),
            rows.k[r],
            rows.v[r],
            rows.b[r],
            rows.w[r],
            j,
        )
    }

    /// A key with its decay divided out.
    spec fn lifted(&self, rows: HeadRows<T>, s: int, d: int) -> T {
        self.over(rows.k[s][d], self.faded(rows.alpha, d, (s + 1) as nat))
    }

    /// The state without its decay: what it started from and what was written.
    spec fn undecayed(
        &self,
        dk: nat,
        dv: nat,
        rows: HeadRows<T>,
        state: Seq<Seq<T>>,
        n: nat,
        d: int,
        j: int,
    ) -> T {
        self.plus(
            state[d][j],
            self.gathered(
                self.zero(),
                n,
                |s: int|
                    self.times(
                        self.lifted(rows, s, d),
                        self.serial_written(dk, dv, rows, state, s, j),
                    ),
            ),
        )
    }

    proof fn serial_shape(
        &self,
        dk: nat,
        dv: nat,
        rows: HeadRows<T>,
        state: Seq<Seq<T>>,
        n: nat,
    )
        requires
            shaped(state, dk, dv),
        ensures
            shaped(self.serial_state(dk, dv, rows, state, n), dk, dv),
    {
        reveal_with_fuel(Scalars::serial_state, 2);
    }

    /// The serial state in closed form.
    proof fn closed_form(
        &self,
        dk: nat,
        dv: nat,
        rows: HeadRows<T>,
        state: Seq<Seq<T>>,
        n: nat,
        d: int,
        j: int,
    )
        requires
            self.exact(),
            0 <= d < dk,
            0 <= j < dv,
            shaped(state, dk, dv),
            self.decays_are_units(rows.alpha, n, dk),
        ensures
            self.serial_state(dk, dv, rows, state, n)[d][j] == self.times(
                self.faded(rows.alpha, d, n),
                self.undecayed(dk, dv, rows, state, n, d, j),
            ),
        decreases n,
    {
        let z = self.zero();
        let term = |s: int|
            self.times(
                self.lifted(rows, s, d),
                self.serial_written(dk, dv, rows, state, s, j),
            );
        if n == 0 {
            self.plus_zero(state[d][j]);
            self.times_one(state[d][j]);
        } else {
            let m = (n - 1) as nat;
            let r = n - 1;
            self.closed_form(dk, dv, rows, state, m, d, j);
            self.decayed_form(dk, dv, rows, state, m, d, j);
            let g = self.faded(rows.alpha, d, n);
            let sofar = self.undecayed(dk, dv, rows, state, m, d, j);
            let u = self.serial_written(dk, dv, rows, state, r, j);
            let up = self.lifted(rows, r, d);
            self.faded_unit(rows.alpha, d, n, dk);
            assert(self.times(up, g) == rows.k[r][d]);
            // k u = (up g) u = g (up u)
            self.times_comm(up, g);
            self.times_assoc(g, up, u);
            self.times_plus(g, sofar, self.times(up, u));
            self.plus_assoc(state[d][j], self.gathered(z, m, term), term(r));
        }
    }

    /// The decayed state in closed form.
    proof fn decayed_form(
        &self,
        dk: nat,
        dv: nat,
        rows: HeadRows<T>,
        state: Seq<Seq<T>>,
        n: nat,
        d: int,
        j: int,
    )
        requires
            self.ring(),
            0 <= d < dk,
            0 <= j < dv,
            self.serial_state(dk, dv, rows, state, n)[d][j] == self.times(
                self.faded(rows.alpha, d, n),
                self.undecayed(dk, dv, rows, state, n, d, j),
            ),
        ensures
            self.decayed(
                dk,
                dv,
                self.serial_state(dk, dv, rows, state, n),
                rows.alpha[n as int],
            )[d][j] == self.times(
                self.faded(rows.alpha, d, (n + 1) as nat),
                self.undecayed(dk, dv, rows, state, n, d, j),
            ),
    {
        let a = rows.alpha[n as int][d];
        let g = self.faded(rows.alpha, d, n);
        let sofar = self.undecayed(dk, dv, rows, state, n, d, j);
        self.times_assoc(a, g, sofar);
        self.times_comm(a, g);
    }

    /// How much token `r` erases of what token `s` wrote.
    spec fn erases(&self, dk: nat, rows: HeadRows<T>, r: int, s: int) -> T {
        self.gathered(
            self.zero(),
            dk,
            |d: int| self.times(self.erasing(rows, r, d), self.lifted(rows, s, d)),
        )
    }

    /// An erased key with its decay.
    spec fn erasing(&self, rows: HeadRows<T>, r: int, d: int) -> T {
        self.times(
            self.faded(rows.alpha, d, (r + 1) as nat),
            self.times(rows.b[r][d], rows.k[r][d]),
        )
    }

    /// What token `r` would write if no earlier token of the chunk had written.
    spec fn fresh(
        &self,
        dk: nat,
        rows: HeadRows<T>,
        state: Seq<Seq<T>>,
        r: int,
        j: int,
    ) -> T {
        self.minus(
            self.times(rows.w[r][j], rows.v[r][j]),
            self.gathered(
                self.zero(),
                dk,
                |d: int| self.times(self.erasing(rows, r, d), state[d][j]),
            ),
        )
    }

    /// What token `r` writes, from what the earlier tokens wrote.
    proof fn serial_recursion(
        &self,
        dk: nat,
        dv: nat,
        rows: HeadRows<T>,
        state: Seq<Seq<T>>,
        r: int,
        j: int,
    )
        requires
            self.exact(),
            0 <= r,
            0 <= j < dv,
            shaped(state, dk, dv),
            self.decays_are_units(rows.alpha, (r + 1) as nat, dk),
        ensures
            self.plus(
                self.serial_written(dk, dv, rows, state, r, j),
                self.gathered(
                    self.zero(),
                    r as nat,
                    |s: int|
                        self.times(
                            self.erases(dk, rows, r, s),
                            self.serial_written(dk, dv, rows, state, s, j),
                        ),
                ),
            ) == self.fresh(dk, rows, state, r, j),
    {
        let z = self.zero();
        let n = r as nat;
        let u = |s: int| self.serial_written(dk, dv, rows, state, s, j);
        let kept = self.decayed(
            dk,
            dv,
            self.serial_state(dk, dv, rows, state, n),
            rows.alpha[r],
        );
        let e = |d: int| self.erasing(rows, r, d);
        let read = |d: int|
            self.times(self.times(rows.b[r][d], rows.k[r][d]), kept[d][j]);
        let from_state = |d: int| self.times(self.erasing(rows, r, d), state[d][j]);
        let cell = |d: int, s: int|
            self.times(self.times(e(d), self.lifted(rows, s, d)), u(s));
        let from_chunk = |d: int| self.gathered(z, n, |s: int| cell(d, s));
        assert forall|d: int| 0 <= d < dk implies #[trigger] read(d) == self.plus(
            from_state(d),
            from_chunk(d),
        ) by {
            self.closed_form(dk, dv, rows, state, n, d, j);
            self.decayed_form(dk, dv, rows, state, n, d, j);
            let g = self.faded(rows.alpha, d, (n + 1) as nat);
            let bk = self.times(rows.b[r][d], rows.k[r][d]);
            let sofar = self.undecayed(dk, dv, rows, state, n, d, j);
            let history = |s: int| self.times(self.lifted(rows, s, d), u(s));
            // (b k) (g A) = (g (b k)) A = e s + e (sum)
            self.times_assoc(bk, g, sofar);
            self.times_comm(bk, g);
            self.times_plus(e(d), state[d][j], self.gathered(z, n, history));
            let scaled = |s: int| cell(d, s);
            assert forall|s: int| 0 <= s < n implies #[trigger] scaled(s) == self.times(
                e(d),
                history(s),
            ) by {
                self.times_assoc(e(d), self.lifted(rows, s, d), u(s));
            }
            self.gathered_times(n, e(d), history, scaled);
            self.lemma_gathered_same(
                z,
                n,
                history,
                |s: int|
                    self.times(
                        self.lifted(rows, s, d),
                        self.serial_written(dk, dv, rows, state, s, j),
                    ),
            );
        }
        self.gathered_plus(dk, from_state, from_chunk, read);
        self.gathered_swap(dk, n, cell);
        let pulled = |s: int| self.times(self.erases(dk, rows, r, s), u(s));
        let by_token = |s: int| self.gathered(z, dk, |d: int| cell(d, s));
        assert forall|s: int| 0 <= s < n implies #[trigger] by_token(s) == pulled(s) by {
            let f = |d: int| self.times(self.erasing(rows, r, d), self.lifted(rows, s, d));
            let g = |d: int| cell(d, s);
            assert forall|d: int| 0 <= d < dk implies #[trigger] g(d) == self.times(
                u(s),
                f(d),
            ) by {
                self.times_comm(u(s), f(d));
            }
            self.gathered_times(dk, u(s), f, g);
            self.times_comm(u(s), self.erases(dk, rows, r, s));
        }
        self.lemma_gathered_same(z, n, by_token, pulled);
        self.lemma_gathered_same(
            z,
            dk,
            |d: int| self.gathered(z, n, |s: int| cell(d, s)),
            from_chunk,
        );
        let value = self.times(rows.w[r][j], rows.v[r][j]);
        let es = self.gathered(z, dk, from_state);
        let ps = self.gathered(z, n, pulled);
        // u = value - (es + ps), so u + ps = value - es
        assert(self.gated_read(dk, kept, rows.k[r], rows.b[r], j) == self.plus(es, ps)) by {
            self.lemma_gathered_same(
                z,
                dk,
                read,
                |i: int| self.times(self.times(rows.b[r][i], rows.k[r][i]), kept[i][j]),
            );
        }
        self.minus_is(value, self.plus(es, ps));
        self.negated_plus(es, ps);
        self.minus_is(value, es);
        self.plus_assoc(value, self.negated(es), self.negated(ps));
        self.plus_assoc(self.minus(value, es), self.negated(ps), ps);
        self.plus_negated(ps);
        self.plus_zero(self.minus(value, es));
        self.lemma_gathered_same(
            z,
            n,
            pulled,
            |s: int|
                self.times(
                    self.erases(dk, rows, r, s),
                    self.serial_written(dk, dv, rows, state, s, j),
                ),
        );
    }
}

impl<T: Copy, F: Fn(ScalarOp, T, T) -> T, C: Fn(Number) -> T, Z: Fn(Relation, T, T) -> bool> Scalars<T, F, C, Z> {
    proof fn gathered_split(&self, start: T, n: nat, m: nat, f: spec_fn(int) -> T)
        ensures
            self.gathered(start, n + m, f) == self.gathered(
                self.gathered(start, n, f),
                m,
                |i: int| f(n + i),
            ),
        decreases m,
    {
        if m > 0 {
            self.gathered_split(start, n, (m - 1) as nat, f);
        }
    }

    proof fn gathered_minus(
        &self,
        n: nat,
        f: spec_fn(int) -> T,
        g: spec_fn(int) -> T,
        h: spec_fn(int) -> T,
    )
        requires
            self.ring(),
            forall|i: int| 0 <= i < n ==> #[trigger] h(i) == self.minus(f(i), g(i)),
        ensures
            self.gathered(self.zero(), n, h) == self.minus(
                self.gathered(self.zero(), n, f),
                self.gathered(self.zero(), n, g),
            ),
        decreases n,
    {
        let z = self.zero();
        if n == 0 {
            self.minus_is(z, z);
            self.plus_negated(z);
        } else {
            let m = (n - 1) as nat;
            self.gathered_minus(m, f, g, h);
            assert(h(n - 1) == self.minus(f(n - 1), g(n - 1)));
            self.minus_pairs(self.gathered(z, m, f), self.gathered(z, m, g), f(n - 1), g(n - 1));
        }
    }

    /// A sum of zeros but for one term is that term.
    proof fn gathered_single(&self, n: nat, r: int, v: T, f: spec_fn(int) -> T)
        requires
            self.ring(),
            0 <= r < n,
            forall|s: int|
                0 <= s < n ==> #[trigger] f(s) == (if s == r {
                    v
                } else {
                    self.zero()
                }),
        ensures
            self.gathered(self.zero(), n, f) == v,
        decreases n,
    {
        let z = self.zero();
        let m = (n - 1) as nat;
        if r == n - 1 {
            assert(f(n - 1) == v);
            self.gathered_nothing(m, f);
            self.plus_zero(v);
        } else {
            assert(f(n - 1) == z);
            self.gathered_single(m, r, v, f);
            self.plus_zero(v);
        }
    }

    /// Leaving out weights of zero changes nothing.
    proof fn weighed_is_gathered(
        &self,
        n: nat,
        weight: spec_fn(int) -> T,
        value: spec_fn(int) -> T,
    )
        requires
            self.exact(),
        ensures
            self.weighed(n, weight, value) == self.gathered(
                self.zero(),
                n,
                |s: int| self.times(weight(s), value(s)),
            ),
        decreases n,
    {
        if n > 0 {
            let m = (n - 1) as nat;
            self.weighed_is_gathered(m, weight, value);
            if self.zero_at(weight(n - 1)) {
                self.times_zero(value(n - 1));
                self.plus_zero(self.weighed(m, weight, value));
            }
        }
    }

    proof fn column_prefix(&self, t: Seq<Seq<T>>, col: int, n: nat, m: int)
        requires
            0 <= m < n,
        ensures
            self.inverse_column(t, col, n).len() == n,
            self.inverse_column(t, col, n)[m] == self.inverse_column(t, col, (m + 1) as nat)[m],
        decreases n,
    {
        self.lemma_inverse_column_len(t, col, n);
        self.lemma_inverse_column_len(t, col, (n - 1) as nat);
        if m < n - 1 {
            self.column_prefix(t, col, (n - 1) as nat, m);
        }
    }

    /// An entry of a column, from the entries above it.
    proof fn column_entry(&self, t: Seq<Seq<T>>, col: int, n: nat, m: int)
        requires
            0 <= m < n,
        ensures
            m == 0 ==> self.inverse_column(t, col, n)[m] == self.one(),
            m > 0 ==> self.inverse_column(t, col, n)[m] == self.negated(
                self.gathered(
                    self.zero(),
                    m as nat,
                    |i: int| self.times(t[col + m][col + i], self.inverse_column(t, col, n)[i]),
                ),
            ),
    {
        self.column_prefix(t, col, n, m);
        self.lemma_inverse_column_len(t, col, m as nat);
        let whole = self.inverse_column(t, col, n);
        if m > 0 {
            let above = self.inverse_column(t, col, m as nat);
            assert forall|i: int| 0 <= i < m implies above[i] == whole[i] by {
                self.column_prefix(t, col, n, i);
                self.column_prefix(t, col, m as nat, i);
            }
            let last = (m + 1) as nat;
            let f = |i: int| self.times(t[col + last - 1][col + i], above[i]);
            let g = |i: int| self.times(t[col + m][col + i], whole[i]);
            self.lemma_gathered_same(self.zero(), m as nat, f, g);
            assert(self.inverse_column(t, col, last)[m] == self.negated(
                self.gathered(self.zero(), m as nat, f),
            ));
        }
    }

    /// The inverse undoes one plus the overlaps.
    proof fn inverse_undoes(&self, c: nat, t: Seq<Seq<T>>, r: int, s: int)
        requires
            self.ring(),
            0 <= r < c,
            0 <= s < c,
        ensures
            self.plus(
                self.inverse_table(c, t)[r][s],
                self.gathered(
                    self.zero(),
                    r as nat,
                    |i: int| self.times(t[r][i], self.inverse_table(c, t)[i][s]),
                ),
            ) == (if s == r {
                self.one()
            } else {
                self.zero()
            }),
    {
        let z = self.zero();
        let a = self.inverse_table(c, t);
        let f = |i: int| self.times(t[r][i], a[i][s]);
        let col = self.inverse_column(t, s, (c - s) as nat);
        if s >= r {
            assert forall|i: int| 0 <= i < r implies #[trigger] f(i) == z by {
                assert(a[i][s] == z);
                self.times_zero(t[r][i]);
            }
            self.gathered_nothing(r as nat, f);
            if s == r {
                self.column_entry(t, s, (c - s) as nat, 0);
                assert(a[r][s] == self.one());
            } else {
                assert(a[r][s] == z);
            }
            self.plus_zero(a[r][s]);
        } else {
            let m = (r - s) as nat;
            self.column_entry(t, s, (c - s) as nat, r - s);
            self.gathered_split(z, s as nat, m, f);
            assert forall|i: int| 0 <= i < s implies #[trigger] f(i) == z by {
                assert(a[i][s] == z);
                self.times_zero(t[r][i]);
            }
            self.gathered_nothing(s as nat, f);
            let tail = |i: int| f(s as nat + i);
            let want = |i: int| self.times(t[s + (r - s)][s + i], col[i]);
            assert forall|i: int| 0 <= i < m implies #[trigger] tail(i) == want(i) by {
                assert(a[s + i][s] == col[i]);
            }
            self.lemma_gathered_same(z, m, tail, want);
            self.plus_negated(self.gathered(z, m, want));
            assert(a[r][s] == col[r - s]);
        }
    }

    /// Weights mixed by the inverse solve for the overlaps.
    proof fn mix_solves(&self, c: nat, t: Seq<Seq<T>>, y: spec_fn(int) -> T, r: int)
        requires
            self.ring(),
            0 <= r < c,
        ensures
            self.plus(
                self.mix(c, t, y, r),
                self.gathered(
                    self.zero(),
                    r as nat,
                    |i: int| self.times(t[r][i], self.mix(c, t, y, i)),
                ),
            ) == y(r),
    {
        let z = self.zero();
        let n = r as nat;
        let a = self.inverse_table(c, t);
        let cell = |i: int, s: int| self.times(self.times(t[r][i], a[i][s]), y(s));
        let pulled = |i: int| self.times(t[r][i], self.mix(c, t, y, i));
        let by_row = |i: int| self.gathered(z, c, |s: int| cell(i, s));
        assert forall|i: int| 0 <= i < n implies #[trigger] by_row(i) == pulled(i) by {
            let f = |s: int| self.times(a[i][s], y(s));
            let g = |s: int| cell(i, s);
            assert forall|s: int| 0 <= s < c implies #[trigger] g(s) == self.times(
                t[r][i],
                f(s),
            ) by {
                self.times_assoc(t[r][i], a[i][s], y(s));
            }
            self.gathered_times(c, t[r][i], f, g);
        }
        self.lemma_gathered_same(z, n, by_row, pulled);
        self.gathered_swap(n, c, cell);
        self.lemma_gathered_same(
            z,
            n,
            by_row,
            |i: int| self.gathered(z, c, |s: int| cell(i, s)),
        );
        let by_col = |s: int| self.gathered(z, n, |i: int| cell(i, s));
        let own = |s: int| self.times(a[r][s], y(s));
        let both = |s: int| self.plus(own(s), by_col(s));
        self.gathered_plus(c, own, by_col, both);
        assert forall|s: int| 0 <= s < c implies #[trigger] both(s) == (if s == r {
            y(r)
        } else {
            z
        }) by {
            let f = |i: int| self.times(t[r][i], a[i][s]);
            let g = |i: int| cell(i, s);
            assert forall|i: int| 0 <= i < n implies #[trigger] g(i) == self.times(
                y(s),
                f(i),
            ) by {
                self.times_comm(y(s), f(i));
            }
            self.gathered_times(n, y(s), f, g);
            let total = self.gathered(z, n, f);
            self.times_comm(y(s), total);
            self.times_plus(y(s), a[r][s], total);
            self.inverse_undoes(c, t, r, s);
            self.lemma_gathered_same(
                z,
                n,
                f,
                |i: int| self.times(t[r][i], self.inverse_table(c, t)[i][s]),
            );
            self.times_one(y(s));
            self.times_zero(y(s));
        }
        self.gathered_single(c, r, y(r), both);
        self.lemma_gathered_same(
            z,
            n,
            pulled,
            |i: int| self.times(t[r][i], self.mix(c, t, y, i)),
        );
        self.lemma_gathered_same(
            z,
            c,
            by_col,
            |s: int| self.gathered(z, n, |i: int| cell(i, s)),
        );
    }

    /// Values mixed by row `r` of the inverse.
    spec fn mix(&self, c: nat, t: Seq<Seq<T>>, y: spec_fn(int) -> T, r: int) -> T {
        self.gathered(
            self.zero(),
            c,
            |s: int| self.times(self.inverse_table(c, t)[r][s], y(s)),
        )
    }
}

impl<T: Copy, F: Fn(ScalarOp, T, T) -> T, C: Fn(Number) -> T, Z: Fn(Relation, T, T) -> bool> Scalars<T, F, C, Z> {
    /// What a chunk at once writes satisfies the same recursion.
    proof fn chunk_recursion(
        &self,
        dk: nat,
        dv: nat,
        rows: HeadRows<T>,
        state: Seq<Seq<T>>,
        r: int,
        j: int,
    )
        requires
            self.exact(),
            0 <= r < rows.q.len(),
            0 <= j < dv,
        ensures
            self.plus(
                self.chunk_written(dk, dv, rows, state)[r][j],
                self.gathered(
                    self.zero(),
                    r as nat,
                    |s: int|
                        self.times(
                            self.erases(dk, rows, r, s),
                            self.chunk_written(dk, dv, rows, state)[s][j],
                        ),
                ),
            ) == self.fresh(dk, rows, state, r, j),
    {
        let z = self.zero();
        let c = rows.q.len();
        let g = self.fade_table(c, dk, rows.alpha);
        let kbar = self.key_table(c, dk, g, rows.k);
        let e = self.erase_table(c, dk, g, rows.b, rows.k);
        let t = self.overlap_table(c, dk, e, kbar);
        let written = self.chunk_written(dk, dv, rows, state);
        let y = |s: int| self.fresh(dk, rows, state, s, j);
        self.mix_solves(c, t, y, r);
        self.written_is_mix(dk, dv, rows, state, r, j);
        let left = |s: int| self.times(t[r][s], self.mix(c, t, y, s));
        let right = |s: int| self.times(self.erases(dk, rows, r, s), written[s][j]);
        assert forall|s: int| 0 <= s < r implies #[trigger] left(s) == right(s) by {
            self.written_is_mix(dk, dv, rows, state, s, j);
            self.lemma_gathered_same(
                z,
                dk,
                |d: int| self.times(e[r][d], kbar[s][d]),
                |d: int| self.times(self.erasing(rows, r, d), self.lifted(rows, s, d)),
            );
        }
        self.lemma_gathered_same(z, r as nat, left, right);
        self.lemma_gathered_same(
            z,
            r as nat,
            right,
            |s: int|
                self.times(
                    self.erases(dk, rows, r, s),
                    self.chunk_written(dk, dv, rows, state)[s][j],
                ),
        );
    }

    /// What a chunk at once writes, as a mix of what each token would write alone.
    proof fn written_is_mix(
        &self,
        dk: nat,
        dv: nat,
        rows: HeadRows<T>,
        state: Seq<Seq<T>>,
        r: int,
        j: int,
    )
        requires
            self.exact(),
            0 <= r < rows.q.len(),
            0 <= j < dv,
        ensures
            ({
                let c = rows.q.len();
                let g = self.fade_table(c, dk, rows.alpha);
                let t = self.overlap_table(
                    c,
                    dk,
                    self.erase_table(c, dk, g, rows.b, rows.k),
                    self.key_table(c, dk, g, rows.k),
                );
                self.chunk_written(dk, dv, rows, state)[r][j] == self.mix(
                    c,
                    t,
                    |s: int| self.fresh(dk, rows, state, s, j),
                    r,
                )
            }),
    {
        let z = self.zero();
        let c = rows.q.len();
        let g = self.fade_table(c, dk, rows.alpha);
        let kbar = self.key_table(c, dk, g, rows.k);
        let e = self.erase_table(c, dk, g, rows.b, rows.k);
        let zs = self.write_table(c, dv, rows.w, rows.v);
        let t = self.overlap_table(c, dk, e, kbar);
        let a = self.inverse_table(c, t);
        let u = self.mixed_table(c, dv, a, zs);
        let y = self.mixed_table(c, dk, a, e);
        let value = |s: int| self.times(a[r][s], zs[s][j]);
        self.weighed_is_gathered(c, |s: int| a[r][s], |s: int| zs[s][j]);
        self.lemma_gathered_same(
            z,
            c,
            |s: int| self.times((|s: int| a[r][s])(s), (|s: int| zs[s][j])(s)),
            value,
        );
        assert(u[r][j] == self.gathered(z, c, value));
        let cell = |s: int, d: int| self.times(self.times(a[r][s], e[s][d]), state[d][j]);
        let read = |d: int| self.times(y[r][d], state[d][j]);
        let by_channel = |d: int| self.gathered(z, c, |s: int| cell(s, d));
        assert forall|d: int| 0 <= d < dk implies #[trigger] read(d) == by_channel(d) by {
            self.weighed_is_gathered(c, |s: int| a[r][s], |s: int| e[s][d]);
            let f = |s: int| self.times(a[r][s], e[s][d]);
            self.lemma_gathered_same(
                z,
                c,
                |s: int| self.times((|s: int| a[r][s])(s), (|s: int| e[s][d])(s)),
                f,
            );
            assert(y[r][d] == self.gathered(z, c, f));
            let h = |s: int| cell(s, d);
            assert forall|s: int| 0 <= s < c implies #[trigger] h(s) == self.times(
                state[d][j],
                f(s),
            ) by {
                self.times_comm(state[d][j], f(s));
            }
            self.gathered_times(c, state[d][j], f, h);
            self.times_comm(state[d][j], y[r][d]);
        }
        self.lemma_gathered_same(z, dk, read, by_channel);
        self.gathered_swap(c, dk, cell);
        self.lemma_gathered_same(
            z,
            dk,
            by_channel,
            |d: int| self.gathered(z, c, |s: int| cell(s, d)),
        );
        let erased = |s: int|
            self.gathered(
                z,
                dk,
                |d: int| self.times(self.erasing(rows, s, d), state[d][j]),
            );
        let by_token = |s: int| self.gathered(z, dk, |d: int| cell(s, d));
        let scaled = |s: int| self.times(a[r][s], erased(s));
        assert forall|s: int| 0 <= s < c implies #[trigger] by_token(s) == scaled(s) by {
            let f = |d: int| self.times(self.erasing(rows, s, d), state[d][j]);
            let h = |d: int| cell(s, d);
            assert forall|d: int| 0 <= d < dk implies #[trigger] h(d) == self.times(
                a[r][s],
                f(d),
            ) by {
                assert(e[s][d] == self.erasing(rows, s, d));
                self.times_assoc(a[r][s], e[s][d], state[d][j]);
            }
            self.gathered_times(dk, a[r][s], f, h);
        }
        self.lemma_gathered_same(z, c, by_token, scaled);
        self.lemma_gathered_same(
            z,
            c,
            by_token,
            |s: int| self.gathered(z, dk, |d: int| cell(s, d)),
        );
        let mixed = |s: int| self.times(a[r][s], self.fresh(dk, rows, state, s, j));
        assert forall|s: int| 0 <= s < c implies #[trigger] mixed(s) == self.minus(
            value(s),
            scaled(s),
        ) by {
            assert(zs[s][j] == self.times(rows.w[s][j], rows.v[s][j]));
            self.times_minus(a[r][s], zs[s][j], erased(s));
        }
        self.gathered_minus(c, value, scaled, mixed);
        let fresh = |s: int| self.fresh(dk, rows, state, s, j);
        self.lemma_gathered_same(
            z,
            c,
            mixed,
            |s: int| self.times(self.inverse_table(c, t)[r][s], fresh(s)),
        );
        self.lemma_gathered_same(
            z,
            dk,
            read,
            |d: int| self.times(y[r][d], state[d][j]),
        );
        assert(self.chunk_written(dk, dv, rows, state)[r][j] == self.minus(
            u[r][j],
            self.gathered(z, dk, read),
        ));
    }

    /// What every token writes is the same either way.
    proof fn written_same(
        &self,
        dk: nat,
        dv: nat,
        rows: HeadRows<T>,
        state: Seq<Seq<T>>,
        n: nat,
        j: int,
    )
        requires
            self.exact(),
            n <= rows.q.len(),
            0 <= j < dv,
            shaped(state, dk, dv),
            self.decays_are_units(rows.alpha, rows.q.len(), dk),
        ensures
            forall|r: int|
                0 <= r < n ==> #[trigger] self.chunk_written(dk, dv, rows, state)[r][j]
                    == self.serial_written(dk, dv, rows, state, r, j),
        decreases n,
    {
        if n > 0 {
            let m = (n - 1) as nat;
            let r = n - 1;
            let written = self.chunk_written(dk, dv, rows, state);
            self.written_same(dk, dv, rows, state, m, j);
            self.chunk_recursion(dk, dv, rows, state, r, j);
            self.serial_recursion(dk, dv, rows, state, r, j);
            let left = |s: int| self.times(self.erases(dk, rows, r, s), written[s][j]);
            let right = |s: int|
                self.times(
                    self.erases(dk, rows, r, s),
                    self.serial_written(dk, dv, rows, state, s, j),
                );
            assert forall|s: int| 0 <= s < m implies #[trigger] left(s) == right(s) by {
                assert(written[s][j] == self.serial_written(dk, dv, rows, state, s, j));
            }
            self.lemma_gathered_same(self.zero(), m, left, right);
            self.plus_cancel(
                written[r][j],
                self.serial_written(dk, dv, rows, state, r, j),
                self.gathered(self.zero(), m, left),
            );
        }
    }
}

/// A chunk at once leaves the state that its tokens leave one after the other,
/// where nothing is rounded and no decay is zero.
pub proof fn law_chunk_state_is_serial<T: Copy, F: Fn(ScalarOp, T, T) -> T, C: Fn(Number) -> T, Z: Fn(Relation, T, T) -> bool>(
    x: &Scalars<T, F, C, Z>,
    dk: nat,
    dv: nat,
    rows: HeadRows<T>,
    state: Seq<Seq<T>>,
)
    requires
        x.exact(),
        rows.q.len() > 0,
        shaped(state, dk, dv),
        x.decays_are_units(rows.alpha, rows.q.len(), dk),
    ensures
        x.chunk_state(dk, dv, rows, state) == x.serial_state(dk, dv, rows, state, rows.q.len()),
{
    let z = x.zero();
    let c = rows.q.len();
    let g = x.fade_table(c, dk, rows.alpha);
    let written = x.chunk_written(dk, dv, rows, state);
    let left = x.chunk_state(dk, dv, rows, state);
    let right = x.serial_state(dk, dv, rows, state, c);
    x.serial_shape(dk, dv, rows, state, c);
    assert forall|d: int, j: int| 0 <= d < dk && 0 <= j < dv implies #[trigger] left[d][j]
        == right[d][j] by {
        x.closed_form(dk, dv, rows, state, c, d, j);
        x.written_same(dk, dv, rows, state, c, j);
        let gc = x.faded(rows.alpha, d, c);
        let history = |s: int|
            x.times(x.lifted(rows, s, d), x.serial_written(dk, dv, rows, state, s, j));
        let tail = |r: int|
            x.times(x.times(x.over(g[c - 1][d], g[r][d]), rows.k[r][d]), written[r][j]);
        assert forall|r: int| 0 <= r < c implies #[trigger] tail(r) == x.times(
            gc,
            history(r),
        ) by {
            x.faded_unit(rows.alpha, d, (r + 1) as nat, dk);
            assert(g[r][d] == x.faded(rows.alpha, d, (r + 1) as nat));
            assert(g[c - 1][d] == gc);
            x.over_moves(gc, g[r][d], rows.k[r][d]);
            assert(written[r][j] == x.serial_written(dk, dv, rows, state, r, j));
            x.times_assoc(gc, x.lifted(rows, r, d), written[r][j]);
        }
        x.gathered_times(c, gc, history, tail);
        x.gathered_start(x.times(gc, state[d][j]), c, tail);
        x.times_plus(gc, state[d][j], x.gathered(z, c, history));
        x.lemma_gathered_same(
            x.times(g[c - 1][d], state[d][j]),
            c,
            tail,
            |r: int|
                x.times(x.times(x.over(g[c - 1][d], g[r][d]), rows.k[r][d]), written[r][j]),
        );
        x.lemma_gathered_same(
            z,
            c,
            history,
            |s: int| x.times(x.lifted(rows, s, d), x.serial_written(dk, dv, rows, state, s, j)),
        );
    }
    assert(left =~~= right);
}

/// A chunk at once gives the outputs that its tokens give one after the other,
/// where nothing is rounded and no decay is zero.
pub proof fn law_chunk_output_is_serial<T: Copy, F: Fn(ScalarOp, T, T) -> T, C: Fn(Number) -> T, Z: Fn(Relation, T, T) -> bool>(
    x: &Scalars<T, F, C, Z>,
    dk: nat,
    dv: nat,
    rows: HeadRows<T>,
    state: Seq<Seq<T>>,
    r: int,
)
    requires
        x.exact(),
        0 <= r < rows.q.len(),
        shaped(state, dk, dv),
        x.decays_are_units(rows.alpha, rows.q.len(), dk),
    ensures
        x.chunk_output(dk, dv, rows, state)[r] == x.serial_output(dk, dv, rows, state, r),
{
    let z = x.zero();
    let c = rows.q.len();
    let n = (r + 1) as nat;
    let g = x.fade_table(c, dk, rows.alpha);
    let written = x.chunk_written(dk, dv, rows, state);
    let left = x.chunk_output(dk, dv, rows, state)[r];
    let right = x.serial_output(dk, dv, rows, state, r);
    let after = x.serial_state(dk, dv, rows, state, n);
    assert forall|j: int| 0 <= j < dv implies #[trigger] left[j] == right[j] by {
        x.written_same(dk, dv, rows, state, c, j);
        let kept = |d: int| x.times(x.times(g[r][d], rows.q[r][d]), state[d][j]);
        let cell = |d: int, s: int|
            x.times(
                x.times(x.times(rows.q[r][d], g[r][d]), x.lifted(rows, s, d)),
                written[s][j],
            );
        let from_chunk = |d: int| x.gathered(z, n, |s: int| cell(d, s));
        let whole = |d: int| x.times(rows.q[r][d], after[d][j]);
        assert forall|d: int| 0 <= d < dk implies #[trigger] whole(d) == x.plus(
            kept(d),
            from_chunk(d),
        ) by {
            x.closed_form(dk, dv, rows, state, n, d, j);
            let f = x.faded(rows.alpha, d, n);
            assert(g[r][d] == f);
            let qg = x.times(rows.q[r][d], f);
            let history = |s: int|
                x.times(x.lifted(rows, s, d), x.serial_written(dk, dv, rows, state, s, j));
            let sum = x.gathered(z, n, history);
            x.lemma_gathered_same(
                z,
                n,
                history,
                |s: int|
                    x.times(x.lifted(rows, s, d), x.serial_written(dk, dv, rows, state, s, j)),
            );
            x.times_assoc(rows.q[r][d], f, x.plus(state[d][j], sum));
            x.times_plus(qg, state[d][j], sum);
            x.times_comm(rows.q[r][d], f);
            let scaled = |s: int| cell(d, s);
            assert forall|s: int| 0 <= s < n implies #[trigger] scaled(s) == x.times(
                qg,
                history(s),
            ) by {
                assert(written[s][j] == x.serial_written(dk, dv, rows, state, s, j));
                x.times_assoc(qg, x.lifted(rows, s, d), written[s][j]);
            }
            x.gathered_times(n, qg, history, scaled);
        }
        x.gathered_plus(dk, kept, from_chunk, whole);
        x.gathered_swap(dk, n, cell);
        x.lemma_gathered_same(
            z,
            dk,
            from_chunk,
            |d: int| x.gathered(z, n, |s: int| cell(d, s)),
        );
        let found = |s: int|
            x.times(x.found(dk, g, rows.q, rows.k, r, s), written[s][j]);
        let by_token = |s: int| x.gathered(z, dk, |d: int| cell(d, s));
        assert forall|s: int| 0 <= s < n implies #[trigger] by_token(s) == found(s) by {
            let w = written[s][j];
            let f = |d: int|
                x.times(
                    x.times(rows.q[r][d], x.over(g[r][d], g[s][d])),
                    rows.k[s][d],
                );
            let h = |d: int| cell(d, s);
            assert forall|d: int| 0 <= d < dk implies #[trigger] h(d) == x.times(w, f(d)) by {
                x.faded_unit(rows.alpha, d, (s + 1) as nat, dk);
                assert(g[s][d] == x.faded(rows.alpha, d, (s + 1) as nat));
                x.over_moves(g[r][d], g[s][d], rows.k[s][d]);
                x.times_assoc(rows.q[r][d], x.over(g[r][d], g[s][d]), rows.k[s][d]);
                x.times_assoc(rows.q[r][d], g[r][d], x.lifted(rows, s, d));
                x.times_comm(w, f(d));
            }
            x.gathered_times(dk, w, f, h);
            x.times_comm(w, x.found(dk, g, rows.q, rows.k, r, s));
        }
        x.lemma_gathered_same(z, n, by_token, found);
        x.lemma_gathered_same(
            z,
            n,
            by_token,
            |s: int| x.gathered(z, dk, |d: int| cell(d, s)),
        );
        let start = x.gathered(z, dk, kept);
        x.gathered_start(start, n, found);
        x.lemma_gathered_same(
            start,
            n,
            found,
            |s: int| x.times(x.found(dk, g, rows.q, rows.k, r, s), written[s][j]),
        );
        x.lemma_gathered_same(z, dk, whole, |i: int| x.times(rows.q[r][i], after[i][j]));
        x.lemma_gathered_same(
            z,
            dk,
            kept,
            |d: int| x.times(x.times(g[r][d], rows.q[r][d]), state[d][j]),
        );
    }
    assert(left =~= right);
}

impl<T: Copy, F: Fn(ScalarOp, T, T) -> T, C: Fn(Number) -> T, Z: Fn(Relation, T, T) -> bool> Scalars<T, F, C, Z> {
    /// Sums of logarithms stand for products exactly.
    #[verifier::opaque]
    pub open spec fn exponentials(&self) -> bool {
        &&& self.exp(self.zero()) == self.one()
        &&& forall|a: T, b: T|
            #![trigger self.exp(self.plus(a, b))]
            self.exp(self.plus(a, b)) == self.times(self.exp(a), self.exp(b))
        &&& forall|a: T, b: T|
            #![trigger self.exp(self.minus(a, b))]
            self.exp(self.minus(a, b)) == self.over(self.exp(a), self.exp(b))
    }

    /// No decay of the chunk, alone or accumulated, is so small that a floor
    /// replaces it.
    pub open spec fn clear_of_floors(&self, rows: HeadRows<T>, dk: nat) -> bool {
        &&& forall|r: int, d: int|
            0 <= r < rows.q.len() && 0 <= d < dk ==> self.exp(
                self.ln(self.larger(#[trigger] rows.alpha[r][d], self.tiny())),
            ) == rows.alpha[r][d]
        &&& forall|r: int, d: int|
            0 <= r < rows.q.len() && 0 <= d < dk ==> self.larger(
                #[trigger] self.faded(rows.alpha, d, (r + 1) as nat),
                self.least(),
            ) == self.faded(rows.alpha, d, (r + 1) as nat)
    }

    proof fn exp_log_faded(&self, rows: HeadRows<T>, dk: nat, d: int, n: nat)
        requires
            self.exponentials(),
            self.clear_of_floors(rows, dk),
            0 <= d < dk,
            n <= rows.q.len(),
        ensures
            self.exp(self.log_faded(rows.alpha, d, n)) == self.faded(rows.alpha, d, n),
        decreases n,
    {
        reveal(Scalars::exponentials);
        if n > 0 {
            self.exp_log_faded(rows, dk, d, (n - 1) as nat);
            assert(self.exp(self.ln(self.larger(rows.alpha[n - 1][d], self.tiny())))
                == rows.alpha[n - 1][d]);
        }
    }

    proof fn negated_zero(&self)
        requires
            self.ring(),
        ensures
            self.negated(self.zero()) == self.zero(),
    {
        self.plus_negated(self.zero());
        self.plus_zero(self.negated(self.zero()));
    }

    proof fn drained_is_negated(&self, n: nat, f: spec_fn(int) -> T)
        requires
            self.ring(),
        ensures
            self.drained(n, f) == self.negated(self.gathered(self.zero(), n, f)),
        decreases n,
    {
        if n == 0 {
            self.negated_zero();
        } else {
            let m = (n - 1) as nat;
            self.drained_is_negated(m, f);
            let total = self.gathered(self.zero(), m, f);
            self.minus_is(self.negated(total), f(n - 1));
            self.negated_plus(total, f(n - 1));
        }
    }

    proof fn solved_prefix(
        &self,
        dk: nat,
        width: nat,
        e: Seq<Seq<T>>,
        khat: Seq<Seq<T>>,
        rows: Seq<Seq<T>>,
        n: nat,
        r: int,
    )
        requires
            0 <= r < n,
        ensures
            self.solved(dk, width, e, khat, rows, n).len() == n,
            self.solved(dk, width, e, khat, rows, n)[r] == self.solved(
                dk,
                width,
                e,
                khat,
                rows,
                (r + 1) as nat,
            )[r],
        decreases n,
    {
        self.lemma_solved_shape(dk, width, e, khat, rows, n);
        self.lemma_solved_shape(dk, width, e, khat, rows, (n - 1) as nat);
        if r < n - 1 {
            self.solved_prefix(dk, width, e, khat, rows, (n - 1) as nat, r);
        }
    }

    /// Solved rows and their overlaps give the rows back.
    proof fn solved_solves(
        &self,
        dk: nat,
        width: nat,
        e: Seq<Seq<T>>,
        khat: Seq<Seq<T>>,
        rows: Seq<Seq<T>>,
        n: nat,
        r: int,
        j: int,
    )
        requires
            self.ring(),
            0 <= r < n,
            0 <= j < width,
        ensures
            self.plus(
                self.solved(dk, width, e, khat, rows, n)[r][j],
                self.gathered(
                    self.zero(),
                    r as nat,
                    |i: int|
                        self.times(
                            self.gathered(
                                self.zero(),
                                dk,
                                |d: int| self.times(e[r][d], khat[i][d]),
                            ),
                            self.solved(dk, width, e, khat, rows, n)[i][j],
                        ),
                ),
            ) == rows[r][j],
    {
        let z = self.zero();
        let m = r as nat;
        let whole = self.solved(dk, width, e, khat, rows, n);
        let above = self.solved(dk, width, e, khat, rows, m);
        self.solved_prefix(dk, width, e, khat, rows, n, r);
        self.lemma_solved_shape(dk, width, e, khat, rows, m);
        assert forall|i: int| 0 <= i < r implies above[i] == whole[i] by {
            self.solved_prefix(dk, width, e, khat, rows, n, i);
            self.solved_prefix(dk, width, e, khat, rows, m, i);
        }
        let overlap = |i: int|
            self.gathered(z, dk, |d: int| self.times(e[r][d], khat[i][d]));
        let pulled = |i: int| self.times(self.pull(dk, e, khat, r, i), whole[i][j]);
        let pushed = |i: int| self.times(overlap(i), whole[i][j]);
        let last = (r + 1) as nat;
        self.lemma_gathered_same(
            rows[r][j],
            m,
            |i: int| self.times(self.pull(dk, e, khat, last - 1, i), above[i][j]),
            pulled,
        );
        assert(whole[r][j] == self.gathered(rows[r][j], m, pulled));
        self.gathered_start(rows[r][j], m, pulled);
        let none = |i: int| z;
        assert forall|i: int| 0 <= i < m implies #[trigger] none(i) == self.plus(
            pulled(i),
            pushed(i),
        ) by {
            self.drained_is_negated(dk, |d: int| self.times(e[r][d], khat[i][d]));
            self.times_negated(whole[i][j], overlap(i));
            self.plus_negated(pushed(i));
        }
        self.gathered_plus(m, pulled, pushed, none);
        self.gathered_nothing(m, none);
        self.plus_assoc(rows[r][j], self.gathered(z, m, pulled), self.gathered(z, m, pushed));
        self.plus_zero(rows[r][j]);
        self.lemma_gathered_same(
            z,
            m,
            pushed,
            |i: int|
                self.times(
                    self.gathered(z, dk, |d: int| self.times(e[r][d], khat[i][d])),
                    whole[i][j],
                ),
        );
    }

    /// The tables over logarithms are those over products.
    proof fn log_tables_same(&self, dk: nat, rows: HeadRows<T>)
        requires
            self.ring(),
            self.exponentials(),
            self.clear_of_floors(rows, dk),
        ensures
            ({
                let c = rows.q.len();
                let g = self.fade_table(c, dk, rows.alpha);
                let decay = self.exp_table(c, dk, self.log_table(c, dk, rows.alpha));
                &&& decay == g
                &&& self.erased_keys(c, dk, decay, rows.b, rows.k) == self.erase_table(
                    c,
                    dk,
                    g,
                    rows.b,
                    rows.k,
                )
                &&& self.lifted_keys(c, dk, decay, rows.k) == self.key_table(c, dk, g, rows.k)
            }),
    {
        let c = rows.q.len();
        let g = self.fade_table(c, dk, rows.alpha);
        let decay = self.exp_table(c, dk, self.log_table(c, dk, rows.alpha));
        assert forall|r: int, d: int| 0 <= r < c && 0 <= d < dk implies #[trigger] decay[r][d]
            == g[r][d] by {
            self.exp_log_faded(rows, dk, d, (r + 1) as nat);
        }
        assert(decay =~~= g);
        let e = self.erased_keys(c, dk, decay, rows.b, rows.k);
        let e2 = self.erase_table(c, dk, g, rows.b, rows.k);
        assert forall|r: int, d: int| 0 <= r < c && 0 <= d < dk implies #[trigger] e[r][d]
            == e2[r][d] by {
            self.times_assoc(decay[r][d], rows.b[r][d], rows.k[r][d]);
        }
        assert(e =~~= e2);
        let kh = self.lifted_keys(c, dk, decay, rows.k);
        let kb = self.key_table(c, dk, g, rows.k);
        assert forall|r: int, d: int| 0 <= r < c && 0 <= d < dk implies #[trigger] kh[r][d]
            == kb[r][d] by {
            assert(g[r][d] == self.faded(rows.alpha, d, (r + 1) as nat));
        }
        assert(kh =~~= kb);
    }

    /// What a chunk over logarithms writes satisfies the same recursion.
    proof fn wy_recursion(
        &self,
        dk: nat,
        dv: nat,
        rows: HeadRows<T>,
        state: Seq<Seq<T>>,
        r: int,
        j: int,
    )
        requires
            self.ring(),
            self.exponentials(),
            self.clear_of_floors(rows, dk),
            0 <= r < rows.q.len(),
            0 <= j < dv,
        ensures
            self.plus(
                self.wy_written(dk, dv, rows, state)[r][j],
                self.gathered(
                    self.zero(),
                    r as nat,
                    |s: int|
                        self.times(
                            self.erases(dk, rows, r, s),
                            self.wy_written(dk, dv, rows, state)[s][j],
                        ),
                ),
            ) == self.fresh(dk, rows, state, r, j),
    {
        let z = self.zero();
        let c = rows.q.len();
        let n = r as nat;
        self.log_tables_same(dk, rows);
        let g = self.fade_table(c, dk, rows.alpha);
        let e = self.erase_table(c, dk, g, rows.b, rows.k);
        let khat = self.key_table(c, dk, g, rows.k);
        let zs = self.write_table(c, dv, rows.w, rows.v);
        let tz = self.solved(dk, dv, e, khat, zs, c);
        let te = self.solved(dk, dk, e, khat, e, c);
        let written = self.wy_written(dk, dv, rows, state);
        let overlap = |i: int| self.erases(dk, rows, r, i);
        assert forall|i: int| 0 <= i < n implies #[trigger] overlap(i) == self.gathered(
            z,
            dk,
            |d: int| self.times(e[r][d], khat[i][d]),
        ) by {
            self.lemma_gathered_same(
                z,
                dk,
                |d: int| self.times(e[r][d], khat[i][d]),
                |d: int| self.times(self.erasing(rows, r, d), self.lifted(rows, i, d)),
            );
        }
        // values
        let value = |i: int| self.times(overlap(i), tz[i][j]);
        self.solved_solves(dk, dv, e, khat, zs, c, r, j);
        self.lemma_gathered_same(
            z,
            n,
            value,
            |i: int|
                self.times(
                    self.gathered(z, dk, |d: int| self.times(e[r][d], khat[i][d])),
                    tz[i][j],
                ),
        );
        let sum_value = self.gathered(z, n, value);
        assert(self.plus(tz[r][j], sum_value) == zs[r][j]);
        // reads
        let read = |i: int|
            self.gathered(z, dk, |d: int| self.times(te[i][d], state[d][j]));
        let own = |d: int| self.times(te[r][d], state[d][j]);
        let cell = |d: int, i: int| self.times(self.times(overlap(i), te[i][d]), state[d][j]);
        let others = |d: int| self.gathered(z, n, |i: int| cell(d, i));
        let whole = |d: int| self.times(self.erasing(rows, r, d), state[d][j]);
        assert forall|d: int| 0 <= d < dk implies #[trigger] whole(d) == self.plus(
            own(d),
            others(d),
        ) by {
            let f = |i: int| self.times(overlap(i), te[i][d]);
            self.solved_solves(dk, dk, e, khat, e, c, r, d);
            self.lemma_gathered_same(
                z,
                n,
                f,
                |i: int|
                    self.times(
                        self.gathered(z, dk, |d: int| self.times(e[r][d], khat[i][d])),
                        te[i][d],
                    ),
            );
            let total = self.gathered(z, n, f);
            assert(self.plus(te[r][d], total) == e[r][d]);
            self.times_plus(state[d][j], te[r][d], total);
            let h = |i: int| cell(d, i);
            assert forall|i: int| 0 <= i < n implies #[trigger] h(i) == self.times(
                state[d][j],
                f(i),
            ) by {
                self.times_comm(state[d][j], f(i));
            }
            self.gathered_times(n, state[d][j], f, h);
            self.times_comm(state[d][j], total);
        }
        self.gathered_plus(dk, own, others, whole);
        self.gathered_swap(dk, n, cell);
        self.lemma_gathered_same(
            z,
            dk,
            others,
            |d: int| self.gathered(z, n, |i: int| cell(d, i)),
        );
        let by_token = |i: int| self.gathered(z, dk, |d: int| cell(d, i));
        let scaled = |i: int| self.times(overlap(i), read(i));
        assert forall|i: int| 0 <= i < n implies #[trigger] by_token(i) == scaled(i) by {
            let f = |d: int| self.times(te[i][d], state[d][j]);
            let h = |d: int| cell(d, i);
            assert forall|d: int| 0 <= d < dk implies #[trigger] h(d) == self.times(
                overlap(i),
                f(d),
            ) by {
                self.times_assoc(overlap(i), te[i][d], state[d][j]);
            }
            self.gathered_times(dk, overlap(i), f, h);
        }
        self.lemma_gathered_same(z, n, by_token, scaled);
        self.lemma_gathered_same(
            z,
            n,
            by_token,
            |i: int| self.gathered(z, dk, |d: int| cell(d, i)),
        );
        let sum_read = self.gathered(z, n, scaled);
        // together
        let both = |s: int| self.times(overlap(s), written[s][j]);
        assert forall|s: int| 0 <= s < n implies #[trigger] both(s) == self.minus(
            value(s),
            scaled(s),
        ) by {
            assert(written[s][j] == self.minus(tz[s][j], read(s)));
            self.times_minus(overlap(s), tz[s][j], read(s));
        }
        self.gathered_minus(n, value, scaled, both);
        self.lemma_gathered_same(
            z,
            dk,
            own,
            |d: int| self.times(te[r][d], state[d][j]),
        );
        let own_read = self.gathered(z, dk, own);
        assert(written[r][j] == self.minus(tz[r][j], own_read));
        self.minus_pairs(tz[r][j], own_read, sum_value, sum_read);
        self.lemma_gathered_same(
            z,
            dk,
            whole,
            |d: int| self.times(self.erasing(rows, r, d), state[d][j]),
        );
        self.lemma_gathered_same(
            z,
            n,
            both,
            |s: int|
                self.times(
                    self.erases(dk, rows, r, s),
                    self.wy_written(dk, dv, rows, state)[s][j],
                ),
        );
    }

    /// What every token writes is the same over logarithms and over products.
    proof fn wy_written_same(
        &self,
        dk: nat,
        dv: nat,
        rows: HeadRows<T>,
        state: Seq<Seq<T>>,
        n: nat,
        j: int,
    )
        requires
            self.exact(),
            self.exponentials(),
            self.clear_of_floors(rows, dk),
            n <= rows.q.len(),
            0 <= j < dv,
        ensures
            forall|r: int|
                0 <= r < n ==> #[trigger] self.wy_written(dk, dv, rows, state)[r][j]
                    == self.chunk_written(dk, dv, rows, state)[r][j],
        decreases n,
    {
        if n > 0 {
            let m = (n - 1) as nat;
            let r = n - 1;
            let a = self.wy_written(dk, dv, rows, state);
            let b = self.chunk_written(dk, dv, rows, state);
            self.wy_written_same(dk, dv, rows, state, m, j);
            self.chunk_recursion(dk, dv, rows, state, r, j);
            self.wy_recursion(dk, dv, rows, state, r, j);
            let left = |s: int| self.times(self.erases(dk, rows, r, s), a[s][j]);
            let right = |s: int| self.times(self.erases(dk, rows, r, s), b[s][j]);
            assert forall|s: int| 0 <= s < m implies #[trigger] left(s) == right(s) by {
                assert(a[s][j] == b[s][j]);
            }
            self.lemma_gathered_same(self.zero(), m, left, right);
            self.plus_cancel(a[r][j], b[r][j], self.gathered(self.zero(), m, left));
        }
    }
}

/// A chunk over logarithms leaves the state and the outputs of one over products,
/// where nothing is rounded, no decay is zero and no floor replaces one.
pub proof fn law_log_form_is_product_form<T: Copy, F: Fn(ScalarOp, T, T) -> T, C: Fn(Number) -> T, Z: Fn(Relation, T, T) -> bool>(
    x: &Scalars<T, F, C, Z>,
    dk: nat,
    dv: nat,
    rows: HeadRows<T>,
    state: Seq<Seq<T>>,
)
    requires
        x.exact(),
        x.exponentials(),
        x.clear_of_floors(rows, dk),
        rows.q.len() > 0,
        x.decays_are_units(rows.alpha, rows.q.len(), dk),
    ensures
        x.wy_state(dk, dv, rows, state) == x.chunk_state(dk, dv, rows, state),
        x.wy_output(dk, dv, rows, state) == x.chunk_output(dk, dv, rows, state),
{
    let z = x.zero();
    let c = rows.q.len();
    x.log_tables_same(dk, rows);
    let g = x.fade_table(c, dk, rows.alpha);
    let logs = x.log_table(c, dk, rows.alpha);
    let khat = x.key_table(c, dk, g, rows.k);
    let a = x.wy_written(dk, dv, rows, state);
    let b = x.chunk_written(dk, dv, rows, state);
    let s1 = x.wy_state(dk, dv, rows, state);
    let s2 = x.chunk_state(dk, dv, rows, state);
    assert forall|d: int, j: int| 0 <= d < dk && 0 <= j < dv implies #[trigger] s1[d][j]
        == s2[d][j] by {
        x.wy_written_same(dk, dv, rows, state, c, j);
        x.exp_log_faded(rows, dk, d, c);
        let f = |r: int|
            x.times(
                x.times(rows.k[r][d], x.exp(x.minus(logs[c - 1][d], logs[r][d]))),
                a[r][j],
            );
        let h = |r: int|
            x.times(x.times(x.over(g[c - 1][d], g[r][d]), rows.k[r][d]), b[r][j]);
        assert forall|r: int| 0 <= r < c implies #[trigger] f(r) == h(r) by {
            x.exp_log_faded(rows, dk, d, (r + 1) as nat);
            assert(x.exp(x.minus(logs[c - 1][d], logs[r][d])) == x.over(
                x.exp(logs[c - 1][d]),
                x.exp(logs[r][d]),
            )) by {
                reveal(Scalars::exponentials);
            }
            x.times_comm(rows.k[r][d], x.over(g[c - 1][d], g[r][d]));
            assert(a[r][j] == b[r][j]);
        }
        x.lemma_gathered_same(x.times(g[c - 1][d], state[d][j]), c, f, h);
    }
    assert(s1 =~~= s2);
    let o1 = x.wy_output(dk, dv, rows, state);
    let o2 = x.chunk_output(dk, dv, rows, state);
    assert forall|r: int, j: int| 0 <= r < c && 0 <= j < dv implies #[trigger] o1[r][j]
        == o2[r][j] by {
        x.wy_written_same(dk, dv, rows, state, c, j);
        let kept1 = |d: int| x.times(x.times(rows.q[r][d], g[r][d]), state[d][j]);
        let kept2 = |d: int| x.times(x.times(g[r][d], rows.q[r][d]), state[d][j]);
        assert forall|d: int| 0 <= d < dk implies #[trigger] kept1(d) == kept2(d) by {
            x.times_comm(rows.q[r][d], g[r][d]);
        }
        x.lemma_gathered_same(z, dk, kept1, kept2);
        let f = |i: int| x.times(x.wy_found(dk, g, khat, rows.q, r, i), a[i][j]);
        let h = |i: int| x.times(x.found(dk, g, rows.q, rows.k, r, i), b[i][j]);
        assert forall|i: int| 0 <= i < r + 1 implies #[trigger] f(i) == h(i) by {
            let f1 = |d: int| x.times(x.times(rows.q[r][d], g[r][d]), khat[i][d]);
            let f2 = |d: int|
                x.times(x.times(rows.q[r][d], x.over(g[r][d], g[i][d])), rows.k[i][d]);
            assert forall|d: int| 0 <= d < dk implies #[trigger] f1(d) == f2(d) by {
                x.faded_unit(rows.alpha, d, (i + 1) as nat, dk);
                assert(g[i][d] == x.faded(rows.alpha, d, (i + 1) as nat));
                x.over_moves(g[r][d], g[i][d], rows.k[i][d]);
                x.times_assoc(rows.q[r][d], x.over(g[r][d], g[i][d]), rows.k[i][d]);
                x.times_assoc(rows.q[r][d], g[r][d], khat[i][d]);
            }
            x.lemma_gathered_same(z, dk, f1, f2);
            assert(a[i][j] == b[i][j]);
        }
        x.lemma_gathered_same(x.gathered(z, dk, kept2), (r + 1) as nat, f, h);
    }
    assert(o1 =~~= o2);
}

impl<T: Copy, F: Fn(ScalarOp, T, T) -> T, C: Fn(Number) -> T, Z: Fn(Relation, T, T) -> bool> Scalars<T, F, C, Z> {
    /// Tokens that run on from a state run as they would have from the start.
    proof fn serial_resumes(
        &self,
        dk: nat,
        dv: nat,
        rows: HeadRows<T>,
        state: Seq<Seq<T>>,
        from: nat,
        to: nat,
        m: nat,
    )
        requires
            from + m <= to,
            to <= rows.k.len(),
            to <= rows.v.len(),
            to <= rows.alpha.len(),
            to <= rows.b.len(),
            to <= rows.w.len(),
        ensures
            self.serial_state(
                dk,
                dv,
                rows.part(from as int, to as int),
                self.serial_state(dk, dv, rows, state, from),
                m,
            ) == self.serial_state(dk, dv, rows, state, from + m),
        decreases m,
    {
        if m > 0 {
            self.serial_resumes(dk, dv, rows, state, from, to, (m - 1) as nat);
        }
    }

    /// The state after some chunks is the serial state after their tokens.
    proof fn chunked_state_is_serial(
        &self,
        form: ChunkForm,
        dk: nat,
        dv: nat,
        rows: HeadRows<T>,
        t: nat,
        chunk: nat,
        n: nat,
    )
        requires
            self.exact(),
            self.runs_exactly(form, rows, t, chunk, dk),
            rows.q.len() >= t,
            rows.k.len() >= t,
            rows.v.len() >= t,
            rows.alpha.len() >= t,
            rows.b.len() >= t,
            rows.w.len() >= t,
            chunk > 0,
            n * chunk < t,
        ensures
            self.chunked_state(form, dk, dv, rows, t, chunk, n) == self.serial_state(
                dk,
                dv,
                rows,
                self.blank(dk, dv),
                (n * chunk) as nat,
            ),
        decreases n,
    {
        let blank = self.blank(dk, dv);
        if n > 0 {
            let m = (n - 1) as nat;
            assert(n * chunk == m * chunk + chunk) by (nonlinear_arith)
                requires
                    m == n - 1,
            ;
            self.chunked_state_is_serial(form, dk, dv, rows, t, chunk, m);
            assert((m + 1) * chunk == n * chunk);
            let part = chunk_rows(rows, t, chunk, m);
            let before = self.chunked_state(form, dk, dv, rows, t, chunk, m);
            assert(part == rows.part((m * chunk) as int, (n * chunk) as int));
            self.serial_shape(dk, dv, rows, blank, (m * chunk) as nat);
            self.part_units(rows, t, chunk, m, dk);
            law_chunk_state_is_serial(self, dk, dv, part, before);
            if form is Logarithms {
                assert(self.clear_of_floors(chunk_rows(rows, t, chunk, m), dk));
                law_log_form_is_product_form(self, dk, dv, part, before);
            }
            self.serial_resumes(
                dk,
                dv,
                rows,
                blank,
                (m * chunk) as nat,
                (n * chunk) as nat,
                chunk,
            );
        } else {
            assert(n * chunk == 0) by (nonlinear_arith)
                requires
                    n == 0,
            ;
        }
    }

    proof fn part_units(&self, rows: HeadRows<T>, t: nat, chunk: nat, n: nat, dk: nat)
        requires
            self.decays_are_units(rows.alpha, t, dk),
            rows.alpha.len() >= t,
            n * chunk < t,
            rows.q.len() >= t,
        ensures
            self.decays_are_units(
                chunk_rows(rows, t, chunk, n).alpha,
                chunk_rows(rows, t, chunk, n).q.len(),
                dk,
            ),
    {
        let part = chunk_rows(rows, t, chunk, n);
        assert((n + 1) * chunk == n * chunk + chunk) by (nonlinear_arith);
        assert forall|r: int, d: int|
            0 <= r < part.q.len() && 0 <= d < dk implies self.unit(#[trigger] part.alpha[r][d]) by {
            assert(part.alpha[r] == rows.alpha[n * chunk + r]);
            assert(self.unit(rows.alpha[n * chunk + r][d]));
        }
    }

    /// What running a sequence in chunks asks of its decays: that each can be
    /// divided by, and over logarithms that no floor replaces one.
    pub open spec fn runs_exactly(
        &self,
        form: ChunkForm,
        rows: HeadRows<T>,
        t: nat,
        chunk: nat,
        dk: nat,
    ) -> bool {
        &&& self.decays_are_units(rows.alpha, t, dk)
        &&& form is Logarithms ==> self.exponentials() && forall|n: nat|
            n * chunk < t ==> self.clear_of_floors(#[trigger] chunk_rows(rows, t, chunk, n), dk)
    }
}

/// A sequence in chunks gives the outputs that its tokens give one after the
/// other, in either form, where nothing is rounded.
pub proof fn law_chunkwise_is_serial<T: Copy, F: Fn(ScalarOp, T, T) -> T, C: Fn(Number) -> T, Z: Fn(Relation, T, T) -> bool>(
    x: &Scalars<T, F, C, Z>,
    form: ChunkForm,
    dk: nat,
    dv: nat,
    rows: HeadRows<T>,
    t: nat,
    chunk: nat,
    i: nat,
)
    requires
        x.exact(),
        x.runs_exactly(form, rows, t, chunk, dk),
        rows.q.len() >= t,
        rows.k.len() >= t,
        rows.v.len() >= t,
        rows.alpha.len() >= t,
        rows.b.len() >= t,
        rows.w.len() >= t,
        chunk > 0,
        i < t,
    ensures
        x.chunked_output(form, dk, dv, rows, t, chunk, i) == x.serial_output(
            dk,
            dv,
            rows,
            x.blank(dk, dv),
            i as int,
        ),
{
    let blank = x.blank(dk, dv);
    let n = i / chunk;
    let r = (i % chunk) as int;
    assert(i == n * chunk + r && 0 <= r < chunk && n * chunk < t && (n + 1) * chunk == n * chunk
        + chunk) by (nonlinear_arith)
        requires
            n == i / chunk,
            r == i % chunk,
            chunk > 0,
            i < t,
    ;
    let from = (n * chunk) as nat;
    let part = chunk_rows(rows, t, chunk, n);
    let to = if (n + 1) * chunk < t {
        (n + 1) * chunk
    } else {
        t
    };
    let before = x.chunked_state(form, dk, dv, rows, t, chunk, n);
    x.chunked_state_is_serial(form, dk, dv, rows, t, chunk, n);
    x.serial_shape(dk, dv, rows, blank, from);
    x.part_units(rows, t, chunk, n, dk);
    law_chunk_output_is_serial(x, dk, dv, part, before, r);
    if form is Logarithms {
        assert(x.clear_of_floors(chunk_rows(rows, t, chunk, n), dk));
        law_log_form_is_product_form(x, dk, dv, part, before);
    }
    x.serial_resumes(dk, dv, rows, blank, from, to, (r + 1) as nat);
    assert(part.q[r] == rows.q[i as int]);
}

} // verus!
