//! The gradients of the gated delta recurrence are gradients: what they weigh
//! the slopes of the inputs to is the slope of the weighed outputs.

use crate::gla::HeadRows;
use crate::gla_backward::TokenBack;
use crate::scalar::{shaped, Number, Relation, ScalarOp, Scalars};
use vstd::prelude::*;

verus! {

impl<T: Copy, F: Fn(ScalarOp, T, T) -> T, C: Fn(Number) -> T, Z: Fn(Relation, T, T) -> bool> Scalars<T, F, C, Z> {
    /// The sum of `n` numbers.
    #[verifier::inline]
    pub open spec fn total(&self, n: nat, f: spec_fn(int) -> T) -> T {
        self.gathered(self.zero(), n, f)
    }

    /// The sum of a table.
    pub open spec fn table_total(&self, rows: nat, cols: nat, f: spec_fn(int, int) -> T) -> T {
        self.total(rows, |i: int| self.total(cols, |j: int| f(i, j)))
    }

    /// The products of two rows, added up.
    pub open spec fn paired(&self, n: nat, a: Seq<T>, b: Seq<T>) -> T {
        self.total(n, |i: int| self.times(a[i], b[i]))
    }

    /// The products of two tables, added up.
    pub open spec fn table_paired(
        &self,
        rows: nat,
        cols: nat,
        a: Seq<Seq<T>>,
        b: Seq<Seq<T>>,
    ) -> T {
        self.table_total(rows, cols, |i: int, j: int| self.times(a[i][j], b[i][j]))
    }

    pub(crate) proof fn table_same(
        &self,
        rows: nat,
        cols: nat,
        f: spec_fn(int, int) -> T,
        g: spec_fn(int, int) -> T,
    )
        requires
            forall|i: int, j: int| 0 <= i < rows && 0 <= j < cols ==> #[trigger] f(i, j) == g(i, j),
        ensures
            self.table_total(rows, cols, f) == self.table_total(rows, cols, g),
    {
        let fs = |i: int| self.total(cols, |j: int| f(i, j));
        let gs = |i: int| self.total(cols, |j: int| g(i, j));
        assert forall|i: int| 0 <= i < rows implies #[trigger] fs(i) == gs(i) by {
            self.lemma_gathered_same(self.zero(), cols, |j: int| f(i, j), |j: int| g(i, j));
        }
        self.lemma_gathered_same(self.zero(), rows, fs, gs);
    }

    pub(crate) proof fn table_plus(
        &self,
        rows: nat,
        cols: nat,
        f: spec_fn(int, int) -> T,
        g: spec_fn(int, int) -> T,
        h: spec_fn(int, int) -> T,
    )
        requires
            self.ring(),
            forall|i: int, j: int|
                0 <= i < rows && 0 <= j < cols ==> #[trigger] h(i, j) == self.plus(
                    f(i, j),
                    g(i, j),
                ),
        ensures
            self.table_total(rows, cols, h) == self.plus(
                self.table_total(rows, cols, f),
                self.table_total(rows, cols, g),
            ),
    {
        let fs = |i: int| self.total(cols, |j: int| f(i, j));
        let gs = |i: int| self.total(cols, |j: int| g(i, j));
        let hs = |i: int| self.total(cols, |j: int| h(i, j));
        assert forall|i: int| 0 <= i < rows implies #[trigger] hs(i) == self.plus(fs(i), gs(i)) by {
            self.gathered_plus(cols, |j: int| f(i, j), |j: int| g(i, j), |j: int| h(i, j));
        }
        self.gathered_plus(rows, fs, gs, hs);
    }

    /// A factor of every row is a factor of its sum.
    proof fn table_by_rows(
        &self,
        rows: nat,
        cols: nat,
        f: spec_fn(int, int) -> T,
        a: spec_fn(int) -> T,
        h: spec_fn(int, int) -> T,
        r: spec_fn(int) -> T,
    )
        requires
            self.ring(),
            forall|i: int, j: int|
                0 <= i < rows && 0 <= j < cols ==> #[trigger] h(i, j) == self.times(f(i, j), a(i)),
            forall|i: int|
                0 <= i < rows ==> #[trigger] r(i) == self.times(
                    self.total(cols, |j: int| f(i, j)),
                    a(i),
                ),
        ensures
            self.table_total(rows, cols, h) == self.total(rows, r),
    {
        let hs = |i: int| self.total(cols, |j: int| h(i, j));
        assert forall|i: int| 0 <= i < rows implies #[trigger] hs(i) == r(i) by {
            let row = |j: int| f(i, j);
            let scaled = |j: int| h(i, j);
            assert forall|j: int| 0 <= j < cols implies #[trigger] scaled(j) == self.times(
                a(i),
                row(j),
            ) by {
                self.times_comm(f(i, j), a(i));
                assert(h(i, j) == self.times(f(i, j), a(i)));
            }
            self.gathered_times(cols, a(i), row, scaled);
            self.times_comm(a(i), self.total(cols, row));
            assert(r(i) == self.times(self.total(cols, |j: int| f(i, j)), a(i)));
        }
        self.lemma_gathered_same(self.zero(), rows, hs, r);
    }

    /// A factor of every column is a factor of its sum.
    proof fn table_by_columns(
        &self,
        rows: nat,
        cols: nat,
        f: spec_fn(int, int) -> T,
        a: spec_fn(int) -> T,
        h: spec_fn(int, int) -> T,
        r: spec_fn(int) -> T,
    )
        requires
            self.ring(),
            forall|i: int, j: int|
                0 <= i < rows && 0 <= j < cols ==> #[trigger] h(i, j) == self.times(f(i, j), a(j)),
            forall|j: int|
                0 <= j < cols ==> #[trigger] r(j) == self.times(
                    self.total(rows, |i: int| f(i, j)),
                    a(j),
                ),
        ensures
            self.table_total(rows, cols, h) == self.total(cols, r),
    {
        self.gathered_swap(rows, cols, h);
        let turned = |j: int, i: int| h(i, j);
        let hs = |j: int| self.total(rows, |i: int| h(i, j));
        let ts = |j: int| self.total(rows, |i: int| turned(j, i));
        assert forall|j: int| 0 <= j < cols implies #[trigger] hs(j) == ts(j) by {
            self.lemma_gathered_same(
                self.zero(),
                rows,
                |i: int| h(i, j),
                |i: int| turned(j, i),
            );
        }
        self.lemma_gathered_same(self.zero(), cols, hs, ts);
        let back = |j: int, i: int| f(i, j);
        assert forall|j: int| 0 <= j < cols implies #[trigger] r(j) == self.times(
            self.total(rows, |i: int| back(j, i)),
            a(j),
        ) by {
            self.lemma_gathered_same(self.zero(), rows, |i: int| f(i, j), |i: int| back(j, i));
        }
        assert forall|j: int, i: int| 0 <= j < cols && 0 <= i < rows implies #[trigger] turned(
            j,
            i,
        ) == self.times(back(j, i), a(j)) by {
            assert(h(i, j) == self.times(f(i, j), a(j)));
        }
        self.table_by_rows(cols, rows, back, a, turned, r);
    }

    /// The last of three terms changes places with the second.
    proof fn plus_swap(&self, a: T, b: T, c: T)
        requires
            self.ring(),
        ensures
            self.plus(self.plus(a, b), c) == self.plus(self.plus(a, c), b),
    {
        self.plus_assoc(a, b, c);
        self.plus_comm(b, c);
        self.plus_assoc(a, c, b);
    }
}

/// How the inputs of a token change.
pub struct TokenRows<T> {
    pub q: Seq<T>,
    pub k: Seq<T>,
    pub v: Seq<T>,
    pub alpha: Seq<T>,
    pub b: Seq<T>,
    pub w: Seq<T>,
}

/// How the inputs of a token, and the state before it, change.
struct TokenTurn<T> {
    rows: TokenRows<T>,
    before: Seq<Seq<T>>,
}

impl<T: Copy, F: Fn(ScalarOp, T, T) -> T, C: Fn(Number) -> T, Z: Fn(Relation, T, T) -> bool> Scalars<T, F, C, Z> {
    /// How a product changes.
    spec fn product_turn(&self, a: T, da: T, b: T, db: T) -> T {
        self.plus(self.times(da, b), self.times(a, db))
    }

    spec fn kept_turn(&self, c: TokenBack<T>, d: TokenTurn<T>, i: int, j: int) -> T {
        self.product_turn(c.alpha[i], d.rows.alpha[i], c.before[i][j], d.before[i][j])
    }

    spec fn erased_turn(&self, c: TokenBack<T>, d: TokenTurn<T>, i: int) -> T {
        self.product_turn(c.b[i], d.rows.b[i], c.k[i], d.rows.k[i])
    }

    spec fn read_turn(&self, dk: nat, c: TokenBack<T>, d: TokenTurn<T>, j: int) -> T {
        self.total(
            dk,
            |i: int|
                self.product_turn(
                    self.times(c.b[i], c.k[i]),
                    self.erased_turn(c, d, i),
                    self.times(c.alpha[i], c.before[i][j]),
                    self.kept_turn(c, d, i, j),
                ),
        )
    }

    spec fn off_turn(&self, dk: nat, c: TokenBack<T>, d: TokenTurn<T>, j: int) -> T {
        self.minus(
            self.product_turn(c.w[j], d.rows.w[j], c.v[j], d.rows.v[j]),
            self.read_turn(dk, c, d, j),
        )
    }

    /// What the token is off by in a value channel.
    spec fn off(&self, dk: nat, dv: nat, c: TokenBack<T>, j: int) -> T {
        self.correction(dk, self.decayed(dk, dv, c.before, c.alpha), c.k, c.v, c.b, c.w, j)
    }

    spec fn after_turn(
        &self,
        dk: nat,
        dv: nat,
        c: TokenBack<T>,
        d: TokenTurn<T>,
        i: int,
        j: int,
    ) -> T {
        self.plus(
            self.kept_turn(c, d, i, j),
            self.product_turn(c.k[i], d.rows.k[i], self.off(dk, dv, c, j), self.off_turn(dk, c, d, j)),
        )
    }

    spec fn out_turn(&self, dk: nat, dv: nat, c: TokenBack<T>, d: TokenTurn<T>, j: int) -> T {
        self.total(
            dk,
            |i: int|
                self.product_turn(
                    c.q[i],
                    d.rows.q[i],
                    c.after[i][j],
                    self.after_turn(dk, dv, c, d, i, j),
                ),
        )
    }

    /// A product with a changed product, one changed factor at a time.
    proof fn times_turn(&self, g: T, a: T, da: T, b: T, db: T)
        requires
            self.ring(),
        ensures
            self.times(g, self.product_turn(a, da, b, db)) == self.plus(
                self.times(self.times(g, b), da),
                self.times(self.times(g, a), db),
            ),
    {
        self.times_plus(g, self.times(da, b), self.times(a, db));
        self.times_comm(da, b);
        self.times_assoc(g, b, da);
        self.times_assoc(g, a, db);
    }

    /// The outputs: what queries change, and what the state changes.
    proof fn outputs_turn(&self, dk: nat, dv: nat, c: TokenBack<T>, d: TokenTurn<T>)
        requires
            self.ring(),
        ensures
            self.total(dv, |j: int| self.times(c.up[j], self.out_turn(dk, dv, c, d, j)))
                == self.plus(
                self.paired(dk, self.q_slope(dk, dv, c), d.rows.q),
                self.table_total(
                    dk,
                    dv,
                    |i: int, j: int|
                        self.times(
                            self.times(c.q[i], c.up[j]),
                            self.after_turn(dk, dv, c, d, i, j),
                        ),
                ),
            ),
    {
        let part = |i: int, j: int|
            self.product_turn(c.q[i], d.rows.q[i], c.after[i][j], self.after_turn(dk, dv, c, d, i, j));
        let all = |i: int, j: int| self.times(part(i, j), c.up[j]);
        let by_query = |i: int, j: int| self.times(self.times(c.after[i][j], c.up[j]), d.rows.q[i]);
        let by_state = |i: int, j: int|
            self.times(self.times(c.q[i], c.up[j]), self.after_turn(dk, dv, c, d, i, j));
        let outs = |j: int| self.times(c.up[j], self.out_turn(dk, dv, c, d, j));
        let up = |j: int| c.up[j];
        assert forall|j: int| 0 <= j < dv implies #[trigger] outs(j) == self.times(
            self.total(dk, |i: int| part(i, j)),
            up(j),
        ) by {
            self.lemma_gathered_same(
                self.zero(),
                dk,
                |i: int| part(i, j),
                |i: int|
                    self.product_turn(
                        c.q[i],
                        d.rows.q[i],
                        c.after[i][j],
                        self.after_turn(dk, dv, c, d, i, j),
                    ),
            );
            self.times_comm(c.up[j], self.out_turn(dk, dv, c, d, j));
        }
        self.table_by_columns(dk, dv, part, up, all, outs);
        assert forall|i: int, j: int| 0 <= i < dk && 0 <= j < dv implies #[trigger] all(i, j)
            == self.plus(by_query(i, j), by_state(i, j)) by {
            let turned = self.after_turn(dk, dv, c, d, i, j);
            self.times_comm(part(i, j), c.up[j]);
            self.times_turn(c.up[j], c.q[i], d.rows.q[i], c.after[i][j], turned);
            self.times_comm(c.up[j], c.after[i][j]);
            self.times_comm(c.up[j], c.q[i]);
        }
        self.table_plus(dk, dv, by_query, by_state, all);
        let slopes = self.q_slope(dk, dv, c);
        let row = |i: int, j: int| self.times(c.after[i][j], c.up[j]);
        let paired = |i: int| self.times(slopes[i], d.rows.q[i]);
        assert forall|i: int| 0 <= i < dk implies #[trigger] paired(i) == self.times(
            self.total(dv, |j: int| row(i, j)),
            d.rows.q[i],
        ) by {
            self.lemma_gathered_same(
                self.zero(),
                dv,
                |j: int| row(i, j),
                |j: int| self.times(c.after[i][j], c.up[j]),
            );
        }
        self.table_by_rows(dk, dv, row, |i: int| d.rows.q[i], by_query, paired);
    }

    /// The state after the token: what the decayed state changes, what keys
    /// change, and what the correction changes.
    proof fn state_turn(&self, dk: nat, dv: nat, c: TokenBack<T>, d: TokenTurn<T>)
        requires
            self.ring(),
        ensures
            ({
                let post = self.post_slope(dk, dv, c);
                let dz = self.write_slope(dk, dv, c);
                self.table_total(
                    dk,
                    dv,
                    |i: int, j: int|
                        self.times(post[i][j], self.after_turn(dk, dv, c, d, i, j)),
                ) == self.plus(
                    self.table_total(
                        dk,
                        dv,
                        |i: int, j: int| self.times(post[i][j], self.kept_turn(c, d, i, j)),
                    ),
                    self.plus(
                        self.total(
                            dk,
                            |i: int|
                                self.times(
                                    self.total(
                                        dv,
                                        |j: int|
                                            self.times(post[i][j], self.off(dk, dv, c, j)),
                                    ),
                                    d.rows.k[i],
                                ),
                        ),
                        self.total(dv, |j: int| self.times(dz[j], self.off_turn(dk, c, d, j))),
                    ),
                )
            }),
    {
        let post = self.post_slope(dk, dv, c);
        let dz = self.write_slope(dk, dv, c);
        let all = |i: int, j: int| self.times(post[i][j], self.after_turn(dk, dv, c, d, i, j));
        let kept = |i: int, j: int| self.times(post[i][j], self.kept_turn(c, d, i, j));
        let written = |i: int, j: int|
            self.times(
                post[i][j],
                self.product_turn(
                    c.k[i],
                    d.rows.k[i],
                    self.off(dk, dv, c, j),
                    self.off_turn(dk, c, d, j),
                ),
            );
        let by_key = |i: int, j: int|
            self.times(self.times(post[i][j], self.off(dk, dv, c, j)), d.rows.k[i]);
        let by_off = |i: int, j: int|
            self.times(self.times(post[i][j], c.k[i]), self.off_turn(dk, c, d, j));
        assert forall|i: int, j: int| 0 <= i < dk && 0 <= j < dv implies #[trigger] all(i, j)
            == self.plus(kept(i, j), written(i, j)) by {
            self.times_plus(
                post[i][j],
                self.kept_turn(c, d, i, j),
                self.product_turn(
                    c.k[i],
                    d.rows.k[i],
                    self.off(dk, dv, c, j),
                    self.off_turn(dk, c, d, j),
                ),
            );
        }
        self.table_plus(dk, dv, kept, written, all);
        assert forall|i: int, j: int| 0 <= i < dk && 0 <= j < dv implies #[trigger] written(i, j)
            == self.plus(by_key(i, j), by_off(i, j)) by {
            self.times_turn(
                post[i][j],
                c.k[i],
                d.rows.k[i],
                self.off(dk, dv, c, j),
                self.off_turn(dk, c, d, j),
            );
        }
        self.table_plus(dk, dv, by_key, by_off, written);
        let row = |i: int, j: int| self.times(post[i][j], self.off(dk, dv, c, j));
        let keys = |i: int|
            self.times(
                self.total(dv, |j: int| self.times(post[i][j], self.off(dk, dv, c, j))),
                d.rows.k[i],
            );
        assert forall|i: int| 0 <= i < dk implies #[trigger] keys(i) == self.times(
            self.total(dv, |j: int| row(i, j)),
            d.rows.k[i],
        ) by {
            self.lemma_gathered_same(
                self.zero(),
                dv,
                |j: int| row(i, j),
                |j: int| self.times(post[i][j], self.off(dk, dv, c, j)),
            );
        }
        self.table_by_rows(dk, dv, row, |i: int| d.rows.k[i], by_key, keys);
        let col = |i: int, j: int| self.times(post[i][j], c.k[i]);
        let offs = |j: int| self.times(dz[j], self.off_turn(dk, c, d, j));
        assert forall|j: int| 0 <= j < dv implies #[trigger] offs(j) == self.times(
            self.total(dk, |i: int| col(i, j)),
            self.off_turn(dk, c, d, j),
        ) by {
            self.lemma_gathered_same(
                self.zero(),
                dk,
                |i: int| col(i, j),
                |i: int| self.times(post[i][j], c.k[i]),
            );
        }
        self.table_by_columns(dk, dv, col, |j: int| self.off_turn(dk, c, d, j), by_off, offs);
    }
}

impl<T: Copy, F: Fn(ScalarOp, T, T) -> T, C: Fn(Number) -> T, Z: Fn(Relation, T, T) -> bool> Scalars<T, F, C, Z> {
    /// The correction: what values and write gates change, and what is read.
    proof fn corrections_turn(&self, dk: nat, dv: nat, c: TokenBack<T>, d: TokenTurn<T>)
        requires
            self.ring(),
        ensures
            ({
                let dz = self.write_slope(dk, dv, c);
                let dr = self.read_slope(dk, dv, c);
                self.total(dv, |j: int| self.times(dz[j], self.off_turn(dk, c, d, j)))
                    == self.plus(
                    self.plus(
                        self.paired(dv, self.w_slope(dk, dv, c), d.rows.w),
                        self.paired(dv, self.v_slope(dk, dv, c), d.rows.v),
                    ),
                    self.total(dv, |j: int| self.times(dr[j], self.read_turn(dk, c, d, j))),
                )
            }),
    {
        let dz = self.write_slope(dk, dv, c);
        let dr = self.read_slope(dk, dv, c);
        let ws = self.w_slope(dk, dv, c);
        let vs = self.v_slope(dk, dv, c);
        let all = |j: int| self.times(dz[j], self.off_turn(dk, c, d, j));
        let written = |j: int|
            self.times(dz[j], self.product_turn(c.w[j], d.rows.w[j], c.v[j], d.rows.v[j]));
        let read = |j: int| self.times(dr[j], self.read_turn(dk, c, d, j));
        let by_gate = |j: int| self.times(ws[j], d.rows.w[j]);
        let by_value = |j: int| self.times(vs[j], d.rows.v[j]);
        assert forall|j: int| 0 <= j < dv implies #[trigger] all(j) == self.plus(
            written(j),
            read(j),
        ) by {
            let a = self.product_turn(c.w[j], d.rows.w[j], c.v[j], d.rows.v[j]);
            let b = self.read_turn(dk, c, d, j);
            self.times_minus(dz[j], a, b);
            self.minus_is(self.times(dz[j], a), self.times(dz[j], b));
            self.times_negated(b, dz[j]);
        }
        self.gathered_plus(dv, written, read, all);
        assert forall|j: int| 0 <= j < dv implies #[trigger] written(j) == self.plus(
            by_gate(j),
            by_value(j),
        ) by {
            self.times_turn(dz[j], c.w[j], d.rows.w[j], c.v[j], d.rows.v[j]);
        }
        self.gathered_plus(dv, by_gate, by_value, written);
    }

    /// What is read: what erase gates and keys change, and what the decayed
    /// state changes.
    proof fn reads_turn(&self, dk: nat, dv: nat, c: TokenBack<T>, d: TokenTurn<T>)
        requires
            self.ring(),
        ensures
            ({
                let dr = self.read_slope(dk, dv, c);
                let de = self.erase_slope(dk, dv, c);
                self.total(dv, |j: int| self.times(dr[j], self.read_turn(dk, c, d, j)))
                    == self.plus(
                    self.plus(
                        self.paired(dk, self.b_slope(dk, dv, c), d.rows.b),
                        self.total(dk, |i: int| self.times(self.times(de[i], c.b[i]), d.rows.k[i])),
                    ),
                    self.table_total(
                        dk,
                        dv,
                        |i: int, j: int|
                            self.times(
                                self.times(self.times(c.b[i], c.k[i]), dr[j]),
                                self.kept_turn(c, d, i, j),
                            ),
                    ),
                )
            }),
    {
        let dr = self.read_slope(dk, dv, c);
        let de = self.erase_slope(dk, dv, c);
        let bs = self.b_slope(dk, dv, c);
        let kept = self.decayed(dk, dv, c.before, c.alpha);
        let part = |i: int, j: int|
            self.product_turn(
                self.times(c.b[i], c.k[i]),
                self.erased_turn(c, d, i),
                self.times(c.alpha[i], c.before[i][j]),
                self.kept_turn(c, d, i, j),
            );
        let all = |i: int, j: int| self.times(part(i, j), dr[j]);
        let by_erase = |i: int, j: int|
            self.times(self.times(kept[i][j], dr[j]), self.erased_turn(c, d, i));
        let by_state = |i: int, j: int|
            self.times(
                self.times(self.times(c.b[i], c.k[i]), dr[j]),
                self.kept_turn(c, d, i, j),
            );
        let reads = |j: int| self.times(dr[j], self.read_turn(dk, c, d, j));
        assert forall|j: int| 0 <= j < dv implies #[trigger] reads(j) == self.times(
            self.total(dk, |i: int| part(i, j)),
            dr[j],
        ) by {
            self.lemma_gathered_same(
                self.zero(),
                dk,
                |i: int| part(i, j),
                |i: int|
                    self.product_turn(
                        self.times(c.b[i], c.k[i]),
                        self.erased_turn(c, d, i),
                        self.times(c.alpha[i], c.before[i][j]),
                        self.kept_turn(c, d, i, j),
                    ),
            );
            self.times_comm(dr[j], self.read_turn(dk, c, d, j));
        }
        self.table_by_columns(dk, dv, part, |j: int| dr[j], all, reads);
        assert forall|i: int, j: int| 0 <= i < dk && 0 <= j < dv implies #[trigger] all(i, j)
            == self.plus(by_erase(i, j), by_state(i, j)) by {
            let e = self.times(c.b[i], c.k[i]);
            self.times_comm(part(i, j), dr[j]);
            self.times_turn(
                dr[j],
                e,
                self.erased_turn(c, d, i),
                self.times(c.alpha[i], c.before[i][j]),
                self.kept_turn(c, d, i, j),
            );
            self.times_comm(dr[j], kept[i][j]);
            self.times_comm(dr[j], e);
        }
        self.table_plus(dk, dv, by_erase, by_state, all);
        let row = |i: int, j: int| self.times(kept[i][j], dr[j]);
        let erased = |i: int| self.times(de[i], self.erased_turn(c, d, i));
        assert forall|i: int| 0 <= i < dk implies #[trigger] erased(i) == self.times(
            self.total(dv, |j: int| row(i, j)),
            self.erased_turn(c, d, i),
        ) by {
            self.lemma_gathered_same(
                self.zero(),
                dv,
                |j: int| row(i, j),
                |j: int| self.times(kept[i][j], dr[j]),
            );
        }
        self.table_by_rows(
            dk,
            dv,
            row,
            |i: int| self.erased_turn(c, d, i),
            by_erase,
            erased,
        );
        let by_gate = |i: int| self.times(bs[i], d.rows.b[i]);
        let by_key = |i: int| self.times(self.times(de[i], c.b[i]), d.rows.k[i]);
        assert forall|i: int| 0 <= i < dk implies #[trigger] erased(i) == self.plus(
            by_gate(i),
            by_key(i),
        ) by {
            self.times_turn(de[i], c.b[i], d.rows.b[i], c.k[i], d.rows.k[i]);
        }
        self.gathered_plus(dk, by_gate, by_key, erased);
    }

    /// The decayed state: what decays change, and what the state before the
    /// token changes.
    proof fn decays_turn(&self, dk: nat, dv: nat, c: TokenBack<T>, d: TokenTurn<T>)
        requires
            self.ring(),
        ensures
            ({
                let ds = self.kept_slope(dk, dv, c);
                self.table_total(
                    dk,
                    dv,
                    |i: int, j: int| self.times(ds[i][j], self.kept_turn(c, d, i, j)),
                ) == self.plus(
                    self.paired(dk, self.alpha_slope(dk, dv, c), d.rows.alpha),
                    self.table_paired(dk, dv, self.before_slope(dk, dv, c), d.before),
                )
            }),
    {
        let ds = self.kept_slope(dk, dv, c);
        let slopes = self.alpha_slope(dk, dv, c);
        let before = self.before_slope(dk, dv, c);
        let all = |i: int, j: int| self.times(ds[i][j], self.kept_turn(c, d, i, j));
        let by_decay = |i: int, j: int|
            self.times(self.times(ds[i][j], c.before[i][j]), d.rows.alpha[i]);
        let by_state = |i: int, j: int| self.times(before[i][j], d.before[i][j]);
        assert forall|i: int, j: int| 0 <= i < dk && 0 <= j < dv implies #[trigger] all(i, j)
            == self.plus(by_decay(i, j), by_state(i, j)) by {
            self.times_turn(ds[i][j], c.alpha[i], d.rows.alpha[i], c.before[i][j], d.before[i][j]);
            self.times_comm(ds[i][j], c.alpha[i]);
        }
        self.table_plus(dk, dv, by_decay, by_state, all);
        let row = |i: int, j: int| self.times(ds[i][j], c.before[i][j]);
        let decays = |i: int| self.times(slopes[i], d.rows.alpha[i]);
        assert forall|i: int| 0 <= i < dk implies #[trigger] decays(i) == self.times(
            self.total(dv, |j: int| row(i, j)),
            d.rows.alpha[i],
        ) by {
            self.lemma_gathered_same(
                self.zero(),
                dv,
                |j: int| row(i, j),
                |j: int| self.times(ds[i][j], c.before[i][j]),
            );
        }
        self.table_by_rows(dk, dv, row, |i: int| d.rows.alpha[i], by_decay, decays);
    }

    /// The slope in the key, in its two parts.
    proof fn keys_turn(&self, dk: nat, dv: nat, c: TokenBack<T>, d: TokenTurn<T>)
        requires
            self.ring(),
        ensures
            ({
                let post = self.post_slope(dk, dv, c);
                let de = self.erase_slope(dk, dv, c);
                self.paired(dk, self.k_slope(dk, dv, c), d.rows.k) == self.plus(
                    self.total(dk, |i: int| self.times(self.times(de[i], c.b[i]), d.rows.k[i])),
                    self.total(
                        dk,
                        |i: int|
                            self.times(
                                self.total(
                                    dv,
                                    |j: int| self.times(post[i][j], self.off(dk, dv, c, j)),
                                ),
                                d.rows.k[i],
                            ),
                    ),
                )
            }),
    {
        let post = self.post_slope(dk, dv, c);
        let de = self.erase_slope(dk, dv, c);
        let slopes = self.k_slope(dk, dv, c);
        let kept = self.decayed(dk, dv, c.before, c.alpha);
        let all = |i: int| self.times(slopes[i], d.rows.k[i]);
        let erased = |i: int| self.times(self.times(de[i], c.b[i]), d.rows.k[i]);
        let written = |i: int|
            self.times(
                self.total(dv, |j: int| self.times(post[i][j], self.off(dk, dv, c, j))),
                d.rows.k[i],
            );
        assert forall|i: int| 0 <= i < dk implies #[trigger] all(i) == self.plus(
            erased(i),
            written(i),
        ) by {
            let row = |j: int|
                self.times(post[i][j], self.correction(dk, kept, c.k, c.v, c.b, c.w, j));
            let sum = self.total(dv, row);
            self.gathered_start(self.times(de[i], c.b[i]), dv, row);
            self.lemma_gathered_same(
                self.zero(),
                dv,
                row,
                |j: int| self.times(post[i][j], self.off(dk, dv, c, j)),
            );
            self.times_plus(d.rows.k[i], self.times(de[i], c.b[i]), sum);
        }
        self.gathered_plus(dk, erased, written, all);
    }
}

impl<T: Copy, F: Fn(ScalarOp, T, T) -> T, C: Fn(Number) -> T, Z: Fn(Relation, T, T) -> bool> Scalars<T, F, C, Z> {
    /// What the gradients of a token weigh the changes of its inputs to.
    pub open spec fn earned(&self, dk: nat, dv: nat, c: TokenBack<T>, d: TokenRows<T>) -> T {
        let q = self.paired(dk, self.q_slope(dk, dv, c), d.q);
        let k = self.paired(dk, self.k_slope(dk, dv, c), d.k);
        let a = self.paired(dk, self.alpha_slope(dk, dv, c), d.alpha);
        let b = self.paired(dk, self.b_slope(dk, dv, c), d.b);
        let v = self.paired(dv, self.v_slope(dk, dv, c), d.v);
        let w = self.paired(dv, self.w_slope(dk, dv, c), d.w);
        self.plus(self.plus(self.plus(self.plus(self.plus(q, k), a), b), v), w)
    }

    /// The parts of a token's slope, ordered by input.
    proof fn parts_ordered(
        &self,
        q: T,
        x: T,
        kc: T,
        w: T,
        v: T,
        b: T,
        ke: T,
        e: T,
        k: T,
        a: T,
        s: T,
    )
        requires
            self.ring(),
            self.plus(x, e) == self.plus(a, s),
            k == self.plus(ke, kc),
        ensures
            self.plus(
                q,
                self.plus(
                    x,
                    self.plus(kc, self.plus(self.plus(w, v), self.plus(self.plus(b, ke), e))),
                ),
            ) == self.plus(
                self.plus(self.plus(self.plus(self.plus(self.plus(q, k), a), b), v), w),
                s,
            ),
    {
        let wv = self.plus(w, v);
        let bk = self.plus(b, ke);
        let inner = self.plus(
            x,
            self.plus(kc, self.plus(wv, self.plus(bk, e))),
        );
        self.plus_assoc(x, kc, self.plus(wv, self.plus(bk, e)));
        let xk = self.plus(x, kc);
        self.plus_assoc(xk, wv, self.plus(bk, e));
        let xkw = self.plus(xk, wv);
        self.plus_assoc(xkw, bk, e);
        self.plus_swap(xkw, bk, e);
        self.plus_swap(xk, wv, e);
        self.plus_swap(x, kc, e);
        let p = self.plus(a, s);
        let t0 = self.plus(p, kc);
        let t1 = self.plus(t0, wv);
        assert(inner == self.plus(t1, bk));
        self.plus_assoc(t1, b, ke);
        self.plus_swap(t1, b, ke);
        assert(inner == self.plus(self.plus(t1, ke), b));
        self.plus_assoc(t0, w, v);
        let t0w = self.plus(t0, w);
        assert(t1 == self.plus(t0w, v));
        self.plus_swap(t0w, v, ke);
        self.plus_swap(t0, w, ke);
        self.plus_assoc(p, kc, ke);
        self.plus_comm(kc, ke);
        let pk = self.plus(p, k);
        assert(self.plus(t0, ke) == pk);
        let t2 = self.plus(self.plus(self.plus(pk, w), v), b);
        assert(inner == t2);
        self.plus_swap(a, s, k);
        let ak = self.plus(a, k);
        assert(pk == self.plus(ak, s));
        self.plus_swap(ak, s, w);
        let akw = self.plus(ak, w);
        self.plus_swap(akw, s, v);
        let akwv = self.plus(akw, v);
        self.plus_swap(akwv, s, b);
        let u = self.plus(akwv, b);
        assert(t2 == self.plus(u, s));
        self.plus_assoc(q, u, s);
        assert(self.plus(q, t2) == self.plus(self.plus(q, u), s));
        // q + (((ak + w) + v) + b), with q carried to the front
        self.plus_comm(q, u);
        self.plus_swap(akwv, b, q);
        self.plus_swap(akw, v, q);
        self.plus_swap(ak, w, q);
        self.plus_comm(a, k);
        self.plus_swap(k, a, q);
        self.plus_comm(k, q);
        let c = self.plus(self.plus(q, k), a);
        assert(self.plus(ak, q) == c);
        assert(self.plus(q, u) == self.plus(self.plus(self.plus(c, w), v), b));
        let cw = self.plus(c, w);
        self.plus_swap(cw, v, b);
        self.plus_swap(c, w, b);
        let cb = self.plus(c, b);
        self.plus_swap(cb, w, v);
    }

    /// One token: what weighs the change of its output and of the state after
    /// it, weighs the changes of its inputs and of the state before it.
    proof fn token_turn(&self, dk: nat, dv: nat, c: TokenBack<T>, d: TokenTurn<T>)
        requires
            self.ring(),
        ensures
            self.plus(
                self.total(dv, |j: int| self.times(c.up[j], self.out_turn(dk, dv, c, d, j))),
                self.table_total(
                    dk,
                    dv,
                    |i: int, j: int|
                        self.times(c.carried[i][j], self.after_turn(dk, dv, c, d, i, j)),
                ),
            ) == self.plus(
                self.earned(dk, dv, c, d.rows),
                self.table_paired(dk, dv, self.before_slope(dk, dv, c), d.before),
            ),
    {
        let post = self.post_slope(dk, dv, c);
        let ds = self.kept_slope(dk, dv, c);
        let dz = self.write_slope(dk, dv, c);
        let dr = self.read_slope(dk, dv, c);
        let de = self.erase_slope(dk, dv, c);
        let outs = self.total(
            dv,
            |j: int| self.times(c.up[j], self.out_turn(dk, dv, c, d, j)),
        );
        let by_carried = |i: int, j: int|
            self.times(c.carried[i][j], self.after_turn(dk, dv, c, d, i, j));
        let by_query = |i: int, j: int|
            self.times(self.times(c.q[i], c.up[j]), self.after_turn(dk, dv, c, d, i, j));
        let by_post = |i: int, j: int|
            self.times(post[i][j], self.after_turn(dk, dv, c, d, i, j));
        self.outputs_turn(dk, dv, c, d);
        assert forall|i: int, j: int| 0 <= i < dk && 0 <= j < dv implies #[trigger] by_post(i, j)
            == self.plus(by_carried(i, j), by_query(i, j)) by {
            self.times_plus(
                self.after_turn(dk, dv, c, d, i, j),
                c.carried[i][j],
                self.times(c.q[i], c.up[j]),
            );
        }
        self.table_plus(dk, dv, by_carried, by_query, by_post);
        let q = self.paired(dk, self.q_slope(dk, dv, c), d.rows.q);
        let p2 = self.table_total(dk, dv, by_query);
        let carried = self.table_total(dk, dv, by_carried);
        let m0 = self.table_total(dk, dv, by_post);
        self.plus_assoc(q, p2, carried);
        self.plus_comm(p2, carried);
        assert(self.plus(outs, carried) == self.plus(q, m0));
        self.state_turn(dk, dv, c, d);
        self.corrections_turn(dk, dv, c, d);
        self.reads_turn(dk, dv, c, d);
        self.decays_turn(dk, dv, c, d);
        self.keys_turn(dk, dv, c, d);
        let kept = |i: int, j: int| self.times(post[i][j], self.kept_turn(c, d, i, j));
        let erased = |i: int, j: int|
            self.times(
                self.times(self.times(c.b[i], c.k[i]), dr[j]),
                self.kept_turn(c, d, i, j),
            );
        let both = |i: int, j: int| self.times(ds[i][j], self.kept_turn(c, d, i, j));
        assert forall|i: int, j: int| 0 <= i < dk && 0 <= j < dv implies #[trigger] both(i, j)
            == self.plus(kept(i, j), erased(i, j)) by {
            self.times_plus(
                self.kept_turn(c, d, i, j),
                post[i][j],
                self.times(self.times(c.b[i], c.k[i]), dr[j]),
            );
        }
        self.table_plus(dk, dv, kept, erased, both);
        self.parts_ordered(
            q,
            self.table_total(dk, dv, kept),
            self.total(
                dk,
                |i: int|
                    self.times(
                        self.total(
                            dv,
                            |j: int| self.times(post[i][j], self.off(dk, dv, c, j)),
                        ),
                        d.rows.k[i],
                    ),
            ),
            self.paired(dv, self.w_slope(dk, dv, c), d.rows.w),
            self.paired(dv, self.v_slope(dk, dv, c), d.rows.v),
            self.paired(dk, self.b_slope(dk, dv, c), d.rows.b),
            self.total(dk, |i: int| self.times(self.times(de[i], c.b[i]), d.rows.k[i])),
            self.table_total(dk, dv, erased),
            self.paired(dk, self.k_slope(dk, dv, c), d.rows.k),
            self.paired(dk, self.alpha_slope(dk, dv, c), d.rows.alpha),
            self.table_paired(dk, dv, self.before_slope(dk, dv, c), d.before),
        );
    }
}

/// How numbers of one arithmetic stand for changing numbers of another: each
/// has a value and a slope.
#[verifier::reject_recursive_types(D)]
pub struct Dual<D, T> {
    pub value: spec_fn(D) -> T,
    pub slope: spec_fn(D) -> T,
}

impl<D, T> Dual<D, T> {
    /// The values of a table.
    pub open spec fn values(&self, table: Seq<Seq<D>>) -> Seq<Seq<T>> {
        Seq::new(
            table.len(),
            |i: int| Seq::new(table[i].len(), |j: int| (self.value)(table[i][j])),
        )
    }

    /// The slopes of a row.
    pub open spec fn slopes(&self, row: Seq<D>) -> Seq<T> {
        Seq::new(row.len(), |i: int| (self.slope)(row[i]))
    }

    /// The values of a head's inputs.
    pub open spec fn head_values(&self, rows: HeadRows<D>) -> HeadRows<T> {
        HeadRows {
            q: self.values(rows.q),
            k: self.values(rows.k),
            v: self.values(rows.v),
            alpha: self.values(rows.alpha),
            b: self.values(rows.b),
            w: self.values(rows.w),
        }
    }

    /// The slopes of the inputs of token `s`.
    pub open spec fn token_slopes(&self, rows: HeadRows<D>, s: int) -> TokenRows<T> {
        TokenRows {
            q: self.slopes(rows.q[s]),
            k: self.slopes(rows.k[s]),
            v: self.slopes(rows.v[s]),
            alpha: self.slopes(rows.alpha[s]),
            b: self.slopes(rows.b[s]),
            w: self.slopes(rows.w[s]),
        }
    }

    spec fn table_slopes(&self, table: Seq<Seq<D>>) -> Seq<Seq<T>> {
        Seq::new(table.len(), |i: int| self.slopes(table[i]))
    }
}

/// The numbers of `y` are changing numbers of `x`: values are those of `x`, and
/// slopes follow the rules for sums, differences and products.
pub open spec fn changes<
    T: Copy,
    F: Fn(ScalarOp, T, T) -> T,
    C: Fn(Number) -> T,
    Z: Fn(Relation, T, T) -> bool,
    D: Copy,
    F2: Fn(ScalarOp, D, D) -> D,
    C2: Fn(Number) -> D,
    Z2: Fn(Relation, D, D) -> bool,
>(x: &Scalars<T, F, C, Z>, y: &Scalars<D, F2, C2, Z2>, p: Dual<D, T>) -> bool {
    let value = p.value;
    let slope = p.slope;
    &&& value(y.zero()) == x.zero()
    &&& slope(y.zero()) == x.zero()
    &&& forall|a: D, b: D| #[trigger]
        value(y.plus(a, b)) == x.plus(value(a), value(b))
    &&& forall|a: D, b: D| #[trigger]
        slope(y.plus(a, b)) == x.plus(slope(a), slope(b))
    &&& forall|a: D, b: D| #[trigger]
        value(y.minus(a, b)) == x.minus(value(a), value(b))
    &&& forall|a: D, b: D| #[trigger]
        slope(y.minus(a, b)) == x.minus(slope(a), slope(b))
    &&& forall|a: D, b: D| #[trigger]
        value(y.times(a, b)) == x.times(value(a), value(b))
    &&& forall|a: D, b: D| #[trigger]
        slope(y.times(a, b)) == x.plus(
            x.times(slope(a), value(b)),
            x.times(value(a), slope(b)),
        )
}

pub(crate) proof fn lemma_total_changes<
    T: Copy,
    F: Fn(ScalarOp, T, T) -> T,
    C: Fn(Number) -> T,
    Z: Fn(Relation, T, T) -> bool,
    D: Copy,
    F2: Fn(ScalarOp, D, D) -> D,
    C2: Fn(Number) -> D,
    Z2: Fn(Relation, D, D) -> bool,
>(
    x: &Scalars<T, F, C, Z>,
    y: &Scalars<D, F2, C2, Z2>,
    p: Dual<D, T>,
    n: nat,
    f: spec_fn(int) -> D,
    v: spec_fn(int) -> T,
    s: spec_fn(int) -> T,
)
    requires
        changes(x, y, p),
        forall|i: int| 0 <= i < n ==> #[trigger] v(i) == (p.value)(f(i)),
        forall|i: int| 0 <= i < n ==> #[trigger] s(i) == (p.slope)(f(i)),
    ensures
        (p.value)(y.gathered(y.zero(), n, f)) == x.gathered(x.zero(), n, v),
        (p.slope)(y.gathered(y.zero(), n, f)) == x.gathered(x.zero(), n, s),
    decreases n,
{
    if n > 0 {
        lemma_total_changes(x, y, p, (n - 1) as nat, f, v, s);
        assert(v(n - 1) == (p.value)(f(n - 1)));
        assert(s(n - 1) == (p.slope)(f(n - 1)));
    }
}

/// The state in changing numbers: its values are the states of the values.
pub(crate) proof fn lemma_state_values<
    T: Copy,
    F: Fn(ScalarOp, T, T) -> T,
    C: Fn(Number) -> T,
    Z: Fn(Relation, T, T) -> bool,
    D: Copy,
    F2: Fn(ScalarOp, D, D) -> D,
    C2: Fn(Number) -> D,
    Z2: Fn(Relation, D, D) -> bool,
>(
    x: &Scalars<T, F, C, Z>,
    y: &Scalars<D, F2, C2, Z2>,
    p: Dual<D, T>,
    dk: nat,
    dv: nat,
    t: nat,
    rows: HeadRows<D>,
    n: nat,
)
    requires
        changes(x, y, p),
        rows.wf(t, dk, dv),
        n <= t,
    ensures
        shaped(y.serial_state(dk, dv, rows, y.blank(dk, dv), n), dk, dv),
        p.values(y.serial_state(dk, dv, rows, y.blank(dk, dv), n)) == x.serial_state(
            dk,
            dv,
            p.head_values(rows),
            x.blank(dk, dv),
            n,
        ),
    decreases n,
{
    let blank = y.blank(dk, dv);
    let state = y.serial_state(dk, dv, rows, blank, n);
    let vals = p.head_values(rows);
    let want = x.serial_state(dk, dv, vals, x.blank(dk, dv), n);
    if n == 0 {
        assert(p.values(state) =~~= want);
    } else {
        let m = (n - 1) as nat;
        let s = n - 1;
        lemma_state_values(x, y, p, dk, dv, t, rows, m);
        let before = y.serial_state(dk, dv, rows, blank, m);
        let before_x = x.serial_state(dk, dv, vals, x.blank(dk, dv), m);
        let kept = y.decayed(dk, dv, before, rows.alpha[s]);
        let kept_x = x.decayed(dk, dv, before_x, vals.alpha[s]);
        assert forall|i: int, j: int| 0 <= i < dk && 0 <= j < dv implies (p.value)(
            #[trigger] kept[i][j],
        ) == kept_x[i][j] by {
            assert(before_x[i][j] == (p.value)(before[i][j]));
        }
        assert forall|i: int, j: int| 0 <= i < dk && 0 <= j < dv implies (p.value)(
            #[trigger] state[i][j],
        ) == want[i][j] by {
            let f = |i: int| y.times(y.times(rows.b[s][i], rows.k[s][i]), kept[i][j]);
            let v = |i: int| x.times(x.times(vals.b[s][i], vals.k[s][i]), kept_x[i][j]);
            assert forall|i: int| 0 <= i < dk implies #[trigger] v(i) == (p.value)(f(i)) by {
                assert((p.value)(kept[i][j]) == kept_x[i][j]);
            }
            lemma_total_changes(x, y, p, dk, f, v, |i: int| (p.slope)(f(i)));
            assert((p.value)(kept[i][j]) == kept_x[i][j]);
        }
        assert(p.values(state) =~~= want);
    }
}

/// One token in changing numbers: the slopes of the state after it and of its
/// output.
proof fn lemma_token_slopes<
    T: Copy,
    F: Fn(ScalarOp, T, T) -> T,
    C: Fn(Number) -> T,
    Z: Fn(Relation, T, T) -> bool,
    D: Copy,
    F2: Fn(ScalarOp, D, D) -> D,
    C2: Fn(Number) -> D,
    Z2: Fn(Relation, D, D) -> bool,
>(
    x: &Scalars<T, F, C, Z>,
    y: &Scalars<D, F2, C2, Z2>,
    p: Dual<D, T>,
    dk: nat,
    dv: nat,
    t: nat,
    rows: HeadRows<D>,
    up: Seq<Seq<T>>,
    s: int,
)
    requires
        changes(x, y, p),
        rows.wf(t, dk, dv),
        0 <= s < t,
    ensures
        ({
            let blank = y.blank(dk, dv);
            let before = y.serial_state(dk, dv, rows, blank, s as nat);
            let after = y.serial_state(dk, dv, rows, blank, (s + 1) as nat);
            let out = y.serial_output(dk, dv, rows, blank, s);
            let c = x.back_at(dk, dv, p.head_values(rows), up, t, s);
            let d = TokenTurn {
                rows: p.token_slopes(rows, s),
                before: p.table_slopes(before),
            };
            &&& forall|i: int, j: int|
                0 <= i < dk && 0 <= j < dv ==> (p.slope)(#[trigger] after[i][j]) == x.after_turn(
                    dk,
                    dv,
                    c,
                    d,
                    i,
                    j,
                )
            &&& forall|j: int|
                0 <= j < dv ==> (p.slope)(#[trigger] out[j]) == x.out_turn(dk, dv, c, d, j)
        }),
{
    let blank = y.blank(dk, dv);
    let before = y.serial_state(dk, dv, rows, blank, s as nat);
    let after = y.serial_state(dk, dv, rows, blank, (s + 1) as nat);
    let out = y.serial_output(dk, dv, rows, blank, s);
    let vals = p.head_values(rows);
    let c = x.back_at(dk, dv, vals, up, t, s);
    let d = TokenTurn { rows: p.token_slopes(rows, s), before: p.table_slopes(before) };
    lemma_state_values(x, y, p, dk, dv, t, rows, s as nat);
    lemma_state_values(x, y, p, dk, dv, t, rows, (s + 1) as nat);
    let kept = y.decayed(dk, dv, before, rows.alpha[s]);
    let kept_x = x.decayed(dk, dv, c.before, c.alpha);
    assert forall|i: int, j: int| 0 <= i < dk && 0 <= j < dv implies (p.value)(
        #[trigger] kept[i][j],
    ) == kept_x[i][j] && kept_x[i][j] == x.times(c.alpha[i], c.before[i][j]) && (p.slope)(
        kept[i][j],
    ) == x.kept_turn(c, d, i, j) by {
        assert(c.before[i][j] == (p.value)(before[i][j]));
        assert(d.before[i][j] == (p.slope)(before[i][j]));
    }
    assert forall|i: int, j: int| 0 <= i < dk && 0 <= j < dv implies (p.slope)(
        #[trigger] after[i][j],
    ) == x.after_turn(dk, dv, c, d, i, j) by {
        let f = |i: int| y.times(y.times(rows.b[s][i], rows.k[s][i]), kept[i][j]);
        let v = |i: int| x.times(x.times(c.b[i], c.k[i]), kept_x[i][j]);
        let g = |i: int|
            x.product_turn(
                x.times(c.b[i], c.k[i]),
                x.erased_turn(c, d, i),
                x.times(c.alpha[i], c.before[i][j]),
                x.kept_turn(c, d, i, j),
            );
        assert forall|i: int| 0 <= i < dk implies #[trigger] v(i) == (p.value)(f(i)) by {
            assert((p.value)(kept[i][j]) == kept_x[i][j]);
        }
        assert forall|i: int| 0 <= i < dk implies #[trigger] g(i) == (p.slope)(f(i)) by {
            assert((p.value)(kept[i][j]) == kept_x[i][j]);
        }
        lemma_total_changes(x, y, p, dk, f, v, g);
        assert((p.value)(kept[i][j]) == kept_x[i][j]);
        let off = y.correction(
            dk,
            kept,
            rows.k[s],
            rows.v[s],
            rows.b[s],
            rows.w[s],
            j,
        );
        assert((p.value)(off) == x.off(dk, dv, c, j));
        assert((p.slope)(off) == x.off_turn(dk, c, d, j));
    }
    assert forall|j: int| 0 <= j < dv implies (p.slope)(#[trigger] out[j]) == x.out_turn(
        dk,
        dv,
        c,
        d,
        j,
    ) by {
        let f = |i: int| y.times(rows.q[s][i], after[i][j]);
        let g = |i: int|
            x.product_turn(
                c.q[i],
                d.rows.q[i],
                c.after[i][j],
                x.after_turn(dk, dv, c, d, i, j),
            );
        assert forall|i: int| 0 <= i < dk implies #[trigger] g(i) == (p.slope)(f(i)) by {
            assert((p.slope)(after[i][j]) == x.after_turn(dk, dv, c, d, i, j));
            assert(c.after[i][j] == (p.value)(after[i][j]));
        }
        lemma_total_changes(x, y, p, dk, f, |i: int| (p.value)(f(i)), g);
    }
}

/// What the slopes carried back to token `m` weigh the slope of the state there
/// to.
spec fn carried_at<
    T: Copy,
    F: Fn(ScalarOp, T, T) -> T,
    C: Fn(Number) -> T,
    Z: Fn(Relation, T, T) -> bool,
    D: Copy,
    F2: Fn(ScalarOp, D, D) -> D,
    C2: Fn(Number) -> D,
    Z2: Fn(Relation, D, D) -> bool,
>(
    x: &Scalars<T, F, C, Z>,
    y: &Scalars<D, F2, C2, Z2>,
    p: Dual<D, T>,
    dk: nat,
    dv: nat,
    t: nat,
    rows: HeadRows<D>,
    up: Seq<Seq<T>>,
    m: nat,
) -> T {
    x.table_paired(
        dk,
        dv,
        x.carried_slope(dk, dv, p.head_values(rows), up, t, (t - m) as nat),
        p.table_slopes(y.serial_state(dk, dv, rows, y.blank(dk, dv), m)),
    )
}

/// The weighed slope of the output of token `s`.
pub open spec fn output_slope<
    T: Copy,
    F: Fn(ScalarOp, T, T) -> T,
    C: Fn(Number) -> T,
    Z: Fn(Relation, T, T) -> bool,
    D: Copy,
    F2: Fn(ScalarOp, D, D) -> D,
    C2: Fn(Number) -> D,
    Z2: Fn(Relation, D, D) -> bool,
>(
    x: &Scalars<T, F, C, Z>,
    y: &Scalars<D, F2, C2, Z2>,
    p: Dual<D, T>,
    dk: nat,
    dv: nat,
    rows: HeadRows<D>,
    up: Seq<Seq<T>>,
    s: int,
) -> T {
    x.paired(dv, up[s], p.slopes(y.serial_output(dk, dv, rows, y.blank(dk, dv), s)))
}

/// What the gradients of token `s` weigh the slopes of its inputs to.
pub open spec fn input_slope<
    T: Copy,
    F: Fn(ScalarOp, T, T) -> T,
    C: Fn(Number) -> T,
    Z: Fn(Relation, T, T) -> bool,
    D: Copy,
>(
    x: &Scalars<T, F, C, Z>,
    p: Dual<D, T>,
    dk: nat,
    dv: nat,
    t: nat,
    rows: HeadRows<D>,
    up: Seq<Seq<T>>,
    s: int,
) -> T {
    x.earned(
        dk,
        dv,
        x.back_at(dk, dv, p.head_values(rows), up, t, s),
        p.token_slopes(rows, s),
    )
}

proof fn lemma_token_carries<
    T: Copy,
    F: Fn(ScalarOp, T, T) -> T,
    C: Fn(Number) -> T,
    Z: Fn(Relation, T, T) -> bool,
    D: Copy,
    F2: Fn(ScalarOp, D, D) -> D,
    C2: Fn(Number) -> D,
    Z2: Fn(Relation, D, D) -> bool,
>(
    x: &Scalars<T, F, C, Z>,
    y: &Scalars<D, F2, C2, Z2>,
    p: Dual<D, T>,
    dk: nat,
    dv: nat,
    t: nat,
    rows: HeadRows<D>,
    up: Seq<Seq<T>>,
    s: int,
)
    requires
        x.ring(),
        changes(x, y, p),
        rows.wf(t, dk, dv),
        0 <= s < t,
    ensures
        x.plus(
            output_slope(x, y, p, dk, dv, rows, up, s),
            carried_at(x, y, p, dk, dv, t, rows, up, (s + 1) as nat),
        ) == x.plus(
            input_slope(x, p, dk, dv, t, rows, up, s),
            carried_at(x, y, p, dk, dv, t, rows, up, s as nat),
        ),
{
    let blank = y.blank(dk, dv);
    let before = y.serial_state(dk, dv, rows, blank, s as nat);
    let after = y.serial_state(dk, dv, rows, blank, (s + 1) as nat);
    let out = y.serial_output(dk, dv, rows, blank, s);
    let c = x.back_at(dk, dv, p.head_values(rows), up, t, s);
    let d = TokenTurn { rows: p.token_slopes(rows, s), before: p.table_slopes(before) };
    lemma_token_slopes(x, y, p, dk, dv, t, rows, up, s);
    lemma_state_values(x, y, p, dk, dv, t, rows, (s + 1) as nat);
    x.token_turn(dk, dv, c, d);
    let slopes = p.slopes(out);
    x.lemma_gathered_same(
        x.zero(),
        dv,
        |j: int| x.times(up[s][j], slopes[j]),
        |j: int| x.times(c.up[j], x.out_turn(dk, dv, c, d, j)),
    );
    let turned = p.table_slopes(after);
    assert forall|i: int, j: int| 0 <= i < dk && 0 <= j < dv implies turned[i][j]
        == x.after_turn(dk, dv, c, d, i, j) by {
        assert(turned[i][j] == (p.slope)(after[i][j]));
    }
    let carried = c.carried;
    x.table_same(
        dk,
        dv,
        |i: int, j: int| x.times(carried[i][j], turned[i][j]),
        |i: int, j: int| x.times(c.carried[i][j], x.after_turn(dk, dv, c, d, i, j)),
    );
    assert(x.before_slope(dk, dv, c) == x.carried_slope(
        dk,
        dv,
        p.head_values(rows),
        up,
        t,
        (t - s) as nat,
    ));
}

proof fn lemma_slopes_meet<
    T: Copy,
    F: Fn(ScalarOp, T, T) -> T,
    C: Fn(Number) -> T,
    Z: Fn(Relation, T, T) -> bool,
    D: Copy,
    F2: Fn(ScalarOp, D, D) -> D,
    C2: Fn(Number) -> D,
    Z2: Fn(Relation, D, D) -> bool,
>(
    x: &Scalars<T, F, C, Z>,
    y: &Scalars<D, F2, C2, Z2>,
    p: Dual<D, T>,
    dk: nat,
    dv: nat,
    t: nat,
    rows: HeadRows<D>,
    up: Seq<Seq<T>>,
    n: nat,
    outs: spec_fn(int) -> T,
    ins: spec_fn(int) -> T,
)
    requires
        x.ring(),
        changes(x, y, p),
        rows.wf(t, dk, dv),
        n <= t,
        forall|s: int| #[trigger] outs(s) == output_slope(x, y, p, dk, dv, rows, up, s),
        forall|s: int| #[trigger] ins(s) == input_slope(x, p, dk, dv, t, rows, up, s),
    ensures
        ({
            let m = (t - n) as nat;
            x.plus(x.total(t, outs), x.total(m, ins)) == x.plus(
                x.plus(x.total(m, outs), carried_at(x, y, p, dk, dv, t, rows, up, m)),
                x.total(t, ins),
            )
        }),
    decreases n,
{
    let all_out = x.total(t, outs);
    let all_in = x.total(t, ins);
    if n == 0 {
        let state = p.table_slopes(y.serial_state(dk, dv, rows, y.blank(dk, dv), t));
        let none = x.carried_slope(dk, dv, p.head_values(rows), up, t, 0);
        let cell = |i: int, j: int| x.times(none[i][j], state[i][j]);
        let by_row = |i: int| x.total(dv, |j: int| cell(i, j));
        assert forall|i: int| 0 <= i < dk implies #[trigger] by_row(i) == x.zero() by {
            assert forall|j: int| 0 <= j < dv implies #[trigger] cell(i, j) == x.zero() by {
                x.times_zero(state[i][j]);
            }
            x.gathered_nothing(dv, |j: int| cell(i, j));
        }
        x.gathered_nothing(dk, by_row);
        assert(carried_at(x, y, p, dk, dv, t, rows, up, t) == x.zero());
        x.plus_zero(all_out);
    } else {
        let m = (t - n) as nat;
        let s = t - n;
        lemma_slopes_meet(x, y, p, dk, dv, t, rows, up, (n - 1) as nat, outs, ins);
        lemma_token_carries(x, y, p, dk, dv, t, rows, up, s);
        let lo = x.total(m, outs);
        let li = x.total(m, ins);
        let (o, e) = (outs(s), ins(s));
        let here = carried_at(x, y, p, dk, dv, t, rows, up, m);
        let next = carried_at(x, y, p, dk, dv, t, rows, up, (m + 1) as nat);
        assert(x.total((m + 1) as nat, outs) == x.plus(lo, o));
        assert(x.total((m + 1) as nat, ins) == x.plus(li, e));
        // all_out + (li + e) == ((lo + o) + next) + all_in
        x.plus_assoc(lo, o, next);
        // lo + (e + here) == (lo + here) + e
        x.plus_comm(e, here);
        x.plus_assoc(lo, here, e);
        x.plus_assoc(all_out, li, e);
        x.plus_swap(x.plus(lo, here), e, all_in);
        x.plus_cancel(
            x.plus(all_out, li),
            x.plus(x.plus(lo, here), all_in),
            e,
        );
    }
}

/// The gradients are gradients: let the inputs of a head change, and the
/// outputs change by what the gradients weigh those changes to. Whatever slopes
/// the inputs have, the slope of the outputs, each weighed by `up`, is the sum
/// of the slopes of the inputs, each weighed by its gradient.
pub proof fn law_backward_is_gradient<
    T: Copy,
    F: Fn(ScalarOp, T, T) -> T,
    C: Fn(Number) -> T,
    Z: Fn(Relation, T, T) -> bool,
    D: Copy,
    F2: Fn(ScalarOp, D, D) -> D,
    C2: Fn(Number) -> D,
    Z2: Fn(Relation, D, D) -> bool,
>(
    x: &Scalars<T, F, C, Z>,
    y: &Scalars<D, F2, C2, Z2>,
    p: Dual<D, T>,
    dk: nat,
    dv: nat,
    t: nat,
    rows: HeadRows<D>,
    up: Seq<Seq<T>>,
)
    requires
        x.ring(),
        changes(x, y, p),
        rows.wf(t, dk, dv),
    ensures
        x.total(t, |s: int| output_slope(x, y, p, dk, dv, rows, up, s)) == x.total(
            t,
            |s: int| input_slope(x, p, dk, dv, t, rows, up, s),
        ),
{
    let outs = |s: int| output_slope(x, y, p, dk, dv, rows, up, s);
    let ins = |s: int| input_slope(x, p, dk, dv, t, rows, up, s);
    lemma_slopes_meet(x, y, p, dk, dv, t, rows, up, t, outs, ins);
    let slopes = x.carried_slope(dk, dv, p.head_values(rows), up, t, t);
    let blank = p.table_slopes(y.blank(dk, dv));
    let cell = |i: int, j: int| x.times(slopes[i][j], blank[i][j]);
    let by_row = |i: int| x.total(dv, |j: int| cell(i, j));
    assert forall|i: int| 0 <= i < dk implies #[trigger] by_row(i) == x.zero() by {
        assert forall|j: int| 0 <= j < dv implies #[trigger] cell(i, j) == x.zero() by {
            assert(blank[i][j] == x.zero());
            x.times_zero(slopes[i][j]);
        }
        x.gathered_nothing(dv, |j: int| cell(i, j));
    }
    x.gathered_nothing(dk, by_row);
    assert(carried_at(x, y, p, dk, dv, t, rows, up, 0) == x.zero());
    x.plus_zero(x.zero());
    x.plus_zero(x.total(t, outs));
    x.plus_zero(x.total(t, ins));
}

} // verus!
