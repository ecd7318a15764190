//! The gradients of the gated delta recurrence, token by token from the last to
//! the first.

use crate::gla::{
    blank_state, correction_row, covers, decay_rows, engrave_rows, head_rows, HeadRows,
};
use crate::scalar::{cells, fill_row, fill_table, grid, shaped, Number, Relation, ScalarOp, Scalars};
use vstd::prelude::*;

verus! {

/// The gradients of one sequence, ordered as the inputs are: by head, then by
/// token.
#[derive(Debug, Clone)]
pub struct Gdn2Grads<T> {
    pub dq: Vec<Vec<Vec<T>>>,
    pub dk: Vec<Vec<Vec<T>>>,
    pub dalpha: Vec<Vec<Vec<T>>>,
    pub db: Vec<Vec<Vec<T>>>,
    pub dv: Vec<Vec<Vec<T>>>,
    pub dw: Vec<Vec<Vec<T>>>,
}

/// What a token is weighed by when it is gone back over.
pub struct TokenBack<T> {
    /// The token's row of each input.
    pub q: Seq<T>,
    pub k: Seq<T>,
    pub v: Seq<T>,
    pub alpha: Seq<T>,
    pub b: Seq<T>,
    pub w: Seq<T>,
    /// The state before the token, and after it.
    pub before: Seq<Seq<T>>,
    pub after: Seq<Seq<T>>,
    /// The slope of what follows in the state, and that of the token's output.
    pub carried: Seq<Seq<T>>,
    pub up: Seq<T>,
}

impl<T: Copy, F: Fn(ScalarOp, T, T) -> T, C: Fn(Number) -> T, Z: Fn(Relation, T, T) -> bool> Scalars<T, F, C, Z> {
    /// The slope in the state after the token.
    pub open spec fn post_slope(&self, dk: nat, dv: nat, c: TokenBack<T>) -> Seq<Seq<T>> {
        cells(
            dk,
            dv,
            |i: int, j: int| self.plus(c.carried[i][j], self.times(c.q[i], c.up[j])),
        )
    }

    /// The slope in the query.
    pub open spec fn q_slope(&self, dk: nat, dv: nat, c: TokenBack<T>) -> Seq<T> {
        Seq::new(
            dk,
            |i: int| self.gathered(self.zero(), dv, |j: int| self.times(c.after[i][j], c.up[j])),
        )
    }

    /// The slope in what the token writes.
    pub open spec fn write_slope(&self, dk: nat, dv: nat, c: TokenBack<T>) -> Seq<T> {
        let post = self.post_slope(dk, dv, c);
        Seq::new(
            dv,
            |j: int| self.gathered(self.zero(), dk, |i: int| self.times(post[i][j], c.k[i])),
        )
    }

    /// The slope in the write gate.
    pub open spec fn w_slope(&self, dk: nat, dv: nat, c: TokenBack<T>) -> Seq<T> {
        let dz = self.write_slope(dk, dv, c);
        Seq::new(dv, |j: int| self.times(dz[j], c.v[j]))
    }

    /// The slope in the value.
    pub open spec fn v_slope(&self, dk: nat, dv: nat, c: TokenBack<T>) -> Seq<T> {
        let dz = self.write_slope(dk, dv, c);
        Seq::new(dv, |j: int| self.times(dz[j], c.w[j]))
    }

    /// The slope in what the token reads.
    pub open spec fn read_slope(&self, dk: nat, dv: nat, c: TokenBack<T>) -> Seq<T> {
        let dz = self.write_slope(dk, dv, c);
        Seq::new(dv, |j: int| self.negated(dz[j]))
    }

    /// The slope in the decayed state.
    pub open spec fn kept_slope(&self, dk: nat, dv: nat, c: TokenBack<T>) -> Seq<Seq<T>> {
        let post = self.post_slope(dk, dv, c);
        let dr = self.read_slope(dk, dv, c);
        cells(
            dk,
            dv,
            |i: int, j: int|
                self.plus(post[i][j], self.times(self.times(c.b[i], c.k[i]), dr[j])),
        )
    }

    /// The slope in the erased key.
    pub open spec fn erase_slope(&self, dk: nat, dv: nat, c: TokenBack<T>) -> Seq<T> {
        let kept = self.decayed(dk, dv, c.before, c.alpha);
        let dr = self.read_slope(dk, dv, c);
        Seq::new(
            dk,
            |i: int| self.gathered(self.zero(), dv, |j: int| self.times(kept[i][j], dr[j])),
        )
    }

    /// The slope in the erase gate.
    pub open spec fn b_slope(&self, dk: nat, dv: nat, c: TokenBack<T>) -> Seq<T> {
        let de = self.erase_slope(dk, dv, c);
        Seq::new(dk, |i: int| self.times(de[i], c.k[i]))
    }

    /// The slope in the key: as far as it erases, then as far as it is written
    /// along.
    pub open spec fn k_slope(&self, dk: nat, dv: nat, c: TokenBack<T>) -> Seq<T> {
        let de = self.erase_slope(dk, dv, c);
        let post = self.post_slope(dk, dv, c);
        let kept = self.decayed(dk, dv, c.before, c.alpha);
        Seq::new(
            dk,
            |i: int|
                self.gathered(
                    self.times(de[i], c.b[i]),
                    dv,
                    |j: int|
                        self.times(
                            post[i][j],
                            self.correction(dk, kept, c.k, c.v, c.b, c.w, j),
                        ),
                ),
        )
    }

    /// The slope in the decay.
    pub open spec fn alpha_slope(&self, dk: nat, dv: nat, c: TokenBack<T>) -> Seq<T> {
        let ds = self.kept_slope(dk, dv, c);
        Seq::new(
            dk,
            |i: int| self.gathered(self.zero(), dv, |j: int| self.times(ds[i][j], c.before[i][j])),
        )
    }

    /// The slope in the state before the token.
    pub open spec fn before_slope(&self, dk: nat, dv: nat, c: TokenBack<T>) -> Seq<Seq<T>> {
        let ds = self.kept_slope(dk, dv, c);
        cells(dk, dv, |i: int, j: int| self.times(c.alpha[i], ds[i][j]))
    }

    /// What token `s` is weighed by, given the slope that its successors leave.
    pub open spec fn token_back(
        &self,
        dk: nat,
        dv: nat,
        rows: HeadRows<T>,
        up: Seq<Seq<T>>,
        s: int,
        carried: Seq<Seq<T>>,
    ) -> TokenBack<T> {
        TokenBack {
            q: rows.q[s],
            k: rows.k[s],
            v: rows.v[s],
            alpha: rows.alpha[s],
            b: rows.b[s],
            w: rows.w[s],
            before: self.serial_state(dk, dv, rows, self.blank(dk, dv), s as nat),
            after: self.serial_state(dk, dv, rows, self.blank(dk, dv), (s + 1) as nat),
            carried,
            up: up[s],
        }
    }

    /// The slope that the last `n` of `t` tokens leave in the state before them.
    pub open spec fn carried_slope(
        &self,
        dk: nat,
        dv: nat,
        rows: HeadRows<T>,
        up: Seq<Seq<T>>,
        t: nat,
        n: nat,
    ) -> Seq<Seq<T>>
        decreases n,
    {
        if n == 0 {
            self.blank(dk, dv)
        } else {
            let carried = self.carried_slope(dk, dv, rows, up, t, (n - 1) as nat);
            self.before_slope(dk, dv, self.token_back(dk, dv, rows, up, t - n, carried))
        }
    }

    /// What token `s` of `t` is weighed by.
    pub open spec fn back_at(
        &self,
        dk: nat,
        dv: nat,
        rows: HeadRows<T>,
        up: Seq<Seq<T>>,
        t: nat,
        s: int,
    ) -> TokenBack<T> {
        self.token_back(
            dk,
            dv,
            rows,
            up,
            s,
            self.carried_slope(dk, dv, rows, up, t, (t - s - 1) as nat),
        )
    }
}

/// The slopes of one token.
struct TokenSlopes<T> {
    q: Vec<T>,
    k: Vec<T>,
    alpha: Vec<T>,
    b: Vec<T>,
    v: Vec<T>,
    w: Vec<T>,
    before: Vec<Vec<T>>,
}

/// Goes back over one token.
fn token_slopes<
    T: Copy,
    F: Fn(ScalarOp, T, T) -> T,
    C: Fn(Number) -> T,
    Z: Fn(Relation, T, T) -> bool,
>(
    x: &Scalars<T, F, C, Z>,
    q: &[T],
    k: &[T],
    v: &[T],
    alpha: &[T],
    b: &[T],
    w: &[T],
    before: &Vec<Vec<T>>,
    after: &Vec<Vec<T>>,
    carried: &Vec<Vec<T>>,
    up: &[T],
    Ghost(back): Ghost<TokenBack<T>>,
) -> (r: TokenSlopes<T>)
    requires
        x.wf(),
        back == (TokenBack {
            q: q@,
            k: k@,
            v: v@,
            alpha: alpha@,
            b: b@,
            w: w@,
            before: grid(before@),
            after: grid(after@),
            carried: grid(carried@),
            up: up@,
        }),
        k@.len() == q@.len(),
        alpha@.len() == q@.len(),
        b@.len() == q@.len(),
        w@.len() == v@.len(),
        up@.len() == v@.len(),
        shaped(grid(before@), q@.len(), v@.len()),
        shaped(grid(after@), q@.len(), v@.len()),
        shaped(grid(carried@), q@.len(), v@.len()),
    ensures
        r.q@ == x.q_slope(q@.len(), v@.len(), back),
        r.k@ == x.k_slope(q@.len(), v@.len(), back),
        r.alpha@ == x.alpha_slope(q@.len(), v@.len(), back),
        r.b@ == x.b_slope(q@.len(), v@.len(), back),
        r.v@ == x.v_slope(q@.len(), v@.len(), back),
        r.w@ == x.w_slope(q@.len(), v@.len(), back),
        grid(r.before@) == x.before_slope(q@.len(), v@.len(), back),
{
    let dk: usize = q.len();
    let dv: usize = v.len();
    let ghost dks = dk as nat;
    let ghost dvs = dv as nat;
    let ghost prev = grid(before@);
    let ghost next = grid(after@);
    let ghost tail = grid(carried@);
    let kept = decay_rows(x, before, alpha, dv);
    let off = correction_row(x, &kept, k, v, b, w);
    let ghost held = grid(kept@);
    let ghost post_cell = |i: int, j: int| x.plus(tail[i][j], x.times(q@[i], up@[j]));
    let post = fill_table(
        dk,
        dv,
        |i: usize, j: usize| -> (o: T)
            requires
                i < dk,
                j < dv,
            ensures
                o == post_cell(i as int, j as int)
            {
                assert(tail[i as int].len() == dv);
                x.plus(carried[i][j], x.times(q[i], up[j]))
            },
        Ghost(post_cell),
    );
    let ghost ps = grid(post@);
    proof {
        assert(ps =~~= x.post_slope(dks, dvs, back));
    }
    let ghost dq_cell = |i: int| x.gathered(x.zero(), dvs, |j: int| x.times(next[i][j], up@[j]));
    let dq = fill_row(
        dk,
        |i: usize| -> (o: T)
            requires
                i < dk,
            ensures
                o == dq_cell(i as int)
            {
                let ghost term = |j: int| x.times(next[i as int][j], up@[j]);
                x.gather(
                    x.zero(),
                    dv,
                    |j: usize| -> (o: T)
                        requires
                            j < dv,
                        ensures
                            o == term(j as int)
                        {
                        assert(next[i as int].len() == dv);
                            x.times(after[i][j], up[j])
                        },
                    Ghost(term),
                )
            },
        Ghost(dq_cell),
    );
    let ghost dz_cell = |j: int| x.gathered(x.zero(), dks, |i: int| x.times(ps[i][j], k@[i]));
    let dz = fill_row(
        dv,
        |j: usize| -> (o: T)
            requires
                j < dv,
            ensures
                o == dz_cell(j as int)
            {
                let ghost term = |i: int| x.times(ps[i][j as int], k@[i]);
                x.gather(
                    x.zero(),
                    dk,
                    |i: usize| -> (o: T)
                        requires
                            i < dk,
                        ensures
                            o == term(i as int)
                        {
                            x.times(post[i][j], k[i])
                        },
                    Ghost(term),
                )
            },
        Ghost(dz_cell),
    );
    proof {
        assert(dq@ =~= x.q_slope(dks, dvs, back));
        assert(dz@ =~= x.write_slope(dks, dvs, back));
    }
    let ghost dzs = dz@;
    let ghost dw_cell = |j: int| x.times(dzs[j], v@[j]);
    let dw = fill_row(
        dv,
        |j: usize| -> (o: T)
            requires
                j < dv,
            ensures
                o == dw_cell(j as int)
            {
                x.times(dz[j], v[j])
            },
        Ghost(dw_cell),
    );
    let ghost dvs_row_cell = |j: int| x.times(dzs[j], w@[j]);
    let dvs_row = fill_row(
        dv,
        |j: usize| -> (o: T)
            requires
                j < dv,
            ensures
                o == dvs_row_cell(j as int)
            {
                x.times(dz[j], w[j])
            },
        Ghost(dvs_row_cell),
    );
    let ghost dr_cell = |j: int| x.negated(dzs[j]);
    let dr = fill_row(
        dv,
        |j: usize| -> (o: T)
            requires
                j < dv,
            ensures
                o == dr_cell(j as int)
            {
                x.negated(dz[j])
            },
        Ghost(dr_cell),
    );
    let ghost drs = dr@;
    proof {
        assert(dw@ =~= x.w_slope(dks, dvs, back));
        assert(dvs_row@ =~= x.v_slope(dks, dvs, back));
        assert(drs =~= x.read_slope(dks, dvs, back));
    }
    let ghost ds_cell = |i: int, j: int|
        x.plus(ps[i][j], x.times(x.times(b@[i], k@[i]), drs[j]));
    let ds = fill_table(
        dk,
        dv,
        |i: usize, j: usize| -> (o: T)
            requires
                i < dk,
                j < dv,
            ensures
                o == ds_cell(i as int, j as int)
            { x.plus(post[i][j], x.times(x.times(b[i], k[i]), dr[j])) },
        Ghost(ds_cell),
    );
    let ghost dss = grid(ds@);
    proof {
        assert(dss =~~= x.kept_slope(dks, dvs, back));
    }
    let ghost de_cell = |i: int| x.gathered(x.zero(), dvs, |j: int| x.times(held[i][j], drs[j]));
    let de = fill_row(
        dk,
        |i: usize| -> (o: T)
            requires
                i < dk,
            ensures
                o == de_cell(i as int)
            {
                let ghost term = |j: int| x.times(held[i as int][j], drs[j]);
                x.gather(
                    x.zero(),
                    dv,
                    |j: usize| -> (o: T)
                        requires
                            j < dv,
                        ensures
                            o == term(j as int)
                        {
                            x.times(kept[i][j], dr[j])
                        },
                    Ghost(term),
                )
            },
        Ghost(de_cell),
    );
    let ghost des = de@;
    proof {
        assert(des =~= x.erase_slope(dks, dvs, back));
    }
    let ghost db_cell = |i: int| x.times(des[i], k@[i]);
    let db = fill_row(
        dk,
        |i: usize| -> (o: T)
            requires
                i < dk,
            ensures
                o == db_cell(i as int)
            {
                x.times(de[i], k[i])
            },
        Ghost(db_cell),
    );
    let ghost dkey_cell = |i: int| x.gathered(x.times(des[i], b@[i]), dvs, |j: int| x.times(ps[i][j], x.correction(dks, held, k@, v@, b@, w@, j)));
    let dkey = fill_row(
        dk,
        |i: usize| -> (o: T)
            requires
                i < dk,
            ensures
                o == dkey_cell(i as int)
            {
                let ghost term = |j: int| x.times(ps[i as int][j], x.correction(dks, held, k@, v@, b@, w@, j));
                x.gather(
                    x.times(de[i], b[i]),
                    dv,
                    |j: usize| -> (o: T)
                        requires
                            j < dv,
                        ensures
                            o == term(j as int)
                        {
                        assert(off@[j as int] == x.correction(dks, held, k@, v@, b@, w@, j as int));
                            x.times(post[i][j], off[j])
                        },
                    Ghost(term),
                )
            },
        Ghost(dkey_cell),
    );
    let ghost dalpha_cell = |i: int| x.gathered(x.zero(), dvs, |j: int| x.times(dss[i][j], prev[i][j]));
    let dalpha = fill_row(
        dk,
        |i: usize| -> (o: T)
            requires
                i < dk,
            ensures
                o == dalpha_cell(i as int)
            {
                let ghost term = |j: int| x.times(dss[i as int][j], prev[i as int][j]);
                x.gather(
                    x.zero(),
                    dv,
                    |j: usize| -> (o: T)
                        requires
                            j < dv,
                        ensures
                            o == term(j as int)
                        {
                        assert(prev[i as int].len() == dv);
                            x.times(ds[i][j], before[i][j])
                        },
                    Ghost(term),
                )
            },
        Ghost(dalpha_cell),
    );
    let ghost back_cell = |i: int, j: int| x.times(alpha@[i], dss[i][j]);
    let back_rows = fill_table(
        dk,
        dv,
        |i: usize, j: usize| -> (o: T)
            requires
                i < dk,
                j < dv,
            ensures
                o == back_cell(i as int, j as int)
            { x.times(alpha[i], ds[i][j]) },
        Ghost(back_cell),
    );
    proof {
        assert(db@ =~= x.b_slope(dks, dvs, back));
        assert(dkey@ =~= x.k_slope(dks, dvs, back));
        assert(dalpha@ =~= x.alpha_slope(dks, dvs, back));
        assert(grid(back_rows@) =~~= x.before_slope(dks, dvs, back));
    }
    TokenSlopes { q: dq, k: dkey, alpha: dalpha, b: db, v: dvs_row, w: dw, before: back_rows }
}

impl<T: Copy, F: Fn(ScalarOp, T, T) -> T, C: Fn(Number) -> T, Z: Fn(Relation, T, T) -> bool> Scalars<T, F, C, Z> {
    /// The gradients hold every token's slopes, head by head.
    pub open spec fn back_result(
        &self,
        q: Seq<Vec<Vec<T>>>,
        k: Seq<Vec<Vec<T>>>,
        v: Seq<Vec<Vec<T>>>,
        alpha: Seq<Vec<Vec<T>>>,
        b: Seq<Vec<Vec<T>>>,
        w: Seq<Vec<Vec<T>>>,
        up: Seq<Vec<Vec<T>>>,
        heads: nat,
        dk: nat,
        dv: nat,
        g: Gdn2Grads<T>,
    ) -> bool {
        let t = q[0]@.len();
        &&& rows_at(
            g.dq@,
            heads,
            t,
            |h: int, s: int|
                self.q_slope(
                    dk,
                    dv,
                    self.back_at(dk, dv, head_rows(q, k, v, alpha, b, w, h), grid(up[h]@), t, s),
                ),
        )
        &&& rows_at(
            g.dk@,
            heads,
            t,
            |h: int, s: int|
                self.k_slope(
                    dk,
                    dv,
                    self.back_at(dk, dv, head_rows(q, k, v, alpha, b, w, h), grid(up[h]@), t, s),
                ),
        )
        &&& rows_at(
            g.dalpha@,
            heads,
            t,
            |h: int, s: int|
                self.alpha_slope(
                    dk,
                    dv,
                    self.back_at(dk, dv, head_rows(q, k, v, alpha, b, w, h), grid(up[h]@), t, s),
                ),
        )
        &&& rows_at(
            g.db@,
            heads,
            t,
            |h: int, s: int|
                self.b_slope(
                    dk,
                    dv,
                    self.back_at(dk, dv, head_rows(q, k, v, alpha, b, w, h), grid(up[h]@), t, s),
                ),
        )
        &&& rows_at(
            g.dv@,
            heads,
            t,
            |h: int, s: int|
                self.v_slope(
                    dk,
                    dv,
                    self.back_at(dk, dv, head_rows(q, k, v, alpha, b, w, h), grid(up[h]@), t, s),
                ),
        )
        &&& rows_at(
            g.dw@,
            heads,
            t,
            |h: int, s: int|
                self.w_slope(
                    dk,
                    dv,
                    self.back_at(dk, dv, head_rows(q, k, v, alpha, b, w, h), grid(up[h]@), t, s),
                ),
        )
    }
}

/// Every token of every head has its row.
pub open spec fn rows_at<T>(
    g: Seq<Vec<Vec<T>>>,
    heads: nat,
    t: nat,
    row: spec_fn(int, int) -> Seq<T>,
) -> bool {
    &&& g.len() == heads
    &&& forall|h: int| 0 <= h < heads ==> #[trigger] g[h]@.len() == t
    &&& forall|h: int, s: int| 0 <= h < heads && 0 <= s < t ==> #[trigger] g[h]@[s]@ == row(h, s)
}

/// The states that a head goes through, from one that holds nothing.
fn state_trace<
    T: Copy,
    F: Fn(ScalarOp, T, T) -> T,
    C: Fn(Number) -> T,
    Z: Fn(Relation, T, T) -> bool,
>(
    x: &Scalars<T, F, C, Z>,
    k: &Vec<Vec<T>>,
    v: &Vec<Vec<T>>,
    alpha: &Vec<Vec<T>>,
    b: &Vec<Vec<T>>,
    w: &Vec<Vec<T>>,
    t: usize,
    dk: usize,
    dv: usize,
    Ghost(rows): Ghost<HeadRows<T>>,
) -> (states: Vec<Vec<Vec<T>>>)
    requires
        x.wf(),
        rows.k == grid(k@),
        rows.v == grid(v@),
        rows.alpha == grid(alpha@),
        rows.b == grid(b@),
        rows.w == grid(w@),
        k@.len() >= t,
        v@.len() >= t,
        alpha@.len() >= t,
        b@.len() >= t,
        w@.len() >= t,
        forall|i: int| 0 <= i < t ==> #[trigger] k@[i]@.len() == dk,
        forall|i: int| 0 <= i < t ==> #[trigger] v@[i]@.len() == dv,
        forall|i: int| 0 <= i < t ==> #[trigger] alpha@[i]@.len() == dk,
        forall|i: int| 0 <= i < t ==> #[trigger] b@[i]@.len() == dk,
        forall|i: int| 0 <= i < t ==> #[trigger] w@[i]@.len() == dv,
    ensures
        states@.len() == t + 1,
        forall|n: int|
            0 <= n <= t ==> grid(#[trigger] states@[n]@) == x.serial_state(
                dk as nat,
                dv as nat,
                rows,
                x.blank(dk as nat, dv as nat),
                n as nat,
            ),
        forall|n: int| 0 <= n <= t ==> shaped(grid(#[trigger] states@[n]@), dk as nat, dv as nat),
{
    let ghost dks = dk as nat;
    let ghost dvs = dv as nat;
    let ghost blank = x.blank(dks, dvs);
    let mut states: Vec<Vec<Vec<T>>> = Vec::new();
    states.push(blank_state(x, dk, dv));
    for s in 0..t
        invariant
            x.wf(),
            dks == dk,
            dvs == dv,
            blank == x.blank(dks, dvs),
            rows.k == grid(k@),
            rows.v == grid(v@),
            rows.alpha == grid(alpha@),
            rows.b == grid(b@),
            rows.w == grid(w@),
            k@.len() >= t,
            v@.len() >= t,
            alpha@.len() >= t,
            b@.len() >= t,
            w@.len() >= t,
            forall|i: int| 0 <= i < t ==> #[trigger] k@[i]@.len() == dk,
            forall|i: int| 0 <= i < t ==> #[trigger] v@[i]@.len() == dv,
            forall|i: int| 0 <= i < t ==> #[trigger] alpha@[i]@.len() == dk,
            forall|i: int| 0 <= i < t ==> #[trigger] b@[i]@.len() == dk,
            forall|i: int| 0 <= i < t ==> #[trigger] w@[i]@.len() == dv,
            states@.len() == s + 1,
            forall|n: int|
                0 <= n <= s ==> grid(#[trigger] states@[n]@) == x.serial_state(
                    dks,
                    dvs,
                    rows,
                    blank,
                    n as nat,
                ),
            forall|n: int| 0 <= n <= s ==> shaped(grid(#[trigger] states@[n]@), dks, dvs),
    {
        let ghost prev = grid(states@[s as int]@);
        let kept = decay_rows(x, &states[s], alpha[s].as_slice(), dv);
        let off = correction_row(
            x,
            &kept,
            k[s].as_slice(),
            v[s].as_slice(),
            b[s].as_slice(),
            w[s].as_slice(),
        );
        let next = engrave_rows(x, &kept, k[s].as_slice(), off.as_slice());
        proof {
            assert(grid(next@) =~~= x.engraved(
                dks,
                dvs,
                prev,
                k@[s as int]@,
                v@[s as int]@,
                alpha@[s as int]@,
                b@[s as int]@,
                w@[s as int]@,
            ));
            assert(grid(next@) == x.serial_state(dks, dvs, rows, blank, (s + 1) as nat));
        }
        states.push(next);
    }
    states
}

/// Exact gradients of a sequence: every gate, key, query and value, given the
/// slope `up` in every output.
pub fn gdn2_backward<
    T: Copy,
    F: Fn(ScalarOp, T, T) -> T,
    C: Fn(Number) -> T,
    Z: Fn(Relation, T, T) -> bool,
>(
    x: &Scalars<T, F, C, Z>,
    q: &[Vec<Vec<T>>],
    k: &[Vec<Vec<T>>],
    v: &[Vec<Vec<T>>],
    alpha: &[Vec<Vec<T>>],
    b: &[Vec<Vec<T>>],
    w: &[Vec<Vec<T>>],
    up: &[Vec<Vec<T>>],
    heads: usize,
    dk: usize,
    dv: usize,
) -> (g: Gdn2Grads<T>)
    requires
        x.wf(),
        q@.len() > 0,
        covers(q@, heads as nat, q@[0]@.len(), dk as nat),
        covers(k@, heads as nat, q@[0]@.len(), dk as nat),
        covers(v@, heads as nat, q@[0]@.len(), dv as nat),
        covers(alpha@, heads as nat, q@[0]@.len(), dk as nat),
        covers(b@, heads as nat, q@[0]@.len(), dk as nat),
        covers(w@, heads as nat, q@[0]@.len(), dv as nat),
        covers(up@, heads as nat, q@[0]@.len(), dv as nat),
    ensures
        x.back_result(q@, k@, v@, alpha@, b@, w@, up@, heads as nat, dk as nat, dv as nat, g),
{
    let t: usize = q[0].len();
    let ghost dks = dk as nat;
    let ghost dvs = dv as nat;
    let ghost ts = t as nat;
    let mut dq_all: Vec<Vec<Vec<T>>> = Vec::new();
    let mut dk_all: Vec<Vec<Vec<T>>> = Vec::new();
    let mut dalpha_all: Vec<Vec<Vec<T>>> = Vec::new();
    let mut db_all: Vec<Vec<Vec<T>>> = Vec::new();
    let mut dv_all: Vec<Vec<Vec<T>>> = Vec::new();
    let mut dw_all: Vec<Vec<Vec<T>>> = Vec::new();
    for h in 0..heads
        invariant
            x.wf(),
            t == q@[0]@.len(),
            ts == t,
            dks == dk,
            dvs == dv,
            covers(q@, heads as nat, ts, dks),
            covers(k@, heads as nat, ts, dks),
            covers(v@, heads as nat, ts, dvs),
            covers(alpha@, heads as nat, ts, dks),
            covers(b@, heads as nat, ts, dks),
            covers(w@, heads as nat, ts, dvs),
            covers(up@, heads as nat, ts, dvs),
            rows_at(
                dq_all@,
                h as nat,
                ts,
                |h: int, s: int|
                    x.q_slope(
                        dks,
                        dvs,
                        x.back_at(
                            dks,
                            dvs,
                            head_rows(q@, k@, v@, alpha@, b@, w@, h),
                            grid(up@[h]@),
                            ts,
                            s,
                        ),
                    ),
            ),
            rows_at(
                dk_all@,
                h as nat,
                ts,
                |h: int, s: int|
                    x.k_slope(
                        dks,
                        dvs,
                        x.back_at(
                            dks,
                            dvs,
                            head_rows(q@, k@, v@, alpha@, b@, w@, h),
                            grid(up@[h]@),
                            ts,
                            s,
                        ),
                    ),
            ),
            rows_at(
                dalpha_all@,
                h as nat,
                ts,
                |h: int, s: int|
                    x.alpha_slope(
                        dks,
                        dvs,
                        x.back_at(
                            dks,
                            dvs,
                            head_rows(q@, k@, v@, alpha@, b@, w@, h),
                            grid(up@[h]@),
                            ts,
                            s,
                        ),
                    ),
            ),
            rows_at(
                db_all@,
                h as nat,
                ts,
                |h: int, s: int|
                    x.b_slope(
                        dks,
                        dvs,
                        x.back_at(
                            dks,
                            dvs,
                            head_rows(q@, k@, v@, alpha@, b@, w@, h),
                            grid(up@[h]@),
                            ts,
                            s,
                        ),
                    ),
            ),
            rows_at(
                dv_all@,
                h as nat,
                ts,
                |h: int, s: int|
                    x.v_slope(
                        dks,
                        dvs,
                        x.back_at(
                            dks,
                            dvs,
                            head_rows(q@, k@, v@, alpha@, b@, w@, h),
                            grid(up@[h]@),
                            ts,
                            s,
                        ),
                    ),
            ),
            rows_at(
                dw_all@,
                h as nat,
                ts,
                |h: int, s: int|
                    x.w_slope(
                        dks,
                        dvs,
                        x.back_at(
                            dks,
                            dvs,
                            head_rows(q@, k@, v@, alpha@, b@, w@, h),
                            grid(up@[h]@),
                            ts,
                            s,
                        ),
                    ),
            ),
    {
        let ghost rows = head_rows(q@, k@, v@, alpha@, b@, w@, h as int);
        let ghost ups = grid(up@[h as int]@);
        proof {
            assert forall|i: int| 0 <= i < t implies #[trigger] k@[h as int]@[i]@.len() == dk by {}
            assert forall|i: int| 0 <= i < t implies #[trigger] v@[h as int]@[i]@.len() == dv by {}
            assert forall|i: int| 0 <= i < t implies #[trigger] alpha@[h as int]@[i]@.len() == dk by {}
            assert forall|i: int| 0 <= i < t implies #[trigger] b@[h as int]@[i]@.len() == dk by {}
            assert forall|i: int| 0 <= i < t implies #[trigger] w@[h as int]@[i]@.len() == dv by {}
        }
        let states = state_trace(
            x,
            &k[h],
            &v[h],
            &alpha[h],
            &b[h],
            &w[h],
            t,
            dk,
            dv,
            Ghost(rows),
        );
        let mut carried = blank_state(x, dk, dv);
        let mut back: Vec<TokenSlopes<T>> = Vec::new();
        for n in 0..t
            invariant
                x.wf(),
                h < heads,
                ts == t,
                dks == dk,
                dvs == dv,
                covers(q@, heads as nat, ts, dks),
                covers(k@, heads as nat, ts, dks),
                covers(v@, heads as nat, ts, dvs),
                covers(alpha@, heads as nat, ts, dks),
                covers(b@, heads as nat, ts, dks),
                covers(w@, heads as nat, ts, dvs),
                covers(up@, heads as nat, ts, dvs),
                rows == head_rows(q@, k@, v@, alpha@, b@, w@, h as int),
                ups == grid(up@[h as int]@),
                states@.len() == t + 1,
                forall|n: int|
                    0 <= n <= t ==> grid(#[trigger] states@[n]@) == x.serial_state(
                        dks,
                        dvs,
                        rows,
                        x.blank(dks, dvs),
                        n as nat,
                    ),
                forall|n: int| 0 <= n <= t ==> shaped(grid(#[trigger] states@[n]@), dks, dvs),
                shaped(grid(carried@), dks, dvs),
                grid(carried@) == x.carried_slope(dks, dvs, rows, ups, ts, n as nat),
                back@.len() == n,
                forall|m: int|
                    0 <= m < n ==> has_slopes(
                        x,
                        dks,
                        dvs,
                        #[trigger] back@[m],
                        x.back_at(dks, dvs, rows, ups, ts, t - 1 - m),
                    ),
        {
            let s: usize = t - 1 - n;
            let ghost c = x.back_at(dks, dvs, rows, ups, ts, s as int);
            assert(q@[h as int]@[s as int]@.len() == dk);
            assert(k@[h as int]@[s as int]@.len() == dk);
            assert(v@[h as int]@[s as int]@.len() == dv);
            assert(alpha@[h as int]@[s as int]@.len() == dk);
            assert(b@[h as int]@[s as int]@.len() == dk);
            assert(w@[h as int]@[s as int]@.len() == dv);
            assert(up@[h as int]@[s as int]@.len() == dv);
            assert(grid(states@[s as int]@) == c.before);
            assert(grid(states@[s + 1]@) == c.after);
            let slopes = token_slopes(
                x,
                q[h][s].as_slice(),
                k[h][s].as_slice(),
                v[h][s].as_slice(),
                alpha[h][s].as_slice(),
                b[h][s].as_slice(),
                w[h][s].as_slice(),
                &states[s],
                &states[s + 1],
                &carried,
                up[h][s].as_slice(),
                Ghost(c),
            );
            let TokenSlopes { q: sq, k: sk, alpha: sa, b: sb, v: sv, w: sw, before } = slopes;
            carried = before;
            back.push(TokenSlopes {
                q: sq,
                k: sk,
                alpha: sa,
                b: sb,
                v: sv,
                w: sw,
                before: Vec::new(),
            });
        }
        let mut dq_head: Vec<Vec<T>> = Vec::new();
        let mut dk_head: Vec<Vec<T>> = Vec::new();
        let mut dalpha_head: Vec<Vec<T>> = Vec::new();
        let mut db_head: Vec<Vec<T>> = Vec::new();
        let mut dv_head: Vec<Vec<T>> = Vec::new();
        let mut dw_head: Vec<Vec<T>> = Vec::new();
        for s in 0..t
            invariant
                x.wf(),
                ts == t,
                dks == dk,
                dvs == dv,
                back@.len() == t - s,
                forall|m: int|
                    0 <= m < t - s ==> has_slopes(
                        x,
                        dks,
                        dvs,
                        #[trigger] back@[m],
                        x.back_at(dks, dvs, rows, ups, ts, t - 1 - m),
                    ),
                dq_head@.len() == s,
                forall|i: int|
                    0 <= i < s ==> #[trigger] dq_head@[i]@ == x.q_slope(
                        dks,
                        dvs,
                        x.back_at(dks, dvs, rows, ups, ts, i),
                    ),
                dk_head@.len() == s,
                forall|i: int|
                    0 <= i < s ==> #[trigger] dk_head@[i]@ == x.k_slope(
                        dks,
                        dvs,
                        x.back_at(dks, dvs, rows, ups, ts, i),
                    ),
                dalpha_head@.len() == s,
                forall|i: int|
                    0 <= i < s ==> #[trigger] dalpha_head@[i]@ == x.alpha_slope(
                        dks,
                        dvs,
                        x.back_at(dks, dvs, rows, ups, ts, i),
                    ),
                db_head@.len() == s,
                forall|i: int|
                    0 <= i < s ==> #[trigger] db_head@[i]@ == x.b_slope(
                        dks,
                        dvs,
                        x.back_at(dks, dvs, rows, ups, ts, i),
                    ),
                dv_head@.len() == s,
                forall|i: int|
                    0 <= i < s ==> #[trigger] dv_head@[i]@ == x.v_slope(
                        dks,
                        dvs,
                        x.back_at(dks, dvs, rows, ups, ts, i),
                    ),
                dw_head@.len() == s,
                forall|i: int|
                    0 <= i < s ==> #[trigger] dw_head@[i]@ == x.w_slope(
                        dks,
                        dvs,
                        x.back_at(dks, dvs, rows, ups, ts, i),
                    ),
        {
            if let Some(slopes) = back.pop() {
                assert(has_slopes(x, dks, dvs, slopes, x.back_at(dks, dvs, rows, ups, ts, s as int)));
                let TokenSlopes { q: sq, k: sk, alpha: sa, b: sb, v: sv, w: sw, before: _ } = slopes;
                dq_head.push(sq);
                dk_head.push(sk);
                dalpha_head.push(sa);
                db_head.push(sb);
                dv_head.push(sv);
                dw_head.push(sw);
            }
        }
        dq_all.push(dq_head);
        dk_all.push(dk_head);
        dalpha_all.push(dalpha_head);
        db_all.push(db_head);
        dv_all.push(dv_head);
        dw_all.push(dw_head);
    }
    Gdn2Grads { dq: dq_all, dk: dk_all, dalpha: dalpha_all, db: db_all, dv: dv_all, dw: dw_all }
}

/// The slopes are those of the token.
spec fn has_slopes<
    T: Copy,
    F: Fn(ScalarOp, T, T) -> T,
    C: Fn(Number) -> T,
    Z: Fn(Relation, T, T) -> bool,
>(x: &Scalars<T, F, C, Z>, dk: nat, dv: nat, s: TokenSlopes<T>, c: TokenBack<T>) -> bool {
    &&& s.q@ == x.q_slope(dk, dv, c)
    &&& s.k@ == x.k_slope(dk, dv, c)
    &&& s.alpha@ == x.alpha_slope(dk, dv, c)
    &&& s.b@ == x.b_slope(dk, dv, c)
    &&& s.v@ == x.v_slope(dk, dv, c)
    &&& s.w@ == x.w_slope(dk, dv, c)
}

} // verus!
