//! The gated delta recurrence: a state per head that decays, is read along a
//! gated key, and is corrected towards a gated value, token by token.

use crate::gla_chunks::{chunkwise, ChunkForm};
use crate::scalar::{cells, fill_row, fill_table, grid, shaped, Number, Relation, ScalarOp, Scalars};
use vstd::prelude::*;

verus! {

impl<T: Copy, F: Fn(ScalarOp, T, T) -> T, C: Fn(Number) -> T, Z: Fn(Relation, T, T) -> bool> Scalars<T, F, C, Z> {
    /// The state after its key channels have decayed.
    pub open spec fn decayed(&self, dk: nat, dv: nat, state: Seq<Seq<T>>, alpha: Seq<T>) -> Seq<
        Seq<T>,
    > {
        cells(dk, dv, |i: int, j: int| self.times(alpha[i], state[i][j]))
    }

    /// What the decayed state holds in value channel `j` under the erased key.
    pub open spec fn gated_read(
        &self,
        dk: nat,
        decayed: Seq<Seq<T>>,
        k: Seq<T>,
        b: Seq<T>,
        j: int,
    ) -> T {
        self.gathered(
            self.zero(),
            dk,
            |i: int| self.times(self.times(b[i], k[i]), decayed[i][j]),
        )
    }

    /// What value channel `j` is off by.
    pub open spec fn correction(
        &self,
        dk: nat,
        decayed: Seq<Seq<T>>,
        k: Seq<T>,
        v: Seq<T>,
        b: Seq<T>,
        w: Seq<T>,
        j: int,
    ) -> T {
        self.minus(self.times(w[j], v[j]), self.gated_read(dk, decayed, k, b, j))
    }

    /// The state after a token: decayed, then corrected along the key.
    pub open spec fn engraved(
        &self,
        dk: nat,
        dv: nat,
        state: Seq<Seq<T>>,
        k: Seq<T>,
        v: Seq<T>,
        alpha: Seq<T>,
        b: Seq<T>,
        w: Seq<T>,
    ) -> Seq<Seq<T>> {
        let kept = self.decayed(dk, dv, state, alpha);
        cells(
            dk,
            dv,
            |i: int, j: int|
                self.plus(kept[i][j], self.times(k[i], self.correction(dk, kept, k, v, b, w, j))),
        )
    }

    /// What a query reads off a state.
    pub open spec fn read_out(&self, dk: nat, dv: nat, state: Seq<Seq<T>>, q: Seq<T>) -> Seq<T> {
        Seq::new(
            dv,
            |j: int| self.gathered(self.zero(), dk, |i: int| self.times(q[i], state[i][j])),
        )
    }
}

/// Reads a state with a query.
fn query_state<
    T: Copy,
    F: Fn(ScalarOp, T, T) -> T,
    C: Fn(Number) -> T,
    Z: Fn(Relation, T, T) -> bool,
>(x: &Scalars<T, F, C, Z>, state: &Vec<Vec<T>>, q: &[T], dv: usize) -> (o: Vec<T>)
    requires
        x.wf(),
        shaped(grid(state@), q@.len(), dv as nat),
    ensures
        o@ == x.read_out(q@.len(), dv as nat, grid(state@), q@),
{
    let dk: usize = q.len();
    let ghost s = grid(state@);
    let ghost cell = |j: int|
        x.gathered(x.zero(), dk as nat, |i: int| x.times(q@[i], s[i][j]));
    fill_row(
        dv,
        |j: usize| -> (c: T)
            requires
                j < dv,
            ensures
                c == cell(j as int)
            {
                let ghost term = |i: int| x.times(q@[i], s[i][j as int]);
                x.gather(
                    x.zero(),
                    dk,
                    |i: usize| -> (c: T)
                        requires
                            i < dk,
                        ensures
                            c == term(i as int)
                        {
                            assert(s[i as int].len() == dv);
                            x.times(q[i], state[i][j])
                        },
                    Ghost(term),
                )
            },
        Ghost(cell),
    )
}

/// Decays every key channel of a state.
pub(crate) fn decay_rows<
    T: Copy,
    F: Fn(ScalarOp, T, T) -> T,
    C: Fn(Number) -> T,
    Z: Fn(Relation, T, T) -> bool,
>(x: &Scalars<T, F, C, Z>, state: &Vec<Vec<T>>, alpha: &[T], dv: usize) -> (kept: Vec<Vec<T>>)
    requires
        x.wf(),
        shaped(grid(state@), alpha@.len(), dv as nat),
    ensures
        kept@.len() == alpha@.len(),
        forall|i: int| 0 <= i < kept@.len() ==> #[trigger] kept@[i]@.len() == dv,
        grid(kept@) == x.decayed(alpha@.len(), dv as nat, grid(state@), alpha@),
{
    let dk: usize = alpha.len();
    let ghost s = grid(state@);
    let ghost cell = |i: int, j: int| x.times(alpha@[i], s[i][j]);
    let kept = fill_table(
        dk,
        dv,
        |i: usize, j: usize| -> (c: T)
            requires
                i < dk,
                j < dv,
            ensures
                c == cell(i as int, j as int)
            {
                assert(s[i as int].len() == dv);
                x.times(alpha[i], state[i][j])
            },
        Ghost(cell),
    );
    proof {
        assert(grid(kept@) =~~= x.decayed(dk as nat, dv as nat, s, alpha@));
    }
    kept
}

/// What every value channel is off by.
pub(crate) fn correction_row<
    T: Copy,
    F: Fn(ScalarOp, T, T) -> T,
    C: Fn(Number) -> T,
    Z: Fn(Relation, T, T) -> bool,
>(
    x: &Scalars<T, F, C, Z>,
    kept: &Vec<Vec<T>>,
    k: &[T],
    v: &[T],
    b: &[T],
    w: &[T],
) -> (off: Vec<T>)
    requires
        x.wf(),
        shaped(grid(kept@), k@.len(), v@.len()),
        b@.len() == k@.len(),
        w@.len() == v@.len(),
    ensures
        off@ == Seq::new(
            v@.len(),
            |j: int| x.correction(k@.len(), grid(kept@), k@, v@, b@, w@, j),
        ),
{
    let dk: usize = k.len();
    let dv: usize = v.len();
    let ghost s = grid(kept@);
    let ghost cell = |j: int| x.correction(dk as nat, s, k@, v@, b@, w@, j);
    let off = fill_row(
        dv,
        |j: usize| -> (c: T)
            requires
                j < dv,
            ensures
                c == cell(j as int)
            {
                let ghost term = |i: int| x.times(x.times(b@[i], k@[i]), s[i][j as int]);
                let read = x.gather(
                    x.zero(),
                    dk,
                    |i: usize| -> (c: T)
                        requires
                            i < dk,
                        ensures
                            c == term(i as int)
                        {
                            assert(s[i as int].len() == dv);
                            x.times(x.times(b[i], k[i]), kept[i][j])
                        },
                    Ghost(term),
                );
                x.minus(x.times(w[j], v[j]), read)
            },
        Ghost(cell),
    );
    proof {
        assert(off@ =~= Seq::new(
            v@.len(),
            |j: int| x.correction(k@.len(), grid(kept@), k@, v@, b@, w@, j),
        ));
    }
    off
}

/// Writes a correction into a state along the key.
pub(crate) fn engrave_rows<
    T: Copy,
    F: Fn(ScalarOp, T, T) -> T,
    C: Fn(Number) -> T,
    Z: Fn(Relation, T, T) -> bool,
>(x: &Scalars<T, F, C, Z>, kept: &Vec<Vec<T>>, k: &[T], off: &[T]) -> (next: Vec<Vec<T>>)
    requires
        x.wf(),
        shaped(grid(kept@), k@.len(), off@.len()),
    ensures
        next@.len() == k@.len(),
        forall|i: int| 0 <= i < next@.len() ==> #[trigger] next@[i]@.len() == off@.len(),
        grid(next@) == cells(
            k@.len(),
            off@.len(),
            |i: int, j: int| x.plus(grid(kept@)[i][j], x.times(k@[i], off@[j])),
        ),
{
    let dk: usize = k.len();
    let dv: usize = off.len();
    let ghost s = grid(kept@);
    let ghost cell = |i: int, j: int| x.plus(s[i][j], x.times(k@[i], off@[j]));
    let next = fill_table(
        dk,
        dv,
        |i: usize, j: usize| -> (c: T)
            requires
                i < dk,
                j < dv,
            ensures
                c == cell(i as int, j as int)
            {
                assert(s[i as int].len() == dv);
                x.plus(kept[i][j], x.times(k[i], off[j]))
            },
        Ghost(cell),
    );
    proof {
        assert(grid(next@) =~~= cells(
            k@.len(),
            off@.len(),
            |i: int, j: int| x.plus(grid(kept@)[i][j], x.times(k@[i], off@[j])),
        ));
    }
    next
}

/// One token of one head: the state decays, is corrected along the key, and is
/// read by the query.
pub fn gdn2_step<
    T: Copy,
    F: Fn(ScalarOp, T, T) -> T,
    C: Fn(Number) -> T,
    Z: Fn(Relation, T, T) -> bool,
>(
    x: &Scalars<T, F, C, Z>,
    state: &mut Vec<Vec<T>>,
    q: &[T],
    k: &[T],
    v: &[T],
    alpha: &[T],
    b: &[T],
    w: &[T],
) -> (o: Vec<T>)
    requires
        x.wf(),
        old(state)@.len() > 0,
        shaped(grid(old(state)@), q@.len(), v@.len()),
        k@.len() == q@.len(),
        alpha@.len() == q@.len(),
        b@.len() == q@.len(),
        w@.len() == v@.len(),
    ensures
        grid(final(state)@) == x.engraved(
            q@.len(),
            v@.len(),
            grid(old(state)@),
            k@,
            v@,
            alpha@,
            b@,
            w@,
        ),
        o@ == x.read_out(q@.len(), v@.len(), grid(final(state)@), q@),
{
    let dk: usize = q.len();
    let dv: usize = v.len();
    let ghost s = grid(state@);
    let kept = decay_rows(x, state, alpha, dv);
    let off = correction_row(x, &kept, k, v, b, w);
    let next = engrave_rows(x, &kept, k, off.as_slice());
    proof {
        assert(grid(next@) =~~= x.engraved(dk as nat, dv as nat, s, k@, v@, alpha@, b@, w@));
    }
    let o = query_state(x, &next, q, dv);
    *state = next;
    o
}

impl<T: Copy, F: Fn(ScalarOp, T, T) -> T, C: Fn(Number) -> T, Z: Fn(Relation, T, T) -> bool> Scalars<T, F, C, Z> {
    /// What the state holds in value channel `j` under the key.
    pub open spec fn plain_read(&self, dk: nat, state: Seq<Seq<T>>, k: Seq<T>, j: int) -> T {
        self.gathered(self.zero(), dk, |i: int| self.times(k[i], state[i][j]))
    }

    /// The state after a token with one decay and one strength for all channels.
    pub open spec fn plainly_engraved(
        &self,
        dk: nat,
        dv: nat,
        state: Seq<Seq<T>>,
        k: Seq<T>,
        v: Seq<T>,
        gamma: T,
        beta: T,
    ) -> Seq<Seq<T>> {
        let kept = cells(dk, dv, |i: int, j: int| self.times(state[i][j], gamma));
        cells(
            dk,
            dv,
            |i: int, j: int|
                self.plus(
                    kept[i][j],
                    self.times(
                        self.times(k[i], beta),
                        self.minus(v[j], self.plain_read(dk, kept, k, j)),
                    ),
                ),
        )
    }
}

/// One token of one head where one decay and one write strength serve all
/// channels.
pub fn gdn_step<
    T: Copy,
    F: Fn(ScalarOp, T, T) -> T,
    C: Fn(Number) -> T,
    Z: Fn(Relation, T, T) -> bool,
>(
    x: &Scalars<T, F, C, Z>,
    state: &mut Vec<Vec<T>>,
    q: &[T],
    k: &[T],
    v: &[T],
    gamma: T,
    beta: T,
) -> (o: Vec<T>)
    requires
        x.wf(),
        old(state)@.len() > 0,
        shaped(grid(old(state)@), q@.len(), v@.len()),
        k@.len() == q@.len(),
    ensures
        grid(final(state)@) == x.plainly_engraved(
            q@.len(),
            v@.len(),
            grid(old(state)@),
            k@,
            v@,
            gamma,
            beta,
        ),
        o@ == x.read_out(q@.len(), v@.len(), grid(final(state)@), q@),
{
    let dk: usize = q.len();
    let dv: usize = v.len();
    let before: &Vec<Vec<T>> = &*state;
    let ghost s = grid(before@);
    let ghost dks = dk as nat;
    let ghost dvs = dv as nat;
    let ghost kept_cell = |i: int, j: int| x.times(s[i][j], gamma);
    let kept = fill_table(
        dk,
        dv,
        |i: usize, j: usize| -> (c: T)
            requires
                i < dk,
                j < dv,
            ensures
                c == kept_cell(i as int, j as int)
            {
                assert(s[i as int].len() == dv);
                x.times(before[i][j], gamma)
            },
        Ghost(kept_cell),
    );
    let ghost kept_s = grid(kept@);
    let ghost off_cell = |j: int| x.minus(v@[j], x.plain_read(dks, kept_s, k@, j));
    let off = fill_row(
        dv,
        |j: usize| -> (c: T)
            requires
                j < dv,
            ensures
                c == off_cell(j as int)
            {
                let ghost term = |i: int| x.times(k@[i], kept_s[i][j as int]);
                let read = x.gather(
                    x.zero(),
                    dk,
                    |i: usize| -> (c: T)
                        requires
                            i < dk,
                        ensures
                            c == term(i as int)
                        {
                            assert(kept_s[i as int] == kept@[i as int]@);
                            x.times(k[i], kept[i][j])
                        },
                    Ghost(term),
                );
                x.minus(v[j], read)
            },
        Ghost(off_cell),
    );
    let ghost next_cell = |i: int, j: int|
        x.plus(kept_s[i][j], x.times(x.times(k@[i], beta), off_cell(j)));
    let next = fill_table(
        dk,
        dv,
        |i: usize, j: usize| -> (c: T)
            requires
                i < dk,
                j < dv,
            ensures
                c == next_cell(i as int, j as int)
            {
                assert(kept_s[i as int] == kept@[i as int]@);
                x.plus(kept[i][j], x.times(x.times(k[i], beta), off[j]))
            },
        Ghost(next_cell),
    );
    proof {
        assert(grid(next@) =~~= x.plainly_engraved(dks, dvs, s, k@, v@, gamma, beta));
    }
    let o = query_state(x, &next, q, dv);
    *state = next;
    o
}

/// What one head reads of each token: query, key and value, and the decay,
/// erase and write gates.
pub struct HeadRows<T> {
    pub q: Seq<Seq<T>>,
    pub k: Seq<Seq<T>>,
    pub v: Seq<Seq<T>>,
    pub alpha: Seq<Seq<T>>,
    pub b: Seq<Seq<T>>,
    pub w: Seq<Seq<T>>,
}

/// The rows of head `h`.
pub open spec fn head_rows<T>(
    q: Seq<Vec<Vec<T>>>,
    k: Seq<Vec<Vec<T>>>,
    v: Seq<Vec<Vec<T>>>,
    alpha: Seq<Vec<Vec<T>>>,
    b: Seq<Vec<Vec<T>>>,
    w: Seq<Vec<Vec<T>>>,
    h: int,
) -> HeadRows<T> {
    HeadRows {
        q: grid(q[h]@),
        k: grid(k[h]@),
        v: grid(v[h]@),
        alpha: grid(alpha[h]@),
        b: grid(b[h]@),
        w: grid(w[h]@),
    }
}

/// There are at least `heads` heads with at least `t` rows each, and the rows
/// that are read are `dim` wide.
pub open spec fn covers<T>(s: Seq<Vec<Vec<T>>>, heads: nat, t: nat, dim: nat) -> bool {
    &&& s.len() >= heads
    &&& forall|h: int| 0 <= h < heads ==> #[trigger] s[h]@.len() >= t
    &&& forall|h: int, i: int| 0 <= h < heads && 0 <= i < t ==> #[trigger] s[h]@[i]@.len() == dim
}

impl<T: Copy, F: Fn(ScalarOp, T, T) -> T, C: Fn(Number) -> T, Z: Fn(Relation, T, T) -> bool> Scalars<T, F, C, Z> {
    /// A state that holds nothing.
    pub open spec fn blank(&self, dk: nat, dv: nat) -> Seq<Seq<T>> {
        cells(dk, dv, |i: int, j: int| self.zero())
    }

    /// The state after the first `n` tokens, from `start` on.
    pub open spec fn serial_state(
        &self,
        dk: nat,
        dv: nat,
        rows: HeadRows<T>,
        start: Seq<Seq<T>>,
        n: nat,
    ) -> Seq<Seq<T>>
        decreases n,
    {
        if n == 0 {
            start
        } else {
            let before = self.serial_state(dk, dv, rows, start, (n - 1) as nat);
            let t = n - 1;
            self.engraved(
                dk,
                dv,
                before,
                rows.k[t],
                rows.v[t],
                rows.alpha[t],
                rows.b[t],
                rows.w[t],
            )
        }
    }

    /// The output of token `t`, from `start` on.
    pub open spec fn serial_output(
        &self,
        dk: nat,
        dv: nat,
        rows: HeadRows<T>,
        start: Seq<Seq<T>>,
        t: int,
    ) -> Seq<T> {
        self.read_out(
            dk,
            dv,
            self.serial_state(dk, dv, rows, start, (t + 1) as nat),
            rows.q[t],
        )
    }
}

/// A state that holds nothing.
pub(crate) fn blank_state<
    T: Copy,
    F: Fn(ScalarOp, T, T) -> T,
    C: Fn(Number) -> T,
    Z: Fn(Relation, T, T) -> bool,
>(x: &Scalars<T, F, C, Z>, dk: usize, dv: usize) -> (r: Vec<Vec<T>>)
    requires
        x.wf(),
    ensures
        r@.len() == dk,
        forall|i: int| 0 <= i < dk ==> #[trigger] r@[i]@.len() == dv,
        grid(r@) == x.blank(dk as nat, dv as nat),
{
    let ghost cell = |i: int, j: int| x.zero();
    let r = fill_table(
        dk,
        dv,
        |i: usize, j: usize| -> (c: T)
            ensures
                c == cell(i as int, j as int)
            { x.zero() },
        Ghost(cell),
    );
    proof {
        assert(grid(r@) =~~= x.blank(dk as nat, dv as nat));
    }
    r
}

/// Every head's tokens one after the other, from a state that holds nothing.
/// The inputs and the outputs are ordered by head, then by token.
pub fn gdn2_forward<
    T: Copy,
    F: Fn(ScalarOp, T, T) -> T,
    C: Fn(Number) -> T,
    Z: Fn(Relation, T, T) -> bool,
>(
    x: &Scalars<T, F, C, Z>,
    q: &[Vec<Vec<T>>],
    k: &[Vec<Vec<T>>],
    v: &[Vec<Vec<T>>],
    alpha: &[Vec<Vec<T>>],
    b: &[Vec<Vec<T>>],
    w: &[Vec<Vec<T>>],
    heads: usize,
    d_k: usize,
    d_v: usize,
) -> (out: Vec<Vec<Vec<T>>>)
    requires
        x.wf(),
        q@.len() > 0,
        heads > 0 && q@[0]@.len() > 0 ==> d_k > 0,
        covers(q@, heads as nat, q@[0]@.len(), d_k as nat),
        covers(k@, heads as nat, q@[0]@.len(), d_k as nat),
        covers(v@, heads as nat, q@[0]@.len(), d_v as nat),
        covers(alpha@, heads as nat, q@[0]@.len(), d_k as nat),
        covers(b@, heads as nat, q@[0]@.len(), d_k as nat),
        covers(w@, heads as nat, q@[0]@.len(), d_v as nat),
    ensures
        out@.len() == heads,
        forall|h: int| 0 <= h < heads ==> #[trigger] out@[h]@.len() == q@[0]@.len(),
        forall|h: int, t: int|
            0 <= h < heads && 0 <= t < q@[0]@.len() ==> #[trigger] out@[h]@[t]@
                == x.serial_output(
                d_k as nat,
                d_v as nat,
                head_rows(q@, k@, v@, alpha@, b@, w@, h),
                x.blank(d_k as nat, d_v as nat),
                t,
            ),
{
    let t: usize = q[0].len();
    let ghost dk = d_k as nat;
    let ghost dv = d_v as nat;
    let ghost blank = x.blank(dk, dv);
    let mut out: Vec<Vec<Vec<T>>> = Vec::new();
    for h in 0..heads
        invariant
            x.wf(),
            q@.len() > 0,
            t == q@[0]@.len(),
            heads > 0 && t > 0 ==> d_k > 0,
            dk == d_k,
            dv == d_v,
            blank == x.blank(dk, dv),
            covers(q@, heads as nat, t as nat, dk),
            covers(k@, heads as nat, t as nat, dk),
            covers(v@, heads as nat, t as nat, dv),
            covers(alpha@, heads as nat, t as nat, dk),
            covers(b@, heads as nat, t as nat, dk),
            covers(w@, heads as nat, t as nat, dv),
            out@.len() == h,
            forall|g: int| 0 <= g < h ==> #[trigger] out@[g]@.len() == t,
            forall|g: int, i: int|
                0 <= g < h && 0 <= i < t ==> #[trigger] out@[g]@[i]@ == x.serial_output(
                    dk,
                    dv,
                    head_rows(q@, k@, v@, alpha@, b@, w@, g),
                    blank,
                    i,
                ),
    {
        let ghost rows = head_rows(q@, k@, v@, alpha@, b@, w@, h as int);
        let mut state = blank_state(x, d_k, d_v);
        let mut tokens: Vec<Vec<T>> = Vec::new();
        for step in 0..t
            invariant
                x.wf(),
                h < heads,
                t > 0 ==> d_k > 0,
                dk == d_k,
                dv == d_v,
                covers(q@, heads as nat, t as nat, dk),
                covers(k@, heads as nat, t as nat, dk),
                covers(v@, heads as nat, t as nat, dv),
                covers(alpha@, heads as nat, t as nat, dk),
                covers(b@, heads as nat, t as nat, dk),
                covers(w@, heads as nat, t as nat, dv),
                rows == head_rows(q@, k@, v@, alpha@, b@, w@, h as int),
                state@.len() == d_k,
                shaped(grid(state@), dk, dv),
                grid(state@) == x.serial_state(dk, dv, rows, blank, step as nat),
                tokens@.len() == step,
                forall|i: int|
                    0 <= i < step ==> #[trigger] tokens@[i]@ == x.serial_output(
                        dk,
                        dv,
                        rows,
                        blank,
                        i,
                    ),
        {
            assert(q@[h as int]@[step as int]@.len() == dk);
            assert(k@[h as int]@[step as int]@.len() == dk);
            assert(v@[h as int]@[step as int]@.len() == dv);
            assert(alpha@[h as int]@[step as int]@.len() == dk);
            assert(b@[h as int]@[step as int]@.len() == dk);
            assert(w@[h as int]@[step as int]@.len() == dv);
            let o = gdn2_step(
                x,
                &mut state,
                q[h][step].as_slice(),
                k[h][step].as_slice(),
                v[h][step].as_slice(),
                alpha[h][step].as_slice(),
                b[h][step].as_slice(),
                w[h][step].as_slice(),
            );
            tokens.push(o);
            proof {
                assert(state@.len() == grid(state@).len());
            }
        }
        out.push(tokens);
    }
    out
}

impl<T> HeadRows<T> {
    /// The rows of tokens `from` up to `to`.
    pub open spec fn part(&self, from: int, to: int) -> HeadRows<T> {
        HeadRows {
            q: self.q.subrange(from, to),
            k: self.k.subrange(from, to),
            v: self.v.subrange(from, to),
            alpha: self.alpha.subrange(from, to),
            b: self.b.subrange(from, to),
            w: self.w.subrange(from, to),
        }
    }

    /// There are `t` tokens, and every row has its width.
    pub open spec fn wf(&self, t: nat, dk: nat, dv: nat) -> bool {
        &&& shaped(self.q, t, dk)
        &&& shaped(self.k, t, dk)
        &&& shaped(self.v, t, dv)
        &&& shaped(self.alpha, t, dk)
        &&& shaped(self.b, t, dk)
        &&& shaped(self.w, t, dv)
    }
}

impl<T: Copy, F: Fn(ScalarOp, T, T) -> T, C: Fn(Number) -> T, Z: Fn(Relation, T, T) -> bool> Scalars<T, F, C, Z> {
    /// How much key channel `d` has decayed over the first `n` tokens.
    pub open spec fn faded(&self, alpha: Seq<Seq<T>>, d: int, n: nat) -> T
        decreases n,
    {
        if n == 0 {
            self.one()
        } else {
            self.times(self.faded(alpha, d, (n - 1) as nat), alpha[n - 1][d])
        }
    }

    /// The decay of every key channel up to each token of a chunk.
    pub open spec fn fade_table(&self, c: nat, dk: nat, alpha: Seq<Seq<T>>) -> Seq<Seq<T>> {
        cells(c, dk, |r: int, d: int| self.faded(alpha, d, (r + 1) as nat))
    }

    /// The keys with their decay divided out.
    pub open spec fn key_table(&self, c: nat, dk: nat, g: Seq<Seq<T>>, k: Seq<Seq<T>>) -> Seq<
        Seq<T>,
    > {
        cells(c, dk, |r: int, d: int| self.over(k[r][d], g[r][d]))
    }

    /// The erased keys with their decay.
    pub open spec fn erase_table(
        &self,
        c: nat,
        dk: nat,
        g: Seq<Seq<T>>,
        b: Seq<Seq<T>>,
        k: Seq<Seq<T>>,
    ) -> Seq<Seq<T>> {
        cells(c, dk, |r: int, d: int| self.times(g[r][d], self.times(b[r][d], k[r][d])))
    }

    /// The gated values.
    pub open spec fn write_table(&self, c: nat, dv: nat, w: Seq<Seq<T>>, v: Seq<Seq<T>>) -> Seq<
        Seq<T>,
    > {
        cells(c, dv, |r: int, j: int| self.times(w[r][j], v[r][j]))
    }

    /// How much each token erases of what each earlier token of the chunk wrote.
    pub open spec fn overlap_table(
        &self,
        c: nat,
        dk: nat,
        e: Seq<Seq<T>>,
        kbar: Seq<Seq<T>>,
    ) -> Seq<Seq<T>> {
        cells(
            c,
            c,
            |r: int, s: int|
                if s < r {
                    self.gathered(self.zero(), dk, |d: int| self.times(e[r][d], kbar[s][d]))
                } else {
                    self.zero()
                },
        )
    }

    /// The first `n` entries of column `col` of the inverse of one plus the
    /// overlaps, from the diagonal down.
    pub open spec fn inverse_column(&self, t: Seq<Seq<T>>, col: int, n: nat) -> Seq<T>
        decreases n,
    {
        if n == 0 {
            Seq::empty()
        } else {
            let above = self.inverse_column(t, col, (n - 1) as nat);
            above.push(
                if n == 1 {
                    self.one()
                } else {
                    self.negated(
                        self.gathered(
                            self.zero(),
                            (n - 1) as nat,
                            |m: int| self.times(t[col + n - 1][col + m], above[m]),
                        ),
                    )
                },
            )
        }
    }

    /// The inverse of one plus the overlaps.
    pub open spec fn inverse_table(&self, c: nat, t: Seq<Seq<T>>) -> Seq<Seq<T>> {
        cells(
            c,
            c,
            |r: int, s: int|
                if s <= r {
                    self.inverse_column(t, s, (c - s) as nat)[r - s]
                } else {
                    self.zero()
                },
        )
    }

    /// The first `n` values, each by its weight; a weight of zero adds nothing.
    pub open spec fn weighed(
        &self,
        n: nat,
        weight: spec_fn(int) -> T,
        value: spec_fn(int) -> T,
    ) -> T
        decreases n,
    {
        if n == 0 {
            self.zero()
        } else {
            let before = self.weighed((n - 1) as nat, weight, value);
            if self.zero_at(weight(n - 1)) {
                before
            } else {
                self.plus(before, self.times(weight(n - 1), value(n - 1)))
            }
        }
    }

    /// Rows mixed by a table of weights.
    pub open spec fn mixed_table(
        &self,
        c: nat,
        width: nat,
        a: Seq<Seq<T>>,
        rows: Seq<Seq<T>>,
    ) -> Seq<Seq<T>> {
        cells(
            c,
            width,
            |r: int, d: int| self.weighed(c, |s: int| a[r][s], |s: int| rows[s][d]),
        )
    }

    /// What each token of a chunk writes, given the state before the chunk.
    pub open spec fn written_table(
        &self,
        c: nat,
        dk: nat,
        dv: nat,
        u: Seq<Seq<T>>,
        y: Seq<Seq<T>>,
        state: Seq<Seq<T>>,
    ) -> Seq<Seq<T>> {
        cells(
            c,
            dv,
            |r: int, j: int|
                self.minus(
                    u[r][j],
                    self.gathered(self.zero(), dk, |d: int| self.times(y[r][d], state[d][j])),
                ),
        )
    }

    /// How much the query of token `r` finds of what token `s` wrote.
    pub open spec fn found(
        &self,
        dk: nat,
        g: Seq<Seq<T>>,
        q: Seq<Seq<T>>,
        k: Seq<Seq<T>>,
        r: int,
        s: int,
    ) -> T {
        self.gathered(
            self.zero(),
            dk,
            |d: int|
                self.times(self.times(q[r][d], self.over(g[r][d], g[s][d])), k[s][d]),
        )
    }

    /// What the tokens of a chunk write, in one table.
    pub open spec fn chunk_written(
        &self,
        dk: nat,
        dv: nat,
        rows: HeadRows<T>,
        state: Seq<Seq<T>>,
    ) -> Seq<Seq<T>> {
        let c = rows.q.len();
        let g = self.fade_table(c, dk, rows.alpha);
        let kbar = self.key_table(c, dk, g, rows.k);
        let e = self.erase_table(c, dk, g, rows.b, rows.k);
        let z = self.write_table(c, dv, rows.w, rows.v);
        let a = self.inverse_table(c, self.overlap_table(c, dk, e, kbar));
        self.written_table(
            c,
            dk,
            dv,
            self.mixed_table(c, dv, a, z),
            self.mixed_table(c, dk, a, e),
            state,
        )
    }

    /// The outputs of a chunk.
    pub open spec fn chunk_output(
        &self,
        dk: nat,
        dv: nat,
        rows: HeadRows<T>,
        state: Seq<Seq<T>>,
    ) -> Seq<Seq<T>> {
        let c = rows.q.len();
        let g = self.fade_table(c, dk, rows.alpha);
        let written = self.chunk_written(dk, dv, rows, state);
        cells(
            c,
            dv,
            |r: int, j: int|
                self.gathered(
                    self.gathered(
                        self.zero(),
                        dk,
                        |d: int| self.times(self.times(g[r][d], rows.q[r][d]), state[d][j]),
                    ),
                    (r + 1) as nat,
                    |s: int| self.times(self.found(dk, g, rows.q, rows.k, r, s), written[s][j]),
                ),
        )
    }

    /// The state after a chunk.
    pub open spec fn chunk_state(
        &self,
        dk: nat,
        dv: nat,
        rows: HeadRows<T>,
        state: Seq<Seq<T>>,
    ) -> Seq<Seq<T>> {
        let c = rows.q.len();
        let g = self.fade_table(c, dk, rows.alpha);
        let written = self.chunk_written(dk, dv, rows, state);
        cells(
            dk,
            dv,
            |d: int, j: int|
                self.gathered(
                    self.times(g[c - 1][d], state[d][j]),
                    c,
                    |r: int|
                        self.times(
                            self.times(self.over(g[c - 1][d], g[r][d]), rows.k[r][d]),
                            written[r][j],
                        ),
                ),
        )
    }
}

/// The rows that six slices hold.
pub open spec fn slice_rows<T>(
    q: Seq<Vec<T>>,
    k: Seq<Vec<T>>,
    v: Seq<Vec<T>>,
    alpha: Seq<Vec<T>>,
    b: Seq<Vec<T>>,
    w: Seq<Vec<T>>,
) -> HeadRows<T> {
    HeadRows { q: grid(q), k: grid(k), v: grid(v), alpha: grid(alpha), b: grid(b), w: grid(w) }
}

impl<T: Copy, F: Fn(ScalarOp, T, T) -> T, C: Fn(Number) -> T, Z: Fn(Relation, T, T) -> bool> Scalars<T, F, C, Z> {
    /// A column of the inverse has as many entries as were asked for.
    pub proof fn lemma_inverse_column_len(&self, t: Seq<Seq<T>>, col: int, n: nat)
        ensures
            self.inverse_column(t, col, n).len() == n,
        decreases n,
    {
        if n > 0 {
            self.lemma_inverse_column_len(t, col, (n - 1) as nat);
        }
    }
}

/// The decay of every key channel up to each token of a chunk.
fn fade_rows<
    T: Copy,
    F: Fn(ScalarOp, T, T) -> T,
    C: Fn(Number) -> T,
    Z: Fn(Relation, T, T) -> bool,
>(x: &Scalars<T, F, C, Z>, alpha: &[Vec<T>], dk: usize) -> (g: Vec<Vec<T>>)
    requires
        x.wf(),
        shaped(grid(alpha@), alpha@.len(), dk as nat),
    ensures
        g@.len() == alpha@.len(),
        forall|r: int| 0 <= r < g@.len() ==> #[trigger] g@[r]@.len() == dk,
        grid(g@) == x.fade_table(alpha@.len(), dk as nat, grid(alpha@)),
{
    let c: usize = alpha.len();
    let ghost gates = grid(alpha@);
    let mut g: Vec<Vec<T>> = Vec::new();
    for r in 0..c
        invariant
            x.wf(),
            c == alpha@.len(),
            gates == grid(alpha@),
            shaped(gates, c as nat, dk as nat),
            g@.len() == r,
            forall|i: int| 0 <= i < r ==> #[trigger] g@[i]@.len() == dk,
            forall|i: int, d: int|
                0 <= i < r && 0 <= d < dk ==> #[trigger] g@[i]@[d] == x.faded(
                    gates,
                    d,
                    (i + 1) as nat,
                ),
    {
        let ghost entry = |d: int| x.faded(gates, d, (r + 1) as nat);
        let row = fill_row(
            dk,
            |d: usize| -> (c: T)
                requires
                    d < dk,
                ensures
                    c == entry(d as int)
                {
                    assert(gates[r as int].len() == dk);
                    if r == 0 {
                        assert(x.faded(gates, d as int, 0) == x.one());
                        x.times(x.one(), alpha[r][d])
                    } else {
                        x.times(g[r - 1][d], alpha[r][d])
                    }
                },
            Ghost(entry),
        );
        g.push(row);
    }
    proof {
        assert(grid(g@) =~~= x.fade_table(c as nat, dk as nat, gates));
    }
    g
}

/// The columns of the inverse of one plus the overlaps, each from the diagonal
/// down.
fn inverse_columns<
    T: Copy,
    F: Fn(ScalarOp, T, T) -> T,
    C: Fn(Number) -> T,
    Z: Fn(Relation, T, T) -> bool,
>(x: &Scalars<T, F, C, Z>, t: &Vec<Vec<T>>) -> (cols: Vec<Vec<T>>)
    requires
        x.wf(),
        shaped(grid(t@), t@.len(), t@.len()),
    ensures
        cols@.len() == t@.len(),
        forall|s: int|
            0 <= s < t@.len() ==> #[trigger] cols@[s]@ == x.inverse_column(
                grid(t@),
                s,
                (t@.len() - s) as nat,
            ),
{
    let c: usize = t.len();
    let ghost ts = grid(t@);
    let mut cols: Vec<Vec<T>> = Vec::new();
    for col in 0..c
        invariant
            x.wf(),
            c == t@.len(),
            ts == grid(t@),
            shaped(ts, c as nat, c as nat),
            cols@.len() == col,
            forall|s: int|
                0 <= s < col ==> #[trigger] cols@[s]@ == x.inverse_column(ts, s, (c - s) as nat),
    {
        let mut down: Vec<T> = Vec::new();
        for n in 0..c - col
            invariant
                x.wf(),
                c == t@.len(),
                col < c,
                ts == grid(t@),
                shaped(ts, c as nat, c as nat),
                down@ == x.inverse_column(ts, col as int, n as nat),
                down@.len() == n,
        {
            let entry = if n == 0 {
                x.one()
            } else {
                let ghost above = down@;
                let ghost term = |m: int| x.times(ts[col + n][col + m], above[m]);
                let total = x.gather(
                    x.zero(),
                    n,
                    |m: usize| -> (c: T)
                        requires
                            m < n,
                        ensures
                            c == term(m as int)
                        {
                            assert(ts[col + n].len() == t@.len());
                            x.times(t[col + n][col + m], down[m])
                        },
                    Ghost(term),
                );
                proof {
                    x.lemma_gathered_same(
                        x.zero(),
                        n as nat,
                        term,
                        |m: int| x.times(ts[col + (n + 1) - 1][col + m], above[m]),
                    );
                }
                x.negated(total)
            };
            down.push(entry);
        }
        cols.push(down);
    }
    cols
}

/// Rows mixed by the inverse of one plus the overlaps.
fn mix_rows<
    T: Copy,
    F: Fn(ScalarOp, T, T) -> T,
    C: Fn(Number) -> T,
    Z: Fn(Relation, T, T) -> bool,
>(
    x: &Scalars<T, F, C, Z>,
    cols: &Vec<Vec<T>>,
    rows: &Vec<Vec<T>>,
    width: usize,
    Ghost(t): Ghost<Seq<Seq<T>>>,
) -> (r: Vec<Vec<T>>)
    requires
        x.wf(),
        cols@.len() == rows@.len(),
        shaped(t, cols@.len(), cols@.len()),
        forall|s: int|
            0 <= s < cols@.len() ==> #[trigger] cols@[s]@ == x.inverse_column(
                t,
                s,
                (cols@.len() - s) as nat,
            ),
        shaped(grid(rows@), rows@.len(), width as nat),
    ensures
        r@.len() == rows@.len(),
        forall|i: int| 0 <= i < r@.len() ==> #[trigger] r@[i]@.len() == width,
        grid(r@) == x.mixed_table(
            rows@.len(),
            width as nat,
            x.inverse_table(rows@.len(), t),
            grid(rows@),
        ),
{
    let c: usize = rows.len();
    let ghost cs = c as nat;
    let ghost a = x.inverse_table(cs, t);
    let ghost rs = grid(rows@);
    let ghost cell = |r: int, d: int| x.weighed(cs, |s: int| a[r][s], |s: int| rs[s][d]);
    let r = fill_table(
        c,
        width,
        |r: usize, d: usize| -> (o: T)
            requires
                r < c,
                d < width,
            ensures
                o == cell(r as int, d as int)
            {
                let ghost weight = |s: int| a[r as int][s];
                let ghost value = |s: int| rs[s][d as int];
                let mut total: T = x.zero();
                for s in 0..c
                    invariant
                        x.wf(),
                        r < c,
                        d < width,
                        c == rows@.len(),
                        c == cols@.len(),
                        cs == c,
                        rs == grid(rows@),
                        a == x.inverse_table(cs, t),
                        shaped(rs, cs, width as nat),
                        forall|s: int|
                            0 <= s < c ==> #[trigger] cols@[s]@ == x.inverse_column(
                                t,
                                s,
                                (c - s) as nat,
                            ),
                        weight == |s: int| a[r as int][s],
                        value == |s: int| rs[s][d as int],
                        total == x.weighed(s as nat, weight, value),
                {
                    assert(rs[s as int].len() == width);
                    proof {
                        x.lemma_inverse_column_len(t, s as int, (c - s) as nat);
                    }
                    let by: T = if s <= r {
                        assert(cols@[s as int]@.len() == c - s);
                        cols[s][r - s]
                    } else {
                        x.zero()
                    };
                    assert(by == weight(s as int));
                    if !x.vanishes(by) {
                        total = x.plus(total, x.times(by, rows[s][d]));
                    }
                }
                total
            },
        Ghost(cell),
    );
    proof {
        assert(grid(r@) =~~= x.mixed_table(cs, width as nat, a, rs));
    }
    r
}

/// One chunk of one head at once: the same state and outputs that its tokens
/// would leave one after the other, from sums over the chunk.
pub fn gdn2_chunkwise_step<
    T: Copy,
    F: Fn(ScalarOp, T, T) -> T,
    C: Fn(Number) -> T,
    Z: Fn(Relation, T, T) -> bool,
>(
    x: &Scalars<T, F, C, Z>,
    state: &mut Vec<Vec<T>>,
    q: &[Vec<T>],
    k: &[Vec<T>],
    v: &[Vec<T>],
    alpha: &[Vec<T>],
    b: &[Vec<T>],
    w: &[Vec<T>],
) -> (out: Vec<Vec<T>>)
    requires
        x.wf(),
        q@.len() > 0 ==> old(state)@.len() > 0 && shaped(
            grid(old(state)@),
            old(state)@.len(),
            old(state)@[0]@.len(),
        ) && slice_rows(q@, k@, v@, alpha@, b@, w@).wf(
            q@.len(),
            old(state)@.len(),
            old(state)@[0]@.len(),
        ),
    ensures
        q@.len() == 0 ==> *final(state) == *old(state) && out@.len() == 0,
        q@.len() > 0 ==> {
            let rows = slice_rows(q@, k@, v@, alpha@, b@, w@);
            let dk = old(state)@.len();
            let dv = old(state)@[0]@.len();
            &&& grid(final(state)@) == x.chunk_state(dk, dv, rows, grid(old(state)@))
            &&& grid(out@) == x.chunk_output(dk, dv, rows, grid(old(state)@))
        },
{
    let n: usize = q.len();
    if n == 0 {
        return Vec::new();
    }
    let before: &Vec<Vec<T>> = &*state;
    let dk: usize = before.len();
    let dv: usize = before[0].len();
    let ghost s = grid(before@);
    let ghost rows = slice_rows(q@, k@, v@, alpha@, b@, w@);
    let ghost ns = n as nat;
    let ghost dks = dk as nat;
    let ghost dvs = dv as nat;
    let g = fade_rows(x, alpha, dk);
    let ghost gs = grid(g@);
    let ghost key_cell = |r: int, d: int| x.over(rows.k[r][d], gs[r][d]);
    let kbar = fill_table(
        n,
        dk,
        |r: usize, d: usize| -> (o: T)
            requires
                r < n,
                d < dk,
            ensures
                o == key_cell(r as int, d as int)
            {
                assert(rows.k[r as int].len() == dk);
                x.over(k[r][d], g[r][d])
            },
        Ghost(key_cell),
    );
    let ghost erase_cell = |r: int, d: int|
        x.times(gs[r][d], x.times(rows.b[r][d], rows.k[r][d]));
    let e = fill_table(
        n,
        dk,
        |r: usize, d: usize| -> (o: T)
            requires
                r < n,
                d < dk,
            ensures
                o == erase_cell(r as int, d as int)
            {
                assert(rows.k[r as int].len() == dk);
                assert(rows.b[r as int].len() == dk);
                x.times(g[r][d], x.times(b[r][d], k[r][d]))
            },
        Ghost(erase_cell),
    );
    let ghost write_cell = |r: int, j: int| x.times(rows.w[r][j], rows.v[r][j]);
    let z = fill_table(
        n,
        dv,
        |r: usize, j: usize| -> (o: T)
            requires
                r < n,
                j < dv,
            ensures
                o == write_cell(r as int, j as int)
            {
                assert(rows.w[r as int].len() == dv);
                assert(rows.v[r as int].len() == dv);
                x.times(w[r][j], v[r][j])
            },
        Ghost(write_cell),
    );
    let ghost ks = grid(kbar@);
    let ghost es = grid(e@);
    let ghost overlap_cell = |r: int, i: int|
        if i < r {
            x.gathered(x.zero(), dks, |d: int| x.times(es[r][d], ks[i][d]))
        } else {
            x.zero()
        };
    let t = fill_table(
        n,
        n,
        |r: usize, i: usize| -> (o: T)
            requires
                r < n,
                i < n,
            ensures
                o == overlap_cell(r as int, i as int)
            {
                if i < r {
                    let ghost term = |d: int| x.times(es[r as int][d], ks[i as int][d]);
                    x.gather(
                        x.zero(),
                        dk,
                        |d: usize| -> (o: T)
                            requires
                                d < dk,
                            ensures
                                o == term(d as int)
                            { x.times(e[r][d], kbar[i][d]) },
                        Ghost(term),
                    )
                } else {
                    x.zero()
                }
            },
        Ghost(overlap_cell),
    );
    let ghost ts = grid(t@);
    proof {
        assert(ks =~~= x.key_table(ns, dks, gs, rows.k));
        assert(es =~~= x.erase_table(ns, dks, gs, rows.b, rows.k));
        assert(grid(z@) =~~= x.write_table(ns, dvs, rows.w, rows.v));
        assert(ts =~~= x.overlap_table(ns, dks, es, ks));
    }
    let cols = inverse_columns(x, &t);
    let u = mix_rows(x, &cols, &z, dv, Ghost(ts));
    let y = mix_rows(x, &cols, &e, dk, Ghost(ts));
    let ghost us = grid(u@);
    let ghost ys = grid(y@);
    let ghost written_cell = |r: int, j: int|
        x.minus(us[r][j], x.gathered(x.zero(), dks, |d: int| x.times(ys[r][d], s[d][j])));
    let written = fill_table(
        n,
        dv,
        |r: usize, j: usize| -> (o: T)
            requires
                r < n,
                j < dv,
            ensures
                o == written_cell(r as int, j as int)
            {
                let ghost term = |d: int| x.times(ys[r as int][d], s[d][j as int]);
                let read = x.gather(
                    x.zero(),
                    dk,
                    |d: usize| -> (o: T)
                        requires
                            d < dk,
                        ensures
                            o == term(d as int)
                        {
                            assert(s[d as int].len() == dv);
                            x.times(y[r][d], before[d][j])
                        },
                    Ghost(term),
                );
                x.minus(u[r][j], read)
            },
        Ghost(written_cell),
    );
    let ghost ws = grid(written@);
    proof {
        assert(ws =~~= x.chunk_written(dks, dvs, rows, s));
    }
    let ghost found_cell = |r: int, i: int| x.found(dks, gs, rows.q, rows.k, r, i);
    let found = fill_table(
        n,
        n,
        |r: usize, i: usize| -> (o: T)
            requires
                r < n,
                i < n,
            ensures
                o == found_cell(r as int, i as int)
            {
                let ghost term = |d: int|
                    x.times(
                        x.times(rows.q[r as int][d], x.over(gs[r as int][d], gs[i as int][d])),
                        rows.k[i as int][d],
                    );
                x.gather(
                    x.zero(),
                    dk,
                    |d: usize| -> (o: T)
                        requires
                            d < dk,
                        ensures
                            o == term(d as int)
                        {
                            assert(rows.q[r as int].len() == dk);
                            assert(rows.k[i as int].len() == dk);
                            x.times(x.times(q[r][d], x.over(g[r][d], g[i][d])), k[i][d])
                        },
                    Ghost(term),
                )
            },
        Ghost(found_cell),
    );
    let ghost out_cell = |r: int, j: int|
        x.gathered(
            x.gathered(
                x.zero(),
                dks,
                |d: int| x.times(x.times(gs[r][d], rows.q[r][d]), s[d][j]),
            ),
            (r + 1) as nat,
            |i: int| x.times(x.found(dks, gs, rows.q, rows.k, r, i), ws[i][j]),
        );
    let out = fill_table(
        n,
        dv,
        |r: usize, j: usize| -> (o: T)
            requires
                r < n,
                j < dv,
            ensures
                o == out_cell(r as int, j as int)
            {
                let ghost kept = |d: int|
                    x.times(x.times(gs[r as int][d], rows.q[r as int][d]), s[d][j as int]);
                let start = x.gather(
                    x.zero(),
                    dk,
                    |d: usize| -> (o: T)
                        requires
                            d < dk,
                        ensures
                            o == kept(d as int)
                        {
                            assert(rows.q[r as int].len() == dk);
                            assert(s[d as int].len() == dv);
                            x.times(x.times(g[r][d], q[r][d]), before[d][j])
                        },
                    Ghost(kept),
                );
                let ghost term = |i: int|
                    x.times(x.found(dks, gs, rows.q, rows.k, r as int, i), ws[i][j as int]);
                x.gather(
                    start,
                    r + 1,
                    |i: usize| -> (o: T)
                        requires
                            i <= r,
                        ensures
                            o == term(i as int)
                        {
                            assert(grid(found@)[r as int][i as int] == found_cell(
                                r as int,
                                i as int,
                            ));
                            x.times(found[r][i], written[i][j])
                        },
                    Ghost(term),
                )
            },
        Ghost(out_cell),
    );
    let ghost next_cell = |d: int, j: int|
        x.gathered(
            x.times(gs[n - 1][d], s[d][j]),
            ns,
            |r: int| x.times(x.times(x.over(gs[n - 1][d], gs[r][d]), rows.k[r][d]), ws[r][j]),
        );
    let next = fill_table(
        dk,
        dv,
        |d: usize, j: usize| -> (o: T)
            requires
                d < dk,
                j < dv,
            ensures
                o == next_cell(d as int, j as int)
            {
                let ghost term = |r: int|
                    x.times(
                        x.times(
                            x.over(gs[n - 1][d as int], gs[r][d as int]),
                            rows.k[r][d as int],
                        ),
                        ws[r][j as int],
                    );
                assert(s[d as int].len() == dv);
                x.gather(
                    x.times(g[n - 1][d], before[d][j]),
                    n,
                    |r: usize| -> (o: T)
                        requires
                            r < n,
                        ensures
                            o == term(r as int)
                        {
                            assert(rows.k[r as int].len() == dk);
                            x.times(x.times(x.over(g[n - 1][d], g[r][d]), k[r][d]), written[r][j])
                        },
                    Ghost(term),
                )
            },
        Ghost(next_cell),
    );
    proof {
        assert(grid(out@) =~~= x.chunk_output(dks, dvs, rows, s));
        assert(grid(next@) =~~= x.chunk_state(dks, dvs, rows, s));
    }
    *state = next;
    out
}

/// Every head's tokens chunk by chunk, with decays kept as running products.
pub fn gdn2_chunkwise_forward<
    T: Copy,
    F: Fn(ScalarOp, T, T) -> T,
    C: Fn(Number) -> T,
    Z: Fn(Relation, T, T) -> bool,
>(
    x: &Scalars<T, F, C, Z>,
    q: &[Vec<Vec<T>>],
    k: &[Vec<Vec<T>>],
    v: &[Vec<Vec<T>>],
    alpha: &[Vec<Vec<T>>],
    b: &[Vec<Vec<T>>],
    w: &[Vec<Vec<T>>],
    heads: usize,
    d_k: usize,
    d_v: usize,
    chunk_size: usize,
) -> (out: Vec<Vec<Vec<T>>>)
    requires
        x.wf(),
        q@.len() > 0,
        heads > 0 && q@[0]@.len() > 0 ==> d_k > 0,
        covers(q@, heads as nat, q@[0]@.len(), d_k as nat),
        covers(k@, heads as nat, q@[0]@.len(), d_k as nat),
        covers(v@, heads as nat, q@[0]@.len(), d_v as nat),
        covers(alpha@, heads as nat, q@[0]@.len(), d_k as nat),
        covers(b@, heads as nat, q@[0]@.len(), d_k as nat),
        covers(w@, heads as nat, q@[0]@.len(), d_v as nat),
    ensures
        x.chunk_result(
            ChunkForm::Products,
            q@,
            k@,
            v@,
            alpha@,
            b@,
            w@,
            heads as nat,
            d_k as nat,
            d_v as nat,
            chunk_size,
            out@,
        ),
{
    chunkwise(
        x,
        ChunkForm::Products,
        q,
        k,
        v,
        alpha,
        b,
        w,
        heads,
        d_k,
        d_v,
        chunk_size,
    )
}

} // verus!
