//! Training the gates of the gated delta recurrence: the chunkwise form over
//! logarithms, the gradients of a sequence, and feature matching.

use crate::gla::{covers, slice_rows, HeadRows};
use crate::gla_chunks::{chunkwise, ChunkForm};
use crate::scalar::{cells, fill_row, fill_table, grid, shaped, Number, Relation, ScalarOp, Scalars};
use vstd::prelude::*;

verus! {

/// The longest chunk: over more tokens the exponential of a summed logarithm is
/// no longer known to stay in range.
pub const MAX_WY_CHUNK: usize = 129;

impl<T: Copy, F: Fn(ScalarOp, T, T) -> T, C: Fn(Number) -> T, Z: Fn(Relation, T, T) -> bool> Scalars<T, F, C, Z> {
    /// The summed logarithms of the decays of key channel `d` over the first `n`
    /// tokens.
    pub open spec fn log_faded(&self, alpha: Seq<Seq<T>>, d: int, n: nat) -> T
        decreases n,
    {
        if n == 0 {
            self.zero()
        } else {
            self.plus(
                self.log_faded(alpha, d, (n - 1) as nat),
                self.ln(self.larger(alpha[n - 1][d], self.tiny())),
            )
        }
    }

    /// The summed logarithms of every key channel up to each token of a chunk.
    pub open spec fn log_table(&self, c: nat, dk: nat, alpha: Seq<Seq<T>>) -> Seq<Seq<T>> {
        cells(c, dk, |r: int, d: int| self.log_faded(alpha, d, (r + 1) as nat))
    }

    /// The decays that summed logarithms stand for.
    pub open spec fn exp_table(&self, c: nat, dk: nat, g: Seq<Seq<T>>) -> Seq<Seq<T>> {
        cells(c, dk, |r: int, d: int| self.exp(g[r][d]))
    }

    /// The erased keys with their decay.
    pub open spec fn erased_keys(
        &self,
        c: nat,
        dk: nat,
        decay: Seq<Seq<T>>,
        b: Seq<Seq<T>>,
        k: Seq<Seq<T>>,
    ) -> Seq<Seq<T>> {
        cells(c, dk, |r: int, d: int| self.times(self.times(decay[r][d], b[r][d]), k[r][d]))
    }

    /// The keys with their decay divided out.
    pub open spec fn lifted_keys(&self, c: nat, dk: nat, decay: Seq<Seq<T>>, k: Seq<Seq<T>>) -> Seq<
        Seq<T>,
    > {
        cells(c, dk, |r: int, d: int| self.over(k[r][d], self.larger(decay[r][d], self.least())))
    }

    /// Zero, with the first `n` terms taken off one after the other.
    pub open spec fn drained(&self, n: nat, term: spec_fn(int) -> T) -> T
        decreases n,
    {
        if n == 0 {
            self.zero()
        } else {
            self.minus(self.drained((n - 1) as nat, term), term(n - 1))
        }
    }

    /// What row `i` adds to row `r` when the overlaps are solved for.
    pub open spec fn pull(
        &self,
        dk: nat,
        e: Seq<Seq<T>>,
        khat: Seq<Seq<T>>,
        r: int,
        i: int,
    ) -> T {
        self.drained(dk, |d: int| self.times(e[r][d], khat[i][d]))
    }

    /// The first `n` rows with the overlaps solved for, each from those above it.
    pub open spec fn solved(
        &self,
        dk: nat,
        width: nat,
        e: Seq<Seq<T>>,
        khat: Seq<Seq<T>>,
        rows: Seq<Seq<T>>,
        n: nat,
    ) -> Seq<Seq<T>>
        decreases n,
    {
        if n == 0 {
            Seq::empty()
        } else {
            let above = self.solved(dk, width, e, khat, rows, (n - 1) as nat);
            above.push(
                Seq::new(
                    width,
                    |j: int|
                        self.gathered(
                            rows[n - 1][j],
                            (n - 1) as nat,
                            |i: int| self.times(self.pull(dk, e, khat, n - 1, i), above[i][j]),
                        ),
                ),
            )
        }
    }

    /// There are as many rows as were asked for, each of its width.
    pub proof fn lemma_solved_shape(
        &self,
        dk: nat,
        width: nat,
        e: Seq<Seq<T>>,
        khat: Seq<Seq<T>>,
        rows: Seq<Seq<T>>,
        n: nat,
    )
        ensures
            shaped(self.solved(dk, width, e, khat, rows, n), n, width),
        decreases n,
    {
        if n > 0 {
            self.lemma_solved_shape(dk, width, e, khat, rows, (n - 1) as nat);
        }
    }

    /// What the tokens of a chunk write, in one table.
    pub open spec fn wy_written(
        &self,
        dk: nat,
        dv: nat,
        rows: HeadRows<T>,
        state: Seq<Seq<T>>,
    ) -> Seq<Seq<T>> {
        let c = rows.q.len();
        let decay = self.exp_table(c, dk, self.log_table(c, dk, rows.alpha));
        let e = self.erased_keys(c, dk, decay, rows.b, rows.k);
        let khat = self.lifted_keys(c, dk, decay, rows.k);
        let z = self.write_table(c, dv, rows.w, rows.v);
        self.written_table(
            c,
            dk,
            dv,
            self.solved(dk, dv, e, khat, z, c),
            self.solved(dk, dk, e, khat, e, c),
            state,
        )
    }

    /// How much the query of token `r` finds of what token `i` wrote.
    pub open spec fn wy_found(
        &self,
        dk: nat,
        decay: Seq<Seq<T>>,
        khat: Seq<Seq<T>>,
        q: Seq<Seq<T>>,
        r: int,
        i: int,
    ) -> T {
        self.gathered(
            self.zero(),
            dk,
            |d: int| self.times(self.times(q[r][d], decay[r][d]), khat[i][d]),
        )
    }

    /// The outputs of a chunk.
    pub open spec fn wy_output(
        &self,
        dk: nat,
        dv: nat,
        rows: HeadRows<T>,
        state: Seq<Seq<T>>,
    ) -> Seq<Seq<T>> {
        let c = rows.q.len();
        let decay = self.exp_table(c, dk, self.log_table(c, dk, rows.alpha));
        let khat = self.lifted_keys(c, dk, decay, rows.k);
        let written = self.wy_written(dk, dv, rows, state);
        cells(
            c,
            dv,
            |r: int, j: int|
                self.gathered(
                    self.gathered(
                        self.zero(),
                        dk,
                        |d: int| self.times(self.times(rows.q[r][d], decay[r][d]), state[d][j]),
                    ),
                    (r + 1) as nat,
                    |i: int|
                        self.times(self.wy_found(dk, decay, khat, rows.q, r, i), written[i][j]),
                ),
        )
    }

    /// The state after a chunk.
    pub open spec fn wy_state(
        &self,
        dk: nat,
        dv: nat,
        rows: HeadRows<T>,
        state: Seq<Seq<T>>,
    ) -> Seq<Seq<T>> {
        let c = rows.q.len();
        let g = self.log_table(c, dk, rows.alpha);
        let written = self.wy_written(dk, dv, rows, state);
        cells(
            dk,
            dv,
            |d: int, j: int|
                self.gathered(
                    self.times(self.exp(g[c - 1][d]), state[d][j]),
                    c,
                    |r: int|
                        self.times(
                            self.times(
                                rows.k[r][d],
                                self.exp(self.minus(g[c - 1][d], g[r][d])),
                            ),
                            written[r][j],
                        ),
                ),
        )
    }
}

/// The summed logarithms of every key channel up to each token of a chunk.
fn log_rows<
    T: Copy,
    F: Fn(ScalarOp, T, T) -> T,
    C: Fn(Number) -> T,
    Z: Fn(Relation, T, T) -> bool,
>(x: &Scalars<T, F, C, Z>, alpha: &[Vec<T>], dk: usize) -> (g: Vec<Vec<T>>)
    requires
        x.wf(),
        shaped(grid(alpha@), alpha@.len(), dk as nat),
    ensures
        g@.len() == alpha@.len(),
        forall|r: int| 0 <= r < g@.len() ==> #[trigger] g@[r]@.len() == dk,
        grid(g@) == x.log_table(alpha@.len(), dk as nat, grid(alpha@)),
{
    let c: usize = alpha.len();
    let ghost gates = grid(alpha@);
    let mut g: Vec<Vec<T>> = Vec::new();
    for r in 0..c
        invariant
            x.wf(),
            c == alpha@.len(),
            gates == grid(alpha@),
            shaped(gates, c as nat, dk as nat),
            g@.len() == r,
            forall|i: int| 0 <= i < r ==> #[trigger] g@[i]@.len() == dk,
            forall|i: int, d: int|
                0 <= i < r && 0 <= d < dk ==> #[trigger] g@[i]@[d] == x.log_faded(
                    gates,
                    d,
                    (i + 1) as nat,
                ),
    {
        let ghost entry = |d: int| x.log_faded(gates, d, (r + 1) as nat);
        let row = fill_row(
            dk,
            |d: usize| -> (o: T)
                requires
                    d < dk,
                ensures
                    o == entry(d as int)
                {
                    assert(gates[r as int].len() == dk);
                    let log = x.ln(x.larger(alpha[r][d], x.tiny()));
                    if r == 0 {
                        assert(x.log_faded(gates, d as int, 0) == x.zero());
                        x.plus(x.zero(), log)
                    } else {
                        x.plus(g[r - 1][d], log)
                    }
                },
            Ghost(entry),
        );
        g.push(row);
    }
    proof {
        assert(grid(g@) =~~= x.log_table(c as nat, dk as nat, gates));
    }
    g
}

/// Solves for the overlaps of the rows of a chunk.
fn solve_rows<
    T: Copy,
    F: Fn(ScalarOp, T, T) -> T,
    C: Fn(Number) -> T,
    Z: Fn(Relation, T, T) -> bool,
>(
    x: &Scalars<T, F, C, Z>,
    e: &Vec<Vec<T>>,
    khat: &Vec<Vec<T>>,
    rows: &Vec<Vec<T>>,
    dk: usize,
    width: usize,
) -> (r: Vec<Vec<T>>)
    requires
        x.wf(),
        shaped(grid(e@), rows@.len(), dk as nat),
        shaped(grid(khat@), rows@.len(), dk as nat),
        shaped(grid(rows@), rows@.len(), width as nat),
    ensures
        r@.len() == rows@.len(),
        forall|i: int| 0 <= i < r@.len() ==> #[trigger] r@[i]@.len() == width,
        grid(r@) == x.solved(
            dk as nat,
            width as nat,
            grid(e@),
            grid(khat@),
            grid(rows@),
            rows@.len(),
        ),
{
    let c: usize = rows.len();
    let ghost es = grid(e@);
    let ghost ks = grid(khat@);
    let ghost rs = grid(rows@);
    let ghost dks = dk as nat;
    let ghost wide = width as nat;
    let mut out: Vec<Vec<T>> = Vec::new();
    for r in 0..c
        invariant
            x.wf(),
            c == rows@.len(),
            es == grid(e@),
            ks == grid(khat@),
            rs == grid(rows@),
            dks == dk,
            wide == width,
            shaped(es, c as nat, dks),
            shaped(ks, c as nat, dks),
            shaped(rs, c as nat, wide),
            out@.len() == r,
            grid(out@) == x.solved(dks, wide, es, ks, rs, r as nat),
    {
        let ghost above = grid(out@);
        proof {
            x.lemma_solved_shape(dks, wide, es, ks, rs, r as nat);
            assert(e@.len() == es.len());
            assert(khat@.len() == ks.len());
        }
        let ghost pull_entry = |i: int| x.pull(dks, es, ks, r as int, i);
        let pulls = fill_row(
            r,
            |i: usize| -> (o: T)
                requires
                    i < r,
                ensures
                    o == pull_entry(i as int)
                {
                    let ghost term = |d: int| x.times(es[r as int][d], ks[i as int][d]);
                    let mut total: T = x.zero();
                    for d in 0..dk
                        invariant
                            x.wf(),
                            i < r < c,
                            c == e@.len(),
                            c == khat@.len(),
                            es == grid(e@),
                            ks == grid(khat@),
                            dks == dk,
                            shaped(es, c as nat, dks),
                            shaped(ks, c as nat, dks),
                            term == |d: int| x.times(es[r as int][d], ks[i as int][d]),
                            total == x.drained(d as nat, term),
                    {
                        assert(es[r as int].len() == dk);
                        assert(ks[i as int].len() == dk);
                        total = x.minus(total, x.times(e[r][d], khat[i][d]));
                    }
                    total
                },
            Ghost(pull_entry),
        );
        let ghost entry = |j: int|
            x.gathered(
                rs[r as int][j],
                r as nat,
                |i: int| x.times(x.pull(dks, es, ks, r as int, i), above[i][j]),
            );
        let row = fill_row(
            width,
            |j: usize| -> (o: T)
                requires
                    j < width,
                ensures
                    o == entry(j as int)
                {
                    let ghost term = |i: int|
                        x.times(x.pull(dks, es, ks, r as int, i), above[i][j as int]);
                    assert(rs[r as int].len() == width);
                    x.gather(
                        rows[r][j],
                        r,
                        |i: usize| -> (o: T)
                            requires
                                i < r,
                            ensures
                                o == term(i as int)
                            {
                                assert(above[i as int].len() == width);
                                assert(pulls@[i as int] == pull_entry(i as int));
                                x.times(pulls[i], out[i][j])
                            },
                        Ghost(term),
                    )
                },
            Ghost(entry),
        );
        let ghost before = out@;
        out.push(row);
        proof {
            let next = x.solved(dks, wide, es, ks, rs, (r + 1) as nat);
            assert(next.drop_last() =~= above);
            assert forall|j: int| 0 <= j < wide implies row@[j] == next[r as int][j] by {
                x.lemma_gathered_same(
                    rs[r as int][j],
                    r as nat,
                    |i: int| x.times(x.pull(dks, es, ks, r as int, i), above[i][j]),
                    |i: int| x.times(x.pull(dks, es, ks, (r + 1) - 1, i), above[i][j]),
                );
            }
            assert(row@ =~= next[r as int]);
            assert forall|i: int| 0 <= i < r + 1 implies grid(out@)[i] == next[i] by {
                if i < r {
                    assert(out@[i] == before[i]);
                    assert(above[i] == grid(before)[i]);
                    assert(next[i] == next.drop_last()[i]);
                }
            }
            assert(grid(out@) =~= next);
        }
    }
    proof {
        x.lemma_solved_shape(dks, wide, es, ks, rs, c as nat);
        assert forall|i: int| 0 <= i < out@.len() implies #[trigger] out@[i]@.len() == width by {
            assert(grid(out@)[i].len() == width);
        }
    }
    out
}

/// One chunk of one head at once, with decays kept as summed logarithms.
pub(crate) fn wy_chunk_head<
    T: Copy,
    F: Fn(ScalarOp, T, T) -> T,
    C: Fn(Number) -> T,
    Z: Fn(Relation, T, T) -> bool,
>(
    x: &Scalars<T, F, C, Z>,
    state: &mut Vec<Vec<T>>,
    q: &[Vec<T>],
    k: &[Vec<T>],
    v: &[Vec<T>],
    alpha: &[Vec<T>],
    b: &[Vec<T>],
    w: &[Vec<T>],
    dk: usize,
    dv: usize,
) -> (out: Vec<Vec<T>>)
    requires
        x.wf(),
        0 < q@.len() <= MAX_WY_CHUNK,
        shaped(grid(old(state)@), dk as nat, dv as nat),
        slice_rows(q@, k@, v@, alpha@, b@, w@).wf(q@.len(), dk as nat, dv as nat),
    ensures
        grid(final(state)@) == x.wy_state(
            dk as nat,
            dv as nat,
            slice_rows(q@, k@, v@, alpha@, b@, w@),
            grid(old(state)@),
        ),
        grid(out@) == x.wy_output(
            dk as nat,
            dv as nat,
            slice_rows(q@, k@, v@, alpha@, b@, w@),
            grid(old(state)@),
        ),
{
    let n: usize = q.len();
    let before: &Vec<Vec<T>> = &*state;
    let ghost s = grid(before@);
    let ghost rows = slice_rows(q@, k@, v@, alpha@, b@, w@);
    let ghost ns = n as nat;
    let ghost dks = dk as nat;
    let ghost dvs = dv as nat;
    proof {
        assert(alpha@.len() == rows.alpha.len());
        assert(k@.len() == rows.k.len());
        assert(v@.len() == rows.v.len());
        assert(b@.len() == rows.b.len());
        assert(w@.len() == rows.w.len());
        assert(before@.len() == s.len());
    }
    let g = log_rows(x, alpha, dk);
    let ghost gs = grid(g@);
    let ghost decay_cell = |r: int, d: int| x.exp(gs[r][d]);
    let decay = fill_table(
        n,
        dk,
        |r: usize, d: usize| -> (o: T)
            requires
                r < n,
                d < dk,
            ensures
                o == decay_cell(r as int, d as int)
            {
                x.exp(g[r][d])
            },
        Ghost(decay_cell),
    );
    let ghost ds = grid(decay@);
    let ghost e_cell = |r: int, d: int| x.times(x.times(ds[r][d], rows.b[r][d]), rows.k[r][d]);
    let e = fill_table(
        n,
        dk,
        |r: usize, d: usize| -> (o: T)
            requires
                r < n,
                d < dk,
            ensures
                o == e_cell(r as int, d as int)
            {
                assert(rows.b[r as int].len() == dk);
                assert(rows.k[r as int].len() == dk);
                x.times(x.times(decay[r][d], b[r][d]), k[r][d])
            },
        Ghost(e_cell),
    );
    let ghost khat_cell = |r: int, d: int| x.over(rows.k[r][d], x.larger(ds[r][d], x.least()));
    let khat = fill_table(
        n,
        dk,
        |r: usize, d: usize| -> (o: T)
            requires
                r < n,
                d < dk,
            ensures
                o == khat_cell(r as int, d as int)
            {
                assert(rows.k[r as int].len() == dk);
                x.over(k[r][d], x.larger(decay[r][d], x.least()))
            },
        Ghost(khat_cell),
    );
    let ghost z_cell = |r: int, j: int| x.times(rows.w[r][j], rows.v[r][j]);
    let z = fill_table(
        n,
        dv,
        |r: usize, j: usize| -> (o: T)
            requires
                r < n,
                j < dv,
            ensures
                o == z_cell(r as int, j as int)
            {
                assert(rows.w[r as int].len() == dv);
                assert(rows.v[r as int].len() == dv);
                x.times(w[r][j], v[r][j])
            },
        Ghost(z_cell),
    );
    let ghost es = grid(e@);
    let ghost ks = grid(khat@);
    proof {
        assert(ds =~~= x.exp_table(ns, dks, gs));
        assert(es =~~= x.erased_keys(ns, dks, ds, rows.b, rows.k));
        assert(ks =~~= x.lifted_keys(ns, dks, ds, rows.k));
        assert(grid(z@) =~~= x.write_table(ns, dvs, rows.w, rows.v));
    }
    let tz = solve_rows(x, &e, &khat, &z, dk, dv);
    let te = solve_rows(x, &e, &khat, &e, dk, dk);
    let ghost us = grid(tz@);
    let ghost ys = grid(te@);
    let ghost written_cell = |r: int, j: int|
        x.minus(us[r][j], x.gathered(x.zero(), dks, |d: int| x.times(ys[r][d], s[d][j])));
    let written = fill_table(
        n,
        dv,
        |r: usize, j: usize| -> (o: T)
            requires
                r < n,
                j < dv,
            ensures
                o == written_cell(r as int, j as int)
            {
                let ghost term = |d: int| x.times(ys[r as int][d], s[d][j as int]);
                let read = x.gather(
                    x.zero(),
                    dk,
                    |d: usize| -> (o: T)
                        requires
                            d < dk,
                        ensures
                            o == term(d as int)
                        {
                            assert(s[d as int].len() == dv);
                            x.times(te[r][d], before[d][j])
                        },
                    Ghost(term),
                );
                x.minus(tz[r][j], read)
            },
        Ghost(written_cell),
    );
    let ghost ws = grid(written@);
    proof {
        assert(ws =~~= x.wy_written(dks, dvs, rows, s));
    }
    let ghost found_cell = |r: int, i: int| x.wy_found(dks, ds, ks, rows.q, r, i);
    let found = fill_table(
        n,
        n,
        |r: usize, i: usize| -> (o: T)
            requires
                r < n,
                i < n,
            ensures
                o == found_cell(r as int, i as int)
            {
                let ghost term = |d: int|
                    x.times(x.times(rows.q[r as int][d], ds[r as int][d]), ks[i as int][d]);
                x.gather(
                    x.zero(),
                    dk,
                    |d: usize| -> (o: T)
                        requires
                            d < dk,
                        ensures
                            o == term(d as int)
                        {
                            assert(rows.q[r as int].len() == dk);
                            x.times(x.times(q[r][d], decay[r][d]), khat[i][d])
                        },
                    Ghost(term),
                )
            },
        Ghost(found_cell),
    );
    let ghost out_cell = |r: int, j: int|
        x.gathered(
            x.gathered(
                x.zero(),
                dks,
                |d: int| x.times(x.times(rows.q[r][d], ds[r][d]), s[d][j]),
            ),
            (r + 1) as nat,
            |i: int| x.times(x.wy_found(dks, ds, ks, rows.q, r, i), ws[i][j]),
        );
    let out = fill_table(
        n,
        dv,
        |r: usize, j: usize| -> (o: T)
            requires
                r < n,
                j < dv,
            ensures
                o == out_cell(r as int, j as int)
            {
                let ghost kept = |d: int|
                    x.times(x.times(rows.q[r as int][d], ds[r as int][d]), s[d][j as int]);
                let start = x.gather(
                    x.zero(),
                    dk,
                    |d: usize| -> (o: T)
                        requires
                            d < dk,
                        ensures
                            o == kept(d as int)
                        {
                            assert(rows.q[r as int].len() == dk);
                            assert(s[d as int].len() == dv);
                            x.times(x.times(q[r][d], decay[r][d]), before[d][j])
                        },
                    Ghost(kept),
                );
                let ghost term = |i: int|
                    x.times(x.wy_found(dks, ds, ks, rows.q, r as int, i), ws[i][j as int]);
                x.gather(
                    start,
                    r + 1,
                    |i: usize| -> (o: T)
                        requires
                            i <= r,
                        ensures
                            o == term(i as int)
                        {
                            assert(grid(found@)[r as int][i as int] == found_cell(
                                r as int,
                                i as int,
                            ));
                            x.times(found[r][i], written[i][j])
                        },
                    Ghost(term),
                )
            },
        Ghost(out_cell),
    );
    let ghost next_cell = |d: int, j: int|
        x.gathered(
            x.times(x.exp(gs[n - 1][d]), s[d][j]),
            ns,
            |r: int|
                x.times(
                    x.times(rows.k[r][d], x.exp(x.minus(gs[n - 1][d], gs[r][d]))),
                    ws[r][j],
                ),
        );
    let next = fill_table(
        dk,
        dv,
        |d: usize, j: usize| -> (o: T)
            requires
                d < dk,
                j < dv,
            ensures
                o == next_cell(d as int, j as int)
            {
                let ghost term = |r: int|
                    x.times(
                        x.times(
                            rows.k[r][d as int],
                            x.exp(x.minus(gs[n - 1][d as int], gs[r][d as int])),
                        ),
                        ws[r][j as int],
                    );
                assert(s[d as int].len() == dv);
                x.gather(
                    x.times(x.exp(g[n - 1][d]), before[d][j]),
                    n,
                    |r: usize| -> (o: T)
                        requires
                            r < n,
                        ensures
                            o == term(r as int)
                        {
                            assert(rows.k[r as int].len() == dk);
                            x.times(
                                x.times(k[r][d], x.exp(x.minus(g[n - 1][d], g[r][d]))),
                                written[r][j],
                            )
                        },
                    Ghost(term),
                )
            },
        Ghost(next_cell),
    );
    proof {
        assert(grid(out@) =~~= x.wy_output(dks, dvs, rows, s));
        assert(grid(next@) =~~= x.wy_state(dks, dvs, rows, s));
    }
    *state = next;
    out
}

/// Every head's tokens chunk by chunk, with decays kept as summed logarithms.
pub fn gdn2_chunkwise_forward<
    T: Copy,
    F: Fn(ScalarOp, T, T) -> T,
    C: Fn(Number) -> T,
    Z: Fn(Relation, T, T) -> bool,
>(
    x: &Scalars<T, F, C, Z>,
    q: &[Vec<Vec<T>>],
    k: &[Vec<Vec<T>>],
    v: &[Vec<Vec<T>>],
    alpha: &[Vec<Vec<T>>],
    b: &[Vec<Vec<T>>],
    w: &[Vec<Vec<T>>],
    heads: usize,
    d_k: usize,
    d_v: usize,
    chunk_size: usize,
) -> (out: Vec<Vec<Vec<T>>>)
    requires
        x.wf(),
        q@.len() > 0,
        heads > 0 && q@[0]@.len() > 0 ==> d_k > 0,
        covers(q@, heads as nat, q@[0]@.len(), d_k as nat),
        covers(k@, heads as nat, q@[0]@.len(), d_k as nat),
        covers(v@, heads as nat, q@[0]@.len(), d_v as nat),
        covers(alpha@, heads as nat, q@[0]@.len(), d_k as nat),
        covers(b@, heads as nat, q@[0]@.len(), d_k as nat),
        covers(w@, heads as nat, q@[0]@.len(), d_v as nat),
    ensures
        x.chunk_result(
            ChunkForm::Logarithms,
            q@,
            k@,
            v@,
            alpha@,
            b@,
            w@,
            heads as nat,
            d_k as nat,
            d_v as nat,
            chunk_size,
            out@,
        ),
{
    chunkwise(
        x,
        ChunkForm::Logarithms,
        q,
        k,
        v,
        alpha,
        b,
        w,
        heads,
        d_k,
        d_v,
        chunk_size,
    )
}

/// Every entry was converted by `f`.
pub open spec fn converted<S, T, W: Fn(S) -> T>(
    f: W,
    from: Seq<Vec<Vec<S>>>,
    to: Seq<Vec<Vec<T>>>,
) -> bool {
    &&& to.len() == from.len()
    &&& forall|h: int| 0 <= h < from.len() ==> #[trigger] to[h]@.len() == from[h]@.len()
    &&& forall|h: int, i: int|
        0 <= h < from.len() && 0 <= i < from[h]@.len() ==> #[trigger] to[h]@[i]@.len()
            == from[h]@[i]@.len()
    &&& forall|h: int, i: int, j: int|
        0 <= h < from.len() && 0 <= i < from[h]@.len() && 0 <= j < from[h]@[i]@.len()
            ==> call_ensures(f, (from[h]@[i]@[j],), #[trigger] to[h]@[i]@[j])
}

/// Converts every entry.
fn convert<S: Copy, T, W: Fn(S) -> T>(f: &W, from: &[Vec<Vec<S>>]) -> (to: Vec<Vec<Vec<T>>>)
    requires
        forall|a: S| #[trigger] call_requires(*f, (a,)),
    ensures
        converted(*f, from@, to@),
{
    let mut to: Vec<Vec<Vec<T>>> = Vec::new();
    for h in 0..from.len()
        invariant
            forall|a: S| #[trigger] call_requires(*f, (a,)),
            converted(*f, from@.subrange(0, h as int), to@),
    {
        let mut table: Vec<Vec<T>> = Vec::new();
        let rows: usize = from[h].len();
        for i in 0..rows
            invariant
                h < from@.len(),
                rows == from@[h as int]@.len(),
                forall|a: S| #[trigger] call_requires(*f, (a,)),
                table@.len() == i,
                forall|g: int|
                    0 <= g < i ==> #[trigger] table@[g]@.len() == from@[h as int]@[g]@.len(),
                forall|g: int, j: int|
                    0 <= g < i && 0 <= j < from@[h as int]@[g]@.len() ==> call_ensures(
                        *f,
                        (from@[h as int]@[g]@[j],),
                        #[trigger] table@[g]@[j],
                    ),
        {
            let mut row: Vec<T> = Vec::new();
            let width: usize = from[h][i].len();
            for j in 0..width
                invariant
                    h < from@.len(),
                    width == from@[h as int]@[i as int]@.len(),
                    i < from@[h as int]@.len(),
                    forall|a: S| #[trigger] call_requires(*f, (a,)),
                    row@.len() == j,
                    forall|g: int|
                        0 <= g < j ==> call_ensures(
                            *f,
                            (from@[h as int]@[i as int]@[g],),
                            #[trigger] row@[g],
                        ),
            {
                let v = f(from[h][i][j]);
                row.push(v);
            }
            table.push(row);
        }
        let ghost before = to@;
        to.push(table);
        proof {
            let sofar = from@.subrange(0, h + 1);
            assert forall|g: int, i: int, j: int|
                0 <= g < sofar.len() && 0 <= i < sofar[g]@.len() && 0 <= j
                    < sofar[g]@[i]@.len() implies call_ensures(
                *f,
                (sofar[g]@[i]@[j],),
                #[trigger] to@[g]@[i]@[j],
            ) by {
                if g < h {
                    assert(to@[g] == before[g]);
                    assert(from@.subrange(0, h as int)[g] == sofar[g]);
                }
            }
            assert forall|g: int, i: int|
                0 <= g < sofar.len() && 0 <= i
                    < sofar[g]@.len() implies #[trigger] to@[g]@[i]@.len()
                == sofar[g]@[i]@.len() by {
                if g < h {
                    assert(to@[g] == before[g]);
                    assert(from@.subrange(0, h as int)[g] == sofar[g]);
                }
            }
            assert forall|g: int| 0 <= g < sofar.len() implies #[trigger] to@[g]@.len()
                == sofar[g]@.len() by {
                if g < h {
                    assert(to@[g] == before[g]);
                    assert(from@.subrange(0, h as int)[g] == sofar[g]);
                }
            }
        }
    }
    proof {
        assert(from@.subrange(0, from@.len() as int) =~= from@);
    }
    to
}

/// Every head's tokens chunk by chunk for narrow numbers: they are widened, the
/// chunks run wide, and the outputs are narrowed.
pub fn gdn2_chunkwise_forward_f32<
    S: Copy,
    T: Copy,
    F: Fn(ScalarOp, T, T) -> T,
    C: Fn(Number) -> T,
    Z: Fn(Relation, T, T) -> bool,
    W: Fn(S) -> T,
    N: Fn(T) -> S,
>(
    x: &Scalars<T, F, C, Z>,
    q: &[Vec<Vec<S>>],
    k: &[Vec<Vec<S>>],
    v: &[Vec<Vec<S>>],
    alpha: &[Vec<Vec<S>>],
    b: &[Vec<Vec<S>>],
    w: &[Vec<Vec<S>>],
    heads: usize,
    d_k: usize,
    d_v: usize,
    chunk_size: usize,
    widen: W,
    narrow: N,
) -> (out: Vec<Vec<Vec<S>>>)
    requires
        x.wf(),
        forall|a: S| #[trigger] call_requires(widen, (a,)),
        forall|a: T| #[trigger] call_requires(narrow, (a,)),
        q@.len() > 0,
        heads > 0 && q@[0]@.len() > 0 ==> d_k > 0,
        covers(q@, heads as nat, q@[0]@.len(), d_k as nat),
        covers(k@, heads as nat, q@[0]@.len(), d_k as nat),
        covers(v@, heads as nat, q@[0]@.len(), d_v as nat),
        covers(alpha@, heads as nat, q@[0]@.len(), d_k as nat),
        covers(b@, heads as nat, q@[0]@.len(), d_k as nat),
        covers(w@, heads as nat, q@[0]@.len(), d_v as nat),
    ensures
        exists|
            qw: Vec<Vec<Vec<T>>>,
            kw: Vec<Vec<Vec<T>>>,
            vw: Vec<Vec<Vec<T>>>,
            alphaw: Vec<Vec<Vec<T>>>,
            bw: Vec<Vec<Vec<T>>>,
            ww: Vec<Vec<Vec<T>>>,
            wide: Vec<Vec<Vec<T>>>,
        |
            #![trigger x.chunk_result(ChunkForm::Logarithms, qw@, kw@, vw@, alphaw@, bw@, ww@, heads as nat, d_k as nat, d_v as nat, chunk_size, wide@)]
converted(widen, q@, qw@) && converted(widen, k@, kw@) && converted(widen, v@, vw@) && converted(widen, alpha@, alphaw@) && converted(widen, b@, bw@) && converted(widen, w@, ww@) && x.chunk_result(
                ChunkForm::Logarithms,
                qw@,
                kw@,
                vw@,
                alphaw@,
                bw@,
                ww@,
                heads as nat,
                d_k as nat,
                d_v as nat,
                chunk_size,
                wide@,
            ) && converted(narrow, wide@, out@),
{
    let qw = convert(&widen, q);
    let kw = convert(&widen, k);
    let vw = convert(&widen, v);
    let alphaw = convert(&widen, alpha);
    let bw = convert(&widen, b);
    let ww = convert(&widen, w);
    proof {
        lemma_converted_covers(widen, q@, qw@, heads as nat, q@[0]@.len(), d_k as nat);
        lemma_converted_covers(widen, k@, kw@, heads as nat, q@[0]@.len(), d_k as nat);
        lemma_converted_covers(widen, v@, vw@, heads as nat, q@[0]@.len(), d_v as nat);
        lemma_converted_covers(widen, alpha@, alphaw@, heads as nat, q@[0]@.len(), d_k as nat);
        lemma_converted_covers(widen, b@, bw@, heads as nat, q@[0]@.len(), d_k as nat);
        lemma_converted_covers(widen, w@, ww@, heads as nat, q@[0]@.len(), d_v as nat);
        assert(qw@[0]@.len() == q@[0]@.len());
    }
    let wide = gdn2_chunkwise_forward(
        x,
        qw.as_slice(),
        kw.as_slice(),
        vw.as_slice(),
        alphaw.as_slice(),
        bw.as_slice(),
        ww.as_slice(),
        heads,
        d_k,
        d_v,
        chunk_size,
    );
    convert(&narrow, wide.as_slice())
}

/// Converting keeps the shape.
proof fn lemma_converted_covers<S, T, W: Fn(S) -> T>(
    f: W,
    from: Seq<Vec<Vec<S>>>,
    to: Seq<Vec<Vec<T>>>,
    heads: nat,
    t: nat,
    dim: nat,
)
    requires
        converted(f, from, to),
        covers(from, heads, t, dim),
    ensures
        covers(to, heads, t, dim),
{
    assert forall|h: int| 0 <= h < heads implies #[trigger] to[h]@.len() >= t by {
        assert(from[h]@.len() >= t);
    }
    assert forall|h: int, i: int| 0 <= h < heads && 0 <= i < t implies #[trigger] to[h]@[i]@.len()
        == dim by {
        assert(from[h]@.len() >= t);
        assert(from[h]@[i]@.len() == dim);
    }
}

} // verus!
