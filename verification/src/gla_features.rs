//! Feature matching: one recurrent block's attention against a target, with
//! exact slopes in the three gate projections.

use crate::gla::{covers, gdn2_forward, head_rows};
use crate::gla_backward::{gdn2_backward, rows_at, TokenBack};
use crate::kernels::logistic;
use crate::rows::copy_range;
use crate::scalar::{cells, fill_row, fill_table, grid, Number, Relation, ScalarOp, Scalars};
use vstd::prelude::*;

verus! {

/// The weights of one block, row by row of the output.
#[derive(Debug, Clone)]
pub struct FmWeights<T> {
    pub wq: Vec<Vec<T>>,
    pub wk: Vec<Vec<T>>,
    pub wv: Vec<Vec<T>>,
    pub wo: Vec<Vec<T>>,
}

/// Everything that going back needs of going forward.
#[derive(Debug, Clone)]
pub struct FmCache<T> {
    pub q: Vec<Vec<Vec<T>>>,
    pub k: Vec<Vec<Vec<T>>>,
    pub v: Vec<Vec<Vec<T>>>,
    pub alpha: Vec<Vec<Vec<T>>>,
    pub b: Vec<Vec<Vec<T>>>,
    pub w: Vec<Vec<Vec<T>>>,
    pub o: Vec<Vec<Vec<T>>>,
    pub out: Vec<Vec<T>>,
    pub zb: Vec<Vec<T>>,
    pub zw: Vec<Vec<T>>,
    pub zf: Vec<Vec<T>>,
}

/// The slopes in the logits of each gate, token by token.
#[derive(Debug, Clone)]
pub struct FmLogitGrads<T> {
    pub dzb: Vec<Vec<T>>,
    pub dzw: Vec<Vec<T>>,
    pub dzf: Vec<Vec<T>>,
}

/// The smaller of two lengths.
pub open spec fn common(a: nat, b: nat) -> nat {
    if a <= b {
        a
    } else {
        b
    }
}

impl<T: Copy, F: Fn(ScalarOp, T, T) -> T, C: Fn(Number) -> T, Z: Fn(Relation, T, T) -> bool> Scalars<T, F, C, Z> {
    /// Each row of a matrix times a vector, as far as both go.
    pub open spec fn matvec_of(&self, w: Seq<Seq<T>>, x: Seq<T>) -> Seq<T> {
        Seq::new(
            w.len(),
            |r: int|
                self.gathered(
                    self.zero(),
                    common(w[r].len(), x.len()),
                    |i: int| self.times(w[r][i], x[i]),
                ),
        )
    }

    /// The gates of a row of logits.
    pub open spec fn gates_of(&self, z: Seq<T>) -> Seq<T> {
        Seq::new(z.len(), |i: int| self.logistic_of(z[i]))
    }

    /// What a vector is divided by to have length one.
    pub open spec fn norm_of(&self, v: Seq<T>) -> T {
        self.larger(
            self.root(self.gathered(self.zero(), v.len(), |i: int| self.times(v[i], v[i]))),
            self.tiny(),
        )
    }

    /// The vector divided by its length.
    pub open spec fn normed(&self, v: Seq<T>) -> Seq<T> {
        Seq::new(v.len(), |i: int| self.over(v[i], self.norm_of(v)))
    }
}

/// `len` entries of a row.
pub open spec fn part_of<T>(row: Seq<T>, from: nat, len: nat) -> Seq<T> {
    row.subrange(from as int, (from + len) as int)
}

/// Where the key and value channels of query head `h` start.
pub open spec fn kv_start(h: nat, heads: nat, kv_heads: nat, dk: nat) -> nat {
    let group = heads / (if kv_heads == 0 { 1 } else { kv_heads });
    (h / (if group == 0 { 1 } else { group })) * dk
}

/// Each row of a matrix times a vector, as far as both go.
fn matvec<
    T: Copy,
    F: Fn(ScalarOp, T, T) -> T,
    C: Fn(Number) -> T,
    Z: Fn(Relation, T, T) -> bool,
>(x: &Scalars<T, F, C, Z>, w: &Vec<Vec<T>>, v: &[T]) -> (r: Vec<T>)
    requires
        x.wf(),
    ensures
        r@ == x.matvec_of(grid(w@), v@),
{
    let rows: usize = w.len();
    let ghost ws = grid(w@);
    let ghost cell = |r: int|
        x.gathered(
            x.zero(),
            common(ws[r].len(), v@.len()),
            |i: int| x.times(ws[r][i], v@[i]),
        );
    let out = fill_row(
        rows,
        |r: usize| -> (o: T)
            requires
                r < rows,
            ensures
                o == cell(r as int)
            {
                let n: usize = if w[r].len() <= v.len() {
                    w[r].len()
                } else {
                    v.len()
                };
                let ghost term = |i: int| x.times(ws[r as int][i], v@[i]);
                assert(ws[r as int] == w@[r as int]@);
                x.gather(
                    x.zero(),
                    n,
                    |i: usize| -> (o: T)
                        requires
                            i < n,
                        ensures
                            o == term(i as int)
                        { x.times(w[r][i], v[i]) },
                    Ghost(term),
                )
            },
        Ghost(cell),
    );
    proof {
        assert(out@ =~= x.matvec_of(ws, v@));
    }
    out
}

/// The vector divided by its length.
fn normalize<
    T: Copy,
    F: Fn(ScalarOp, T, T) -> T,
    C: Fn(Number) -> T,
    Z: Fn(Relation, T, T) -> bool,
>(x: &Scalars<T, F, C, Z>, v: &[T]) -> (r: Vec<T>)
    requires
        x.wf(),
    ensures
        r@ == x.normed(v@),
{
    let n: usize = v.len();
    let ghost square = |i: int| x.times(v@[i], v@[i]);
    let total = x.gather(
        x.zero(),
        n,
        |i: usize| -> (o: T)
            requires
                i < n,
            ensures
                o == square(i as int)
            { x.times(v[i], v[i]) },
        Ghost(square),
    );
    let norm = x.larger(x.root(total), x.tiny());
    let ghost cell = |i: int| x.over(v@[i], norm);
    let r = fill_row(
        n,
        |i: usize| -> (o: T)
            requires
                i < n,
            ensures
                o == cell(i as int)
            { x.over(v[i], norm) },
        Ghost(cell),
    );
    proof {
        assert(r@ =~= x.normed(v@));
    }
    r
}

/// The gates of a table of logits.
fn gate_rows<
    T: Copy,
    F: Fn(ScalarOp, T, T) -> T,
    C: Fn(Number) -> T,
    Z: Fn(Relation, T, T) -> bool,
>(x: &Scalars<T, F, C, Z>, z: &[Vec<T>]) -> (r: Vec<Vec<T>>)
    requires
        x.wf(),
    ensures
        r@.len() == z@.len(),
        forall|i: int| 0 <= i < z@.len() ==> #[trigger] r@[i]@ == x.gates_of(z@[i]@),
{
    let mut r: Vec<Vec<T>> = Vec::new();
    for i in 0..z.len()
        invariant
            x.wf(),
            r@.len() == i,
            forall|g: int| 0 <= g < i ==> #[trigger] r@[g]@ == x.gates_of(z@[g]@),
    {
        let ghost row = z@[i as int]@;
        let width: usize = z[i].len();
        let ghost cell = |j: int| x.logistic_of(row[j]);
        let gates = fill_row(
            width,
            |j: usize| -> (o: T)
                requires
                    j < width,
                ensures
                    o == cell(j as int)
                { logistic(x, z[i][j]) },
            Ghost(cell),
        );
        proof {
            assert(gates@ =~= x.gates_of(row));
        }
        r.push(gates);
    }
    r
}

/// The same gates for every head.
fn gate_stack<
    T: Copy,
    F: Fn(ScalarOp, T, T) -> T,
    C: Fn(Number) -> T,
    Z: Fn(Relation, T, T) -> bool,
>(x: &Scalars<T, F, C, Z>, z: &[Vec<T>], heads: usize) -> (r: Vec<Vec<Vec<T>>>)
    requires
        x.wf(),
    ensures
        rows_at(r@, heads as nat, z@.len(), |h: int, t: int| x.gates_of(z@[t]@)),
{
    let mut r: Vec<Vec<Vec<T>>> = Vec::new();
    for h in 0..heads
        invariant
            x.wf(),
            rows_at(r@, h as nat, z@.len(), |h: int, t: int| x.gates_of(z@[t]@)),
    {
        let table = gate_rows(x, z);
        r.push(table);
    }
    r
}

/// A copy of a table.
fn copy_table<T: Copy>(z: &[Vec<T>]) -> (r: Vec<Vec<T>>)
    ensures
        grid(r@) == grid(z@),
{
    let mut r: Vec<Vec<T>> = Vec::new();
    for i in 0..z.len()
        invariant
            r@.len() == i,
            forall|g: int| 0 <= g < i ==> #[trigger] r@[g]@ == z@[g]@,
    {
        let row = copy_range(z[i].as_slice(), 0, z[i].len());
        proof {
            assert(row@ =~= z@[i as int]@);
        }
        r.push(row);
    }
    proof {
        assert(grid(r@) =~= grid(z@));
    }
    r
}

/// Every row of a table times a matrix.
fn project_rows<
    T: Copy,
    F: Fn(ScalarOp, T, T) -> T,
    C: Fn(Number) -> T,
    Z: Fn(Relation, T, T) -> bool,
>(x: &Scalars<T, F, C, Z>, w: &Vec<Vec<T>>, rows: &[Vec<T>]) -> (r: Vec<Vec<T>>)
    requires
        x.wf(),
    ensures
        r@.len() == rows@.len(),
        forall|t: int|
            0 <= t < rows@.len() ==> #[trigger] r@[t]@ == x.matvec_of(grid(w@), rows@[t]@),
{
    let mut r: Vec<Vec<T>> = Vec::new();
    for t in 0..rows.len()
        invariant
            x.wf(),
            r@.len() == t,
            forall|g: int| 0 <= g < t ==> #[trigger] r@[g]@ == x.matvec_of(grid(w@), rows@[g]@),
    {
        let row = matvec(x, w, rows[t].as_slice());
        r.push(row);
    }
    r
}

/// The channels of one head in every row, of length one where asked for.
fn head_channels<
    T: Copy,
    F: Fn(ScalarOp, T, T) -> T,
    C: Fn(Number) -> T,
    Z: Fn(Relation, T, T) -> bool,
>(
    x: &Scalars<T, F, C, Z>,
    rows: &Vec<Vec<T>>,
    from: usize,
    dk: usize,
    unit: bool,
) -> (r: Vec<Vec<T>>)
    requires
        x.wf(),
        forall|t: int| 0 <= t < rows@.len() ==> from + dk <= #[trigger] rows@[t]@.len(),
    ensures
        r@.len() == rows@.len(),
        forall|t: int|
            0 <= t < rows@.len() ==> #[trigger] r@[t]@ == if unit {
                x.normed(part_of(rows@[t]@, from as nat, dk as nat))
            } else {
                part_of(rows@[t]@, from as nat, dk as nat)
            },
{
    let mut r: Vec<Vec<T>> = Vec::new();
    for t in 0..rows.len()
        invariant
            x.wf(),
            forall|t: int| 0 <= t < rows@.len() ==> from + dk <= #[trigger] rows@[t]@.len(),
            r@.len() == t,
            forall|g: int|
                0 <= g < t ==> #[trigger] r@[g]@ == if unit {
                    x.normed(part_of(rows@[g]@, from as nat, dk as nat))
                } else {
                    part_of(rows@[g]@, from as nat, dk as nat)
                },
    {
        assert(from + dk <= rows@[t as int]@.len());
        let part = copy_range(rows[t].as_slice(), from, dk);
        if unit {
            let row = normalize(x, part.as_slice());
            r.push(row);
        } else {
            r.push(part);
        }
    }
    r
}

impl<T: Copy, F: Fn(ScalarOp, T, T) -> T, C: Fn(Number) -> T, Z: Fn(Relation, T, T) -> bool> Scalars<T, F, C, Z> {
    /// What going forward over `rows` leaves.
    pub open spec fn fm_cached(
        &self,
        rows: Seq<Vec<T>>,
        w: FmWeights<T>,
        heads: nat,
        kv_heads: nat,
        dk: nat,
        dv: nat,
        zb: Seq<Vec<T>>,
        zw: Seq<Vec<T>>,
        zf: Seq<Vec<T>>,
        c: FmCache<T>,
    ) -> bool {
        let t = rows.len();
        &&& rows_at(
            c.q@,
            heads,
            t,
            |h: int, i: int|
                self.normed(
                    part_of(self.matvec_of(grid(w.wq@), rows[i]@), h as nat * dk, dk),
                ),
        )
        &&& rows_at(
            c.k@,
            heads,
            t,
            |h: int, i: int|
                self.normed(
                    part_of(self.matvec_of(grid(w.wk@), rows[i]@), kv_start(h as nat, heads, kv_heads, dk), dk),
                ),
        )
        &&& rows_at(
            c.v@,
            heads,
            t,
            |h: int, i: int|
                part_of(self.matvec_of(grid(w.wv@), rows[i]@), kv_start(h as nat, heads, kv_heads, dv), dv),
        )
        &&& rows_at(c.alpha@, heads, zf.len(), |h: int, i: int| self.gates_of(zf[i]@))
        &&& rows_at(c.b@, heads, zb.len(), |h: int, i: int| self.gates_of(zb[i]@))
        &&& rows_at(c.w@, heads, zw.len(), |h: int, i: int| self.gates_of(zw[i]@))
        &&& rows_at(
            c.o@,
            heads,
            t,
            |h: int, i: int|
                self.serial_output(
                    dk,
                    dv,
                    head_rows(c.q@, c.k@, c.v@, c.alpha@, c.b@, c.w@, h),
                    self.blank(dk, dv),
                    i,
                ),
        )
        &&& c.out@.len() == t
        &&& forall|i: int|
            0 <= i < t ==> #[trigger] c.out@[i]@ == self.matvec_of(
                grid(w.wo@),
                heads_side_by_side(c.o@, heads, dv, i),
            )
        &&& grid(c.zb@) == grid(zb)
        &&& grid(c.zw@) == grid(zw)
        &&& grid(c.zf@) == grid(zf)
    }
}

/// The outputs of all heads for token `t`, head after head.
pub open spec fn heads_side_by_side<T>(o: Seq<Vec<Vec<T>>>, heads: nat, dv: nat, t: int) -> Seq<T> {
    Seq::new(heads * dv, |i: int| o[i / dv as int]@[t]@[i % dv as int])
}

/// The outputs of all heads for one token, head after head.
fn join_heads<T: Copy>(o: &Vec<Vec<Vec<T>>>, heads: usize, dv: usize, t: usize) -> (r: Vec<T>)
    requires
        o@.len() == heads,
        heads * dv <= usize::MAX,
        forall|h: int| 0 <= h < heads ==> t < #[trigger] o@[h]@.len(),
        forall|h: int| 0 <= h < heads ==> (#[trigger] o@[h])@[t as int]@.len() == dv,
    ensures
        r@ == heads_side_by_side(o@, heads as nat, dv as nat, t as int),
{
    let width: usize = heads * dv;
    let ghost cell = |i: int| o@[i / dv as int]@[t as int]@[i % dv as int];
    let r = fill_row(
        width,
        |i: usize| -> (c: T)
            requires
                i < width,
            ensures
                c == cell(i as int)
            {
                proof {
                    lemma_head_of(i as int, heads as int, dv as int);
                }
                assert(t < o@[i as int / dv as int]@.len());
                assert(o@[i as int / dv as int]@[t as int]@.len() == dv);
                o[i / dv][t][i % dv]
            },
        Ghost(cell),
    );
    proof {
        assert(r@ =~= heads_side_by_side(o@, heads as nat, dv as nat, t as int));
    }
    r
}

/// A flat channel belongs to a head, and has its place in it.
pub(crate) proof fn lemma_head_of(i: int, heads: int, dv: int)
    requires
        0 <= i < heads * dv,
        0 <= heads,
        0 <= dv,
    ensures
        0 < dv,
        0 <= i / dv < heads,
        0 <= i % dv < dv,
        i == (i / dv) * dv + i % dv,
{
    assert(0 < dv) by (nonlinear_arith)
        requires
            0 <= i < heads * dv,
            0 <= dv,
    ;
    assert(0 <= i / dv < heads && 0 <= i % dv < dv && i == (i / dv) * dv + i % dv)
        by (nonlinear_arith)
        requires
            0 <= i < heads * dv,
            0 < dv,
    ;
}

/// Where the key and value channels of a query head start.
fn kv_offset(h: usize, heads: usize, kv_heads: usize, dk: usize) -> (r: usize)
    requires
        kv_start(h as nat, heads as nat, kv_heads as nat, dk as nat) <= usize::MAX,
    ensures
        r == kv_start(h as nat, heads as nat, kv_heads as nat, dk as nat),
{
    let group: usize = heads / (if kv_heads == 0 { 1 } else { kv_heads });
    (h / (if group == 0 { 1 } else { group })) * dk
}

/// One block's attention, forward: projections, unit queries and keys, gates,
/// the recurrence, and the output projection.
pub fn fm_forward<
    T: Copy,
    F: Fn(ScalarOp, T, T) -> T,
    C: Fn(Number) -> T,
    Z: Fn(Relation, T, T) -> bool,
>(
    x: &Scalars<T, F, C, Z>,
    rows: &[Vec<T>],
    w: &FmWeights<T>,
    heads: usize,
    kv_heads: usize,
    dk: usize,
    dv: usize,
    zb: &[Vec<T>],
    zw: &[Vec<T>],
    zf: &[Vec<T>],
) -> (c: FmCache<T>)
    requires
        x.wf(),
        rows@.len() > 0,
        heads > 0,
        dk > 0,
        heads * dv <= usize::MAX,
        heads * dk <= w.wq@.len(),
        forall|h: nat|
            h < heads ==> #[trigger] kv_start(h, heads as nat, kv_heads as nat, dk as nat) + dk <= w.wk@.len(),
        forall|h: nat|
            h < heads ==> #[trigger] kv_start(h, heads as nat, kv_heads as nat, dv as nat) + dv <= w.wv@.len(),
        zb@.len() >= rows@.len(),
        zw@.len() >= rows@.len(),
        zf@.len() >= rows@.len(),
        forall|t: int| 0 <= t < rows@.len() ==> #[trigger] zb@[t]@.len() == dk,
        forall|t: int| 0 <= t < rows@.len() ==> #[trigger] zw@[t]@.len() == dv,
        forall|t: int| 0 <= t < rows@.len() ==> #[trigger] zf@[t]@.len() == dk,
    ensures
        x.fm_cached(
            rows@,
            *w,
            heads as nat,
            kv_heads as nat,
            dk as nat,
            dv as nat,
            zb@,
            zw@,
            zf@,
            c,
        ),
{
    let t_len: usize = rows.len();
    let ghost ts = t_len as nat;
    let ghost hs = heads as nat;
    let ghost dvs = dv as nat;
    let ghost dks = dk as nat;
    let ghost kvs = kv_heads as nat;
    let qr = project_rows(x, &w.wq, rows);
    let kr = project_rows(x, &w.wk, rows);
    let vr = project_rows(x, &w.wv, rows);
    let mut q: Vec<Vec<Vec<T>>> = Vec::new();
    let mut k: Vec<Vec<Vec<T>>> = Vec::new();
    let mut v: Vec<Vec<Vec<T>>> = Vec::new();
    let ghost q_row = |h: int, i: int|
        x.normed(part_of(x.matvec_of(grid(w.wq@), rows@[i]@), h as nat * dks, dks));
    let ghost k_row = |h: int, i: int|
        x.normed(
            part_of(x.matvec_of(grid(w.wk@), rows@[i]@), kv_start(h as nat, hs, kvs, dks), dks),
        );
    let ghost v_row = |h: int, i: int|
        part_of(x.matvec_of(grid(w.wv@), rows@[i]@), kv_start(h as nat, hs, kvs, dvs), dvs);
    for h in 0..heads
        invariant
            x.wf(),
            t_len == rows@.len(),
            ts == t_len,
            hs == heads,
            dks == dk,
            dvs == dv,
            kvs == kv_heads,
            heads * dk <= w.wq@.len(),
            forall|h: nat|
                h < heads ==> #[trigger] kv_start(h, hs, kvs, dks) + dk
                    <= w.wk@.len(),
            forall|h: nat|
                h < heads ==> #[trigger] kv_start(h, hs, kvs, dvs) + dv
                    <= w.wv@.len(),
            qr@.len() == t_len,
            kr@.len() == t_len,
            vr@.len() == t_len,
            forall|t: int|
                0 <= t < ts ==> #[trigger] qr@[t]@ == x.matvec_of(grid(w.wq@), rows@[t]@),
            forall|t: int|
                0 <= t < ts ==> #[trigger] kr@[t]@ == x.matvec_of(grid(w.wk@), rows@[t]@),
            forall|t: int|
                0 <= t < ts ==> #[trigger] vr@[t]@ == x.matvec_of(grid(w.wv@), rows@[t]@),
            q_row == |h: int, i: int|
                x.normed(part_of(x.matvec_of(grid(w.wq@), rows@[i]@), h as nat * dks, dks)),
            k_row == |h: int, i: int|
                x.normed(
                    part_of(x.matvec_of(grid(w.wk@), rows@[i]@), kv_start(h as nat, hs, kvs, dks), dks),
                ),
            v_row == |h: int, i: int|
                part_of(x.matvec_of(grid(w.wv@), rows@[i]@), kv_start(h as nat, hs, kvs, dvs), dvs),
            rows_at(q@, h as nat, ts, q_row),
            rows_at(k@, h as nat, ts, k_row),
            rows_at(v@, h as nat, ts, v_row),
    {
        proof {
            assert(w.wq.len() == w.wq@.len() && w.wk.len() == w.wk@.len() && w.wv.len()
                == w.wv@.len());
            assert(kv_start(h as nat, hs, kvs, dks) + dk <= w.wk@.len());
            assert(kv_start(h as nat, hs, kvs, dvs) + dv <= w.wv@.len());
            assert(h * dk + dk <= heads * dk) by (nonlinear_arith)
                requires
                    h < heads,
            ;
        }
        let off: usize = h * dk;
        let kv_off: usize = kv_offset(h, heads, kv_heads, dk);
        let qh = head_channels(x, &qr, off, dk, true);
        let kh = head_channels(x, &kr, kv_off, dk, true);
        let v_off: usize = kv_offset(h, heads, kv_heads, dv);
        let vh = head_channels(x, &vr, v_off, dv, false);
        q.push(qh);
        k.push(kh);
        v.push(vh);
    }
    let alpha = gate_stack(x, zf, heads);
    let b = gate_stack(x, zb, heads);
    let wg = gate_stack(x, zw, heads);
    proof {
        assert(w.wq.len() == w.wq@.len());
        assert(q@[0]@.len() == t_len);
        assert forall|h: int, i: int| 0 <= h < heads && 0 <= i < t_len implies #[trigger] q@[h]@[i]@.len() == dk by {
            lemma_cell_bound(h, heads as int, dk as int);
            assert(q@[h]@[i]@ == q_row(h, i));
        }
        assert forall|h: int, i: int| 0 <= h < heads && 0 <= i < t_len implies #[trigger] k@[h]@[i]@.len() == dk by {
            assert(k@[h]@[i]@ == k_row(h, i));
            assert(kv_start(h as nat, hs, kvs, dks) + dk <= w.wk@.len());
        }
        assert forall|h: int, i: int| 0 <= h < heads && 0 <= i < t_len implies #[trigger] v@[h]@[i]@.len() == dv by {
            assert(v@[h]@[i]@ == v_row(h, i));
            assert(kv_start(h as nat, hs, kvs, dvs) + dv <= w.wv@.len());
        }
        assert forall|h: int, i: int| 0 <= h < heads && 0 <= i < t_len implies #[trigger] alpha@[h]@[i]@.len() == dk by {
            assert(zf@[i]@.len() == dk);
        }
        assert forall|h: int, i: int| 0 <= h < heads && 0 <= i < t_len implies #[trigger] b@[h]@[i]@.len() == dk by {
            assert(zb@[i]@.len() == dk);
        }
        assert forall|h: int, i: int| 0 <= h < heads && 0 <= i < t_len implies #[trigger] wg@[h]@[i]@.len() == dv by {
            assert(zw@[i]@.len() == dv);
        }
    }
    let o = gdn2_forward(
        x,
        q.as_slice(),
        k.as_slice(),
        v.as_slice(),
        alpha.as_slice(),
        b.as_slice(),
        wg.as_slice(),
        heads,
        dk,
        dv,
    );
    let mut out: Vec<Vec<T>> = Vec::new();
    for t in 0..t_len
        invariant
            x.wf(),
            o@.len() == heads,
            heads * dv <= usize::MAX,
            forall|h: int| 0 <= h < heads ==> #[trigger] o@[h]@.len() == t_len,
            forall|h: int, i: int|
                0 <= h < heads && 0 <= i < t_len ==> #[trigger] o@[h]@[i]@.len() == dv,
            out@.len() == t,
            forall|i: int|
                0 <= i < t ==> #[trigger] out@[i]@ == x.matvec_of(
                    grid(w.wo@),
                    heads_side_by_side(o@, heads as nat, dv as nat, i),
                ),
    {
        assert forall|h: int| 0 <= h < heads implies (#[trigger] o@[h])@[t as int]@.len()
            == dv by {
            assert(o@[h]@[t as int]@.len() == dv);
        }
        let joined = join_heads(&o, heads, dv, t);
        let row = matvec(x, &w.wo, joined.as_slice());
        out.push(row);
    }
    FmCache {
        q,
        k,
        v,
        alpha,
        b,
        w: wg,
        o,
        out,
        zb: copy_table(zb),
        zw: copy_table(zw),
        zf: copy_table(zf),
    }
}

/// A head's channels lie within those of all heads.
proof fn lemma_cell_bound(h: int, heads: int, dk: int)
    requires
        0 <= h < heads,
        0 <= dk,
    ensures
        0 <= h * dk,
        h * dk + dk <= heads * dk,
{
    assert(0 <= h * dk && h * dk + dk <= heads * dk) by (nonlinear_arith)
        requires
            0 <= h < heads,
            0 <= dk,
    ;
}

impl<T: Copy, F: Fn(ScalarOp, T, T) -> T, C: Fn(Number) -> T, Z: Fn(Relation, T, T) -> bool> Scalars<T, F, C, Z> {
    /// The slope of the summed squared distance to `y` in the outputs of head
    /// `h`, token by token.
    pub open spec fn fm_up(
        &self,
        out: Seq<Vec<T>>,
        y: Seq<Vec<T>>,
        wo: Seq<Vec<T>>,
        dv: nat,
        h: int,
    ) -> Seq<Seq<T>> {
        let hidden = out[0]@.len();
        cells(
            out.len(),
            dv,
            |t: int, j: int|
                self.times(
                    self.gathered(
                        self.zero(),
                        hidden,
                        |i: int|
                            self.times(wo[i]@[h * dv + j], self.minus(out[t]@[i], y[t]@[i])),
                    ),
                    self.number(2),
                ),
        )
    }

    /// What head `h` leaves for going back over token `t`.
    pub open spec fn fm_back(
        &self,
        c: FmCache<T>,
        y: Seq<Vec<T>>,
        wo: Seq<Vec<T>>,
        dk: nat,
        dv: nat,
        h: int,
        t: int,
    ) -> TokenBack<T> {
        self.back_at(
            dk,
            dv,
            head_rows(c.q@, c.k@, c.v@, c.alpha@, c.b@, c.w@, h),
            self.fm_up(c.out@, y, wo, dv, h),
            c.q@[0]@.len(),
            t,
        )
    }

    /// A slope in a gate, followed back through the logistic function.
    pub open spec fn through_gate(&self, slope: T, gate: T) -> T {
        self.times(self.times(slope, gate), self.minus(self.one(), gate))
    }

    /// The slope in channel `i` of the erase logits of token `t`: every head's,
    /// added up.
    pub open spec fn erase_logit_slope(
        &self,
        c: FmCache<T>,
        y: Seq<Vec<T>>,
        wo: Seq<Vec<T>>,
        heads: nat,
        dk: nat,
        dv: nat,
        t: int,
        i: int,
    ) -> T {
        self.gathered(
            self.zero(),
            heads,
            |h: int|
                self.through_gate(
                    self.b_slope(dk, dv, self.fm_back(c, y, wo, dk, dv, h, t))[i],
                    c.b@[h]@[t]@[i],
                ),
        )
    }

    /// The slope in channel `i` of the decay logits of token `t`: every head's,
    /// added up.
    pub open spec fn decay_logit_slope(
        &self,
        c: FmCache<T>,
        y: Seq<Vec<T>>,
        wo: Seq<Vec<T>>,
        heads: nat,
        dk: nat,
        dv: nat,
        t: int,
        i: int,
    ) -> T {
        self.gathered(
            self.zero(),
            heads,
            |h: int|
                self.through_gate(
                    self.alpha_slope(dk, dv, self.fm_back(c, y, wo, dk, dv, h, t))[i],
                    c.alpha@[h]@[t]@[i],
                ),
        )
    }

    /// The slope in channel `i` of the write logits of token `t`: every head's,
    /// added up.
    pub open spec fn write_logit_slope(
        &self,
        c: FmCache<T>,
        y: Seq<Vec<T>>,
        wo: Seq<Vec<T>>,
        heads: nat,
        dk: nat,
        dv: nat,
        t: int,
        i: int,
    ) -> T {
        self.gathered(
            self.zero(),
            heads,
            |h: int|
                self.through_gate(
                    self.w_slope(dk, dv, self.fm_back(c, y, wo, dk, dv, h, t))[i],
                    c.w@[h]@[t]@[i],
                ),
        )
    }
}

/// The slopes in the outputs of every head.
fn output_slopes<
    T: Copy,
    F: Fn(ScalarOp, T, T) -> T,
    C: Fn(Number) -> T,
    Z: Fn(Relation, T, T) -> bool,
>(
    x: &Scalars<T, F, C, Z>,
    out: &Vec<Vec<T>>,
    y: &[Vec<T>],
    wo: &[Vec<T>],
    heads: usize,
    dv: usize,
) -> (up: Vec<Vec<Vec<T>>>)
    requires
        x.wf(),
        out@.len() > 0,
        heads * dv <= usize::MAX,
        forall|t: int| 0 <= t < out@.len() ==> #[trigger] out@[t]@.len() >= out@[0]@.len(),
        y@.len() >= out@.len(),
        forall|t: int| 0 <= t < out@.len() ==> #[trigger] y@[t]@.len() >= out@[0]@.len(),
        wo@.len() >= out@[0]@.len(),
        forall|i: int| 0 <= i < out@[0]@.len() ==> #[trigger] wo@[i]@.len() >= heads * dv,
    ensures
        up@.len() == heads,
        forall|h: int|
            0 <= h < heads ==> grid((#[trigger] up@[h])@) == x.fm_up(
                out@,
                y@,
                wo@,
                dv as nat,
                h,
            ),
{
    let t_len: usize = out.len();
    let hidden: usize = out[0].len();
    let two = x.number(2);
    let mut up: Vec<Vec<Vec<T>>> = Vec::new();
    for h in 0..heads
        invariant
            x.wf(),
            out@.len() > 0,
            t_len == out@.len(),
            hidden == out@[0]@.len(),
            two == x.number(2),
            heads * dv <= usize::MAX,
            forall|t: int| 0 <= t < out@.len() ==> #[trigger] out@[t]@.len() >= out@[0]@.len(),
            y@.len() >= out@.len(),
            forall|t: int| 0 <= t < out@.len() ==> #[trigger] y@[t]@.len() >= out@[0]@.len(),
            wo@.len() >= out@[0]@.len(),
            forall|i: int| 0 <= i < out@[0]@.len() ==> #[trigger] wo@[i]@.len() >= heads * dv,
            up@.len() == h,
            forall|g: int|
                0 <= g < h ==> grid((#[trigger] up@[g])@) == x.fm_up(out@, y@, wo@, dv as nat, g),
    {
        let ghost cell = |t: int, j: int|
            x.times(
                x.gathered(
                    x.zero(),
                    hidden as nat,
                    |i: int| x.times(wo@[i]@[h * dv + j], x.minus(out@[t]@[i], y@[t]@[i])),
                ),
                two,
            );
        let table = fill_table(
            t_len,
            dv,
            |t: usize, j: usize| -> (o: T)
                requires
                    t < t_len,
                    j < dv,
                ensures
                    o == cell(t as int, j as int)
                {
                    let ghost term = |i: int|
                        x.times(
                            wo@[i]@[h * dv + j as int],
                            x.minus(out@[t as int]@[i], y@[t as int]@[i]),
                        );
                    proof {
                        lemma_cell_bound(h as int, heads as int, dv as int);
                    }
                    let total = x.gather(
                        x.zero(),
                        hidden,
                        |i: usize| -> (o: T)
                            requires
                                i < hidden,
                            ensures
                                o == term(i as int)
                            {
                                assert(out@[t as int]@.len() >= hidden);
                                assert(y@[t as int]@.len() >= hidden);
                                assert(wo@[i as int]@.len() >= heads * dv);
                                x.times(wo[i][h * dv + j], x.minus(out[t][i], y[t][i]))
                            },
                        Ghost(term),
                    );
                    x.times(total, two)
                },
            Ghost(cell),
        );
        proof {
            assert(grid(table@) =~~= x.fm_up(out@, y@, wo@, dv as nat, h as int));
        }
        up.push(table);
    }
    up
}

/// Slopes in gate logits: the slopes in the gates, summed over the heads that
/// share them and followed back through the logistic function.
fn logit_slopes<
    T: Copy,
    F: Fn(ScalarOp, T, T) -> T,
    C: Fn(Number) -> T,
    Z: Fn(Relation, T, T) -> bool,
>(
    x: &Scalars<T, F, C, Z>,
    slopes: &Vec<Vec<Vec<T>>>,
    gates: &Vec<Vec<Vec<T>>>,
    heads: usize,
    t_steps: usize,
    dim: usize,
) -> (r: Vec<Vec<T>>)
    requires
        x.wf(),
        covers(slopes@, heads as nat, t_steps as nat, dim as nat),
        covers(gates@, heads as nat, t_steps as nat, dim as nat),
    ensures
        grid(r@) == cells(
            t_steps as nat,
            dim as nat,
            |t: int, i: int|
                x.gathered(
                    x.zero(),
                    heads as nat,
                    |h: int| x.through_gate(slopes@[h]@[t]@[i], gates@[h]@[t]@[i]),
                ),
        ),
{
    let ghost cell = |t: int, i: int|
        x.gathered(
            x.zero(),
            heads as nat,
            |h: int| x.through_gate(slopes@[h]@[t]@[i], gates@[h]@[t]@[i]),
        );
    fill_table(
        t_steps,
        dim,
        |t: usize, i: usize| -> (o: T)
            requires
                t < t_steps,
                i < dim,
            ensures
                o == cell(t as int, i as int)
            {
                let ghost term = |h: int|
                    x.through_gate(
                        slopes@[h]@[t as int]@[i as int],
                        gates@[h]@[t as int]@[i as int],
                    );
                x.gather(
                    x.zero(),
                    heads,
                    |h: usize| -> (o: T)
                        requires
                            h < heads,
                        ensures
                            o == term(h as int)
                        {
                            assert(slopes@[h as int]@.len() >= t_steps);
                            assert(gates@[h as int]@.len() >= t_steps);
                            assert(slopes@[h as int]@[t as int]@.len() == dim);
                            assert(gates@[h as int]@[t as int]@.len() == dim);
                            let gate = gates[h][t][i];
                            x.times(
                                x.times(slopes[h][t][i], gate),
                                x.minus(x.one(), gate),
                            )
                        },
                    Ghost(term),
                )
            },
        Ghost(cell),
    )
}

/// Going back over a block: from the summed squared distance between the outputs
/// and `y` to the logits of each gate. The other weights stay as they are.
pub fn fm_backward<
    T: Copy,
    F: Fn(ScalarOp, T, T) -> T,
    C: Fn(Number) -> T,
    Z: Fn(Relation, T, T) -> bool,
>(
    x: &Scalars<T, F, C, Z>,
    cache: &FmCache<T>,
    y: &[Vec<T>],
    wo: &[Vec<T>],
    heads: usize,
    dk: usize,
    dv: usize,
) -> (g: FmLogitGrads<T>)
    requires
        x.wf(),
        cache.out@.len() > 0,
        cache.q@.len() > 0,
        heads * dv <= usize::MAX,
        forall|t: int|
            0 <= t < cache.out@.len() ==> #[trigger] cache.out@[t]@.len() >= cache.out@[0]@.len(),
        y@.len() >= cache.out@.len(),
        forall|t: int|
            0 <= t < cache.out@.len() ==> #[trigger] y@[t]@.len() >= cache.out@[0]@.len(),
        wo@.len() >= cache.out@[0]@.len(),
        forall|i: int| 0 <= i < cache.out@[0]@.len() ==> #[trigger] wo@[i]@.len() >= heads * dv,
        cache.out@.len() >= cache.q@[0]@.len(),
        cache.zb@.len() <= cache.q@[0]@.len(),
        covers(cache.q@, heads as nat, cache.q@[0]@.len(), dk as nat),
        covers(cache.k@, heads as nat, cache.q@[0]@.len(), dk as nat),
        covers(cache.v@, heads as nat, cache.q@[0]@.len(), dv as nat),
        covers(cache.alpha@, heads as nat, cache.q@[0]@.len(), dk as nat),
        covers(cache.b@, heads as nat, cache.q@[0]@.len(), dk as nat),
        covers(cache.w@, heads as nat, cache.q@[0]@.len(), dv as nat),
    ensures
        grid(g.dzb@) == cells(
            cache.zb@.len(),
            dk as nat,
            |t: int, i: int|
                x.erase_logit_slope(*cache, y@, wo@, heads as nat, dk as nat, dv as nat, t, i),
        ),
        grid(g.dzf@) == cells(
            cache.zb@.len(),
            dk as nat,
            |t: int, i: int|
                x.decay_logit_slope(*cache, y@, wo@, heads as nat, dk as nat, dv as nat, t, i),
        ),
        grid(g.dzw@) == cells(
            cache.zb@.len(),
            dv as nat,
            |t: int, j: int|
                x.write_logit_slope(*cache, y@, wo@, heads as nat, dk as nat, dv as nat, t, j),
        ),
{
    let ghost dks = dk as nat;
    let ghost dvs = dv as nat;
    let ghost hs = heads as nat;
    let up = output_slopes(x, &cache.out, y, wo, heads, dv);
    let ghost t = cache.q@[0]@.len();
    proof {
        assert forall|h: int| 0 <= h < heads implies #[trigger] up@[h]@.len() >= t by {
            assert(grid(up@[h]@).len() == cache.out@.len());
        }
        assert forall|h: int, i: int| 0 <= h < heads && 0 <= i
            < t implies #[trigger] up@[h]@[i]@.len() == dv by {
            assert(grid(up@[h]@)[i] == x.fm_up(cache.out@, y@, wo@, dvs, h)[i]);
        }
    }
    let g = gdn2_backward(
        x,
        cache.q.as_slice(),
        cache.k.as_slice(),
        cache.v.as_slice(),
        cache.alpha.as_slice(),
        cache.b.as_slice(),
        cache.w.as_slice(),
        up.as_slice(),
        heads,
        dk,
        dv,
    );
    let t_steps: usize = cache.zb.len();
    let dzb = logit_slopes(x, &g.db, &cache.b, heads, t_steps, dk);
    let dzf = logit_slopes(x, &g.dalpha, &cache.alpha, heads, t_steps, dk);
    let dzw = logit_slopes(x, &g.dw, &cache.w, heads, t_steps, dv);
    proof {
        assert forall|s: int, i: int|
            0 <= s < t_steps && 0 <= i < dk implies #[trigger] grid(dzb@)[s][i]
            == x.erase_logit_slope(*cache, y@, wo@, hs, dks, dvs, s, i) by {
            x.lemma_gathered_same(
                x.zero(),
                hs,
                |h: int| x.through_gate(g.db@[h]@[s]@[i], cache.b@[h]@[s]@[i]),
                |h: int|
                    x.through_gate(
                        x.b_slope(dks, dvs, x.fm_back(*cache, y@, wo@, dks, dvs, h, s))[i],
                        cache.b@[h]@[s]@[i],
                    ),
            );
        }
        assert forall|s: int, i: int|
            0 <= s < t_steps && 0 <= i < dk implies #[trigger] grid(dzf@)[s][i]
            == x.decay_logit_slope(*cache, y@, wo@, hs, dks, dvs, s, i) by {
            x.lemma_gathered_same(
                x.zero(),
                hs,
                |h: int| x.through_gate(g.dalpha@[h]@[s]@[i], cache.alpha@[h]@[s]@[i]),
                |h: int|
                    x.through_gate(
                        x.alpha_slope(dks, dvs, x.fm_back(*cache, y@, wo@, dks, dvs, h, s))[i],
                        cache.alpha@[h]@[s]@[i],
                    ),
            );
        }
        assert forall|s: int, i: int|
            0 <= s < t_steps && 0 <= i < dv implies #[trigger] grid(dzw@)[s][i]
            == x.write_logit_slope(*cache, y@, wo@, hs, dks, dvs, s, i) by {
            x.lemma_gathered_same(
                x.zero(),
                hs,
                |h: int| x.through_gate(g.dw@[h]@[s]@[i], cache.w@[h]@[s]@[i]),
                |h: int|
                    x.through_gate(
                        x.w_slope(dks, dvs, x.fm_back(*cache, y@, wo@, dks, dvs, h, s))[i],
                        cache.w@[h]@[s]@[i],
                    ),
            );
        }
        assert(grid(dzb@) =~~= cells(
            cache.zb@.len(),
            dks,
            |t: int, i: int|
                x.erase_logit_slope(*cache, y@, wo@, hs, dks, dvs, t, i),
        ));
        assert(grid(dzf@) =~~= cells(
            cache.zb@.len(),
            dks,
            |t: int, i: int|
                x.decay_logit_slope(*cache, y@, wo@, hs, dks, dvs, t, i),
        ));
        assert(grid(dzw@) =~~= cells(
            cache.zb@.len(),
            dvs,
            |t: int, j: int|
                x.write_logit_slope(*cache, y@, wo@, hs, dks, dvs, t, j),
        ));
    }
    FmLogitGrads { dzb, dzw, dzf }
}

impl<T: Copy, F: Fn(ScalarOp, T, T) -> T, C: Fn(Number) -> T, Z: Fn(Relation, T, T) -> bool> Scalars<T, F, C, Z> {
    /// Zero, with those of the first `n` terms added that are there.
    pub open spec fn gathered_where(
        &self,
        n: nat,
        there: spec_fn(int) -> bool,
        term: spec_fn(int) -> T,
    ) -> T
        decreases n,
    {
        if n == 0 {
            self.zero()
        } else {
            let before = self.gathered_where((n - 1) as nat, there, term);
            if there(n - 1) {
                self.plus(before, term(n - 1))
            } else {
                before
            }
        }
    }
}

/// From slopes in logits to slopes in the projection that gives them, and in its
/// bias: sums over the tokens. Entries that a row lacks add nothing.
pub fn fm_logit_to_weight_grads<
    T: Copy,
    F: Fn(ScalarOp, T, T) -> T,
    C: Fn(Number) -> T,
    Z: Fn(Relation, T, T) -> bool,
>(x: &Scalars<T, F, C, Z>, dz: &[Vec<T>], rows: &[Vec<T>]) -> (g: (Vec<Vec<T>>, Vec<T>))
    requires
        x.wf(),
        rows@.len() > 0,
        dz@.len() >= rows@.len(),
        forall|t: int| 0 <= t < rows@.len() ==> #[trigger] dz@[t]@.len() <= dz@[0]@.len(),
        forall|t: int| 0 <= t < rows@.len() ==> #[trigger] rows@[t]@.len() <= rows@[0]@.len(),
    ensures
        grid(g.0@) == cells(
            dz@[0]@.len(),
            rows@[0]@.len(),
            |i: int, j: int|
                x.gathered_where(
                    rows@.len(),
                    |t: int| i < dz@[t]@.len() && j < rows@[t]@.len(),
                    |t: int| x.times(dz@[t]@[i], rows@[t]@[j]),
                ),
        ),
        g.1@ == Seq::new(
            dz@[0]@.len(),
            |i: int|
                x.gathered_where(
                    rows@.len(),
                    |t: int| i < dz@[t]@.len(),
                    |t: int| dz@[t]@[i],
                ),
        ),
{
    let t_len: usize = rows.len();
    let out_dim: usize = dz[0].len();
    let in_dim: usize = rows[0].len();
    let ghost cell = |i: int, j: int|
        x.gathered_where(
            rows@.len(),
            |t: int| i < dz@[t]@.len() && j < rows@[t]@.len(),
            |t: int| x.times(dz@[t]@[i], rows@[t]@[j]),
        );
    let dw = fill_table(
        out_dim,
        in_dim,
        |i: usize, j: usize| -> (o: T)
            requires
                i < out_dim,
                j < in_dim,
            ensures
                o == cell(i as int, j as int)
            {
                let ghost there = |t: int| (i as int) < dz@[t]@.len() && (j as int) < rows@[t]@.len();
                let ghost term = |t: int| x.times(dz@[t]@[i as int], rows@[t]@[j as int]);
                let mut total: T = x.zero();
                for t in 0..t_len
                    invariant
                        x.wf(),
                        t_len == rows@.len(),
                        dz@.len() >= rows@.len(),
                        there == |t: int| (i as int) < dz@[t]@.len() && (j as int) < rows@[t]@.len(),
                        term == |t: int| x.times(dz@[t]@[i as int], rows@[t]@[j as int]),
                        total == x.gathered_where(t as nat, there, term),
                {
                    if i < dz[t].len() && j < rows[t].len() {
                        total = x.plus(total, x.times(dz[t][i], rows[t][j]));
                    }
                }
                total
            },
        Ghost(cell),
    );
    let ghost entry = |i: int|
        x.gathered_where(rows@.len(), |t: int| i < dz@[t]@.len(), |t: int| dz@[t]@[i]);
    let dbeta = fill_row(
        out_dim,
        |i: usize| -> (o: T)
            requires
                i < out_dim,
            ensures
                o == entry(i as int)
            {
                let ghost there = |t: int| (i as int) < dz@[t]@.len();
                let ghost term = |t: int| dz@[t]@[i as int];
                let mut total: T = x.zero();
                for t in 0..t_len
                    invariant
                        x.wf(),
                        t_len == rows@.len(),
                        dz@.len() >= rows@.len(),
                        there == |t: int| (i as int) < dz@[t]@.len(),
                        term == |t: int| dz@[t]@[i as int],
                        total == x.gathered_where(t as nat, there, term),
                {
                    if i < dz[t].len() {
                        total = x.plus(total, dz[t][i]);
                    }
                }
                total
            },
        Ghost(entry),
    );
    (dw, dbeta)
}

} // verus!
