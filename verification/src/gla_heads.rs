//! How the heads of a gated-delta block share keys and values, and how they are
//! put together.

use crate::gla::head_rows;
use crate::gla_backward::Gdn2Grads;
use crate::gla_chunks::ChunkForm;
use crate::gla_features::{common, heads_side_by_side, kv_start, part_of, FmCache, FmWeights};
use crate::head_map::grouped_heads;
use crate::rows::{lemma_cell_coordinates, lemma_flat_index, lemma_row_bounds, stacked};
use crate::scalar::{grid, Number, Relation, ScalarOp, Scalars};
use vstd::prelude::*;

verus! {

/// Head `r` of run `j` of `g` heads each, and where it reads.
proof fn lemma_run<T>(j: nat, r: nat, g: nat, kv_heads: nat, dim: nat)
    requires
        r < g,
        j < kv_heads,
    ensures
        j * g + r < g * kv_heads,
        (j * g + r) / g == j,
        kv_start(j * g + r, g * kv_heads, kv_heads, dim) == j * dim,
        kv_start(j * g + r, g * kv_heads, g * kv_heads, dim) == (j * g + r) * dim,
{
    let (heads, h) = (g * kv_heads, j * g + r);
    assert(h < heads) by (nonlinear_arith)
        requires
            h == j * g + r,
            heads == g * kv_heads,
            r < g,
            j < kv_heads,
    ;
    vstd::arithmetic::div_mod::lemma_div_multiples_vanish(g as int, kv_heads as int);
    vstd::arithmetic::mul::lemma_mul_is_commutative(g as int, kv_heads as int);
    assert(heads / kv_heads == g);
    lemma_cell_coordinates(j as int, r as int, g as int);
    vstd::arithmetic::div_mod::lemma_div_by_self(heads as int);
    vstd::arithmetic::div_mod::lemma_div_basics(h as int);
}

/// Query heads share key-value heads in runs: of `g` times as many query heads
/// as key-value heads, two read the same channels exactly where they stand in
/// the same run of `g`, and each reads the block of the key-value head that the
/// table of grouped heads names.
pub proof fn law_key_value_heads_serve_runs(h: nat, other: nat, g: nat, kv_heads: nat, dim: nat)
    requires
        g > 0,
        dim > 0,
        h < g * kv_heads,
        other < g * kv_heads,
    ensures
        kv_start(h, g * kv_heads, kv_heads, dim) == kv_start(other, g * kv_heads, kv_heads, dim)
            <==> h / g == other / g,
        kv_heads * g <= usize::MAX ==> kv_start(h, g * kv_heads, kv_heads, dim) == grouped_heads(
            g * kv_heads,
            kv_heads,
        )[h as int] * dim,
        kv_start(h, g * kv_heads, kv_heads, dim) + dim <= kv_heads * dim,
{
    vstd::arithmetic::mul::lemma_mul_is_commutative(g as int, kv_heads as int);
    lemma_flat_index(h as int, kv_heads as int, g as int);
    lemma_flat_index(other as int, kv_heads as int, g as int);
    let (j, i) = (h / g, other / g);
    lemma_run::<int>(j, (h % g) as nat, g, kv_heads, dim);
    lemma_run::<int>(i, (other % g) as nat, g, kv_heads, dim);
    lemma_row_bounds(j as int, kv_heads as int, dim as int);
    if j * dim == i * dim {
        assert(j == i) by (nonlinear_arith)
            requires
                j * dim == i * dim,
                dim > 0,
        ;
    }
    vstd::arithmetic::div_mod::lemma_div_multiples_vanish(g as int, kv_heads as int);
    assert(j <= h) by (nonlinear_arith)
        requires
            h == j * g + h % g,
            g > 0,
    ;
}

impl<T: Copy, F: Fn(ScalarOp, T, T) -> T, C: Fn(Number) -> T, Z: Fn(Relation, T, T) -> bool> Scalars<T, F, C, Z> {
    /// Rows of two matrices that are the same give the same products.
    proof fn lemma_matvec_parts(
        &self,
        w: Seq<Seq<T>>,
        other: Seq<Seq<T>>,
        x: Seq<T>,
        from: nat,
        at: nat,
        len: nat,
    )
        requires
            from + len <= w.len(),
            at + len <= other.len(),
            forall|d: int| 0 <= d < len ==> w[#[trigger] (from + d)] == other[at + d],
        ensures
            part_of(self.matvec_of(w, x), from, len) == part_of(
                self.matvec_of(other, x),
                at,
                len,
            ),
    {
        let (a, b) = (
            part_of(self.matvec_of(w, x), from, len),
            part_of(self.matvec_of(other, x), at, len),
        );
        assert forall|d: int| 0 <= d < len implies a[d] == b[d] by {
            let (r, s) = (from + d, at + d);
            assert(w[r] == other[s]);
            self.lemma_gathered_same(
                self.zero(),
                common(w[r].len(), x.len()),
                |i: int| self.times(w[r][i], x[i]),
                |i: int| self.times(other[s][i], x[i]),
            );
        }
        assert(a =~= b);
    }
}

/// The rows of block `j` of one matrix are those of block `i` of another.
pub open spec fn same_block<T>(
    w: Seq<Vec<T>>,
    j: nat,
    other: Seq<Vec<T>>,
    i: nat,
    dim: nat,
) -> bool {
    &&& j * dim + dim <= w.len()
    &&& i * dim + dim <= other.len()
    &&& forall|d: int| 0 <= d < dim ==> w[#[trigger] (j * dim + d)]@ == other[i * dim + d]@
}

proof fn lemma_same_block<T: Copy, F: Fn(ScalarOp, T, T) -> T, C: Fn(Number) -> T, Z: Fn(Relation, T, T) -> bool>(
    x: &Scalars<T, F, C, Z>,
    w: Seq<Vec<T>>,
    j: nat,
    other: Seq<Vec<T>>,
    i: nat,
    dim: nat,
    row: Seq<T>,
)
    requires
        same_block(w, j, other, i, dim),
    ensures
        part_of(x.matvec_of(grid(w), row), j * dim, dim) == part_of(
            x.matvec_of(grid(other), row),
            i * dim,
            dim,
        ),
{
    assert forall|d: int| 0 <= d < dim implies grid(w)[#[trigger] (j * dim + d)] == grid(other)[i
        * dim + d] by {
        assert(w[j * dim + d]@ == other[i * dim + d]@);
    }
    x.lemma_matvec_parts(grid(w), grid(other), row, j * dim, i * dim, dim);
}

/// Head `h` reads the same key and value at token `t`, and gives the same row.
pub open spec fn same_rows<T>(c: FmCache<T>, other: FmCache<T>, h: int, t: int) -> bool {
    &&& c.k@[h]@[t]@ == other.k@[h]@[t]@
    &&& c.v@[h]@[t]@ == other.v@[h]@[t]@
    &&& c.o@[h]@[t]@ == other.o@[h]@[t]@
}

/// Sharing is repeating: a block whose query heads share key-value heads in runs
/// of `g` gives what a block gives that has every key-value head `g` times in a
/// row, one for each query head.
pub proof fn law_shared_heads_are_repeated_heads<
    T: Copy,
    F: Fn(ScalarOp, T, T) -> T,
    C: Fn(Number) -> T,
    Z: Fn(Relation, T, T) -> bool,
>(
    x: &Scalars<T, F, C, Z>,
    rows: Seq<Vec<T>>,
    w: FmWeights<T>,
    repeated: FmWeights<T>,
    g: nat,
    kv_heads: nat,
    dk: nat,
    dv: nat,
    zb: Seq<Vec<T>>,
    zw: Seq<Vec<T>>,
    zf: Seq<Vec<T>>,
    c: FmCache<T>,
    other: FmCache<T>,
)
    requires
        repeated.wq == w.wq,
        repeated.wo == w.wo,
        zb.len() == rows.len(),
        zw.len() == rows.len(),
        zf.len() == rows.len(),
        forall|j: nat, r: nat|
            #![trigger same_block(repeated.wk@, j * g + r, w.wk@, j, dk)]
            #![trigger same_block(repeated.wv@, j * g + r, w.wv@, j, dv)]
            j < kv_heads && r < g ==> same_block(repeated.wk@, j * g + r, w.wk@, j, dk)
                && same_block(repeated.wv@, j * g + r, w.wv@, j, dv),
        x.fm_cached(rows, w, g * kv_heads, kv_heads, dk, dv, zb, zw, zf, c),
        x.fm_cached(rows, repeated, g * kv_heads, g * kv_heads, dk, dv, zb, zw, zf, other),
    ensures
        forall|h: int, t: int|
            0 <= h < g * kv_heads && 0 <= t < rows.len() ==> #[trigger] same_rows(c, other, h, t),
        grid(c.out@) == grid(other.out@),
{
    let heads = g * kv_heads;
    assert forall|h: int, t: int|
        0 <= h < g * kv_heads && 0 <= t < rows.len() implies #[trigger] same_rows(
        c,
        other,
        h,
        t,
    ) by {
        vstd::arithmetic::mul::lemma_mul_is_commutative(g as int, kv_heads as int);
        lemma_flat_index(h, kv_heads as int, g as int);
        let (j, r) = ((h / g as int) as nat, (h % g as int) as nat);
        lemma_run::<T>(j, r, g, kv_heads, dk);
        lemma_run::<T>(j, r, g, kv_heads, dv);
        assert(same_block(repeated.wk@, j * g + r, w.wk@, j, dk));
        assert forall|i: int| 0 <= i < rows.len() implies #[trigger] grid(c.k@[h]@)[i] == grid(
            other.k@[h]@,
        )[i] && grid(c.v@[h]@)[i] == grid(other.v@[h]@)[i] by {
            lemma_same_block(x, repeated.wk@, j * g + r, w.wk@, j, dk, rows[i]@);
            lemma_same_block(x, repeated.wv@, j * g + r, w.wv@, j, dv, rows[i]@);
            assert(c.k@[h]@[i]@ == other.k@[h]@[i]@);
            assert(c.v@[h]@[i]@ == other.v@[h]@[i]@);
        }
        lemma_same_tables(x, c, other, heads, h, h, rows, zb, zw, zf);
        assert(c.k@[h]@[t]@ == grid(c.k@[h]@)[t] && other.k@[h]@[t]@ == grid(other.k@[h]@)[t]);
        assert(c.v@[h]@[t]@ == grid(c.v@[h]@)[t] && other.v@[h]@[t]@ == grid(other.v@[h]@)[t]);
    }
    assert forall|t: int| 0 <= t < rows.len() implies #[trigger] c.out@[t]@ == other.out@[t]@ by {
        let (a, b) = (
            heads_side_by_side(c.o@, heads, dv, t),
            heads_side_by_side(other.o@, heads, dv, t),
        );
        assert forall|i: int| 0 <= i < heads * dv implies a[i] == b[i] by {
            lemma_flat_index(i, heads as int, dv as int);
            assert(same_rows(c, other, i / dv as int, t));
            assert(c.o@[i / dv as int]@[t]@ == other.o@[i / dv as int]@[t]@);
        }
        assert(a =~= b);
    }
    assert(grid(c.out@) =~= grid(other.out@));
}

/// Heads with the same queries, keys, values and gates have the same rows.
proof fn lemma_same_tables<
    T: Copy,
    F: Fn(ScalarOp, T, T) -> T,
    C: Fn(Number) -> T,
    Z: Fn(Relation, T, T) -> bool,
>(
    x: &Scalars<T, F, C, Z>,
    c: FmCache<T>,
    other: FmCache<T>,
    heads: nat,
    h: int,
    i: int,
    rows: Seq<Vec<T>>,
    zb: Seq<Vec<T>>,
    zw: Seq<Vec<T>>,
    zf: Seq<Vec<T>>,
)
    requires
        0 <= h < c.q@.len(),
        0 <= i < other.q@.len(),
        forall|t: int|
            0 <= t < rows.len() ==> #[trigger] grid(c.k@[h]@)[t] == grid(other.k@[i]@)[t]
                && grid(c.v@[h]@)[t] == grid(other.v@[i]@)[t],
        forall|t: int|
            0 <= t < rows.len() ==> (#[trigger] c.q@[h]@[t])@ == other.q@[i]@[t]@,
        c.q@[h]@.len() == rows.len(),
        other.q@[i]@.len() == rows.len(),
        c.k@[h]@.len() == rows.len(),
        other.k@[i]@.len() == rows.len(),
        c.v@[h]@.len() == rows.len(),
        other.v@[i]@.len() == rows.len(),
        c.alpha@[h]@.len() == zf.len(),
        other.alpha@[i]@.len() == zf.len(),
        c.b@[h]@.len() == zb.len(),
        other.b@[i]@.len() == zb.len(),
        c.w@[h]@.len() == zw.len(),
        other.w@[i]@.len() == zw.len(),
        forall|t: int|
            0 <= t < zf.len() ==> (#[trigger] c.alpha@[h]@[t])@ == other.alpha@[i]@[t]@,
        forall|t: int| 0 <= t < zb.len() ==> (#[trigger] c.b@[h]@[t])@ == other.b@[i]@[t]@,
        forall|t: int| 0 <= t < zw.len() ==> (#[trigger] c.w@[h]@[t])@ == other.w@[i]@[t]@,
    ensures
        head_rows(c.q@, c.k@, c.v@, c.alpha@, c.b@, c.w@, h) == head_rows(
            other.q@,
            other.k@,
            other.v@,
            other.alpha@,
            other.b@,
            other.w@,
            i,
        ),
{
    assert(grid(c.q@[h]@) =~= grid(other.q@[i]@));
    assert(grid(c.k@[h]@) =~= grid(other.k@[i]@));
    assert(grid(c.v@[h]@) =~= grid(other.v@[i]@)) by {
        assert forall|t: int| 0 <= t < rows.len() implies grid(c.v@[h]@)[t] == grid(
            other.v@[i]@,
        )[t] by {
            assert(grid(c.k@[h]@)[t] == grid(other.k@[i]@)[t]);
        }
    }
    assert(grid(c.alpha@[h]@) =~= grid(other.alpha@[i]@));
    assert(grid(c.b@[h]@) =~= grid(other.b@[i]@));
    assert(grid(c.w@[h]@) =~= grid(other.w@[i]@));
}

/// Heads run by themselves: head `r` of the run of key-value head `j` gives what
/// the only head of a block gives whose queries are that head's, and whose keys
/// and values are that key-value head's.
pub proof fn law_heads_run_alone<
    T: Copy,
    F: Fn(ScalarOp, T, T) -> T,
    C: Fn(Number) -> T,
    Z: Fn(Relation, T, T) -> bool,
>(
    x: &Scalars<T, F, C, Z>,
    rows: Seq<Vec<T>>,
    w: FmWeights<T>,
    alone: FmWeights<T>,
    g: nat,
    kv_heads: nat,
    j: nat,
    r: nat,
    dk: nat,
    dv: nat,
    zb: Seq<Vec<T>>,
    zw: Seq<Vec<T>>,
    zf: Seq<Vec<T>>,
    c: FmCache<T>,
    other: FmCache<T>,
    t: int,
)
    requires
        j < kv_heads,
        r < g,
        0 <= t < rows.len(),
        same_block(alone.wq@, 0, w.wq@, j * g + r, dk),
        same_block(alone.wk@, 0, w.wk@, j, dk),
        same_block(alone.wv@, 0, w.wv@, j, dv),
        x.fm_cached(rows, w, g * kv_heads, kv_heads, dk, dv, zb, zw, zf, c),
        x.fm_cached(rows, alone, 1, 1, dk, dv, zb, zw, zf, other),
    ensures
        c.o@[(j * g + r) as int]@[t]@ == other.o@[0]@[t]@,
{
    let h = (j * g + r) as int;
    lemma_run::<T>(j, r, g, kv_heads, dk);
    lemma_run::<T>(j, r, g, kv_heads, dv);
    lemma_run::<T>(0, 0, 1, 1, dk);
    lemma_run::<T>(0, 0, 1, 1, dv);
    assert(kv_start(0, 1, 1, dk) == 0 * dk && kv_start(0, 1, 1, dv) == 0 * dv);
    assert forall|i: int| 0 <= i < rows.len() implies (#[trigger] c.q@[h]@[i])@
        == other.q@[0]@[i]@ by {
        lemma_same_block(x, alone.wq@, 0, w.wq@, j * g + r, dk, rows[i]@);
    }
    assert forall|i: int| 0 <= i < rows.len() implies #[trigger] grid(c.k@[h]@)[i] == grid(
        other.k@[0]@,
    )[i] && grid(c.v@[h]@)[i] == grid(other.v@[0]@)[i] by {
        lemma_same_block(x, alone.wk@, 0, w.wk@, j, dk, rows[i]@);
        lemma_same_block(x, alone.wv@, 0, w.wv@, j, dv, rows[i]@);
        assert(c.k@[h]@[i]@ == other.k@[0]@[i]@);
        assert(c.v@[h]@[i]@ == other.v@[0]@[i]@);
    }
    lemma_same_tables(x, c, other, g * kv_heads, h, 0, rows, zb, zw, zf);
}

/// The output projection reads the heads one after the other.
pub proof fn law_heads_join_in_order<
    T: Copy,
    F: Fn(ScalarOp, T, T) -> T,
    C: Fn(Number) -> T,
    Z: Fn(Relation, T, T) -> bool,
>(
    x: &Scalars<T, F, C, Z>,
    rows: Seq<Vec<T>>,
    w: FmWeights<T>,
    heads: nat,
    kv_heads: nat,
    dk: nat,
    dv: nat,
    zb: Seq<Vec<T>>,
    zw: Seq<Vec<T>>,
    zf: Seq<Vec<T>>,
    c: FmCache<T>,
    t: int,
)
    requires
        0 <= t < rows.len(),
        forall|h: int| 0 <= h < heads ==> (#[trigger] c.o@[h])@[t]@.len() == dv,
        x.fm_cached(rows, w, heads, kv_heads, dk, dv, zb, zw, zf, c),
    ensures
        c.out@[t]@ == x.matvec_of(
            grid(w.wo@),
            stacked(Seq::new(heads, |h: int| c.o@[h]@[t]@)),
        ),
{
    lemma_joined(c.o@, heads, dv, t);
}

proof fn lemma_joined<T>(o: Seq<Vec<Vec<T>>>, heads: nat, dv: nat, t: int)
    requires
        forall|h: int| 0 <= h < heads ==> (#[trigger] o[h])@[t]@.len() == dv,
    ensures
        heads_side_by_side(o, heads, dv, t) == stacked(Seq::new(heads, |h: int| o[h]@[t]@)),
    decreases heads,
{
    let parts = Seq::new(heads, |h: int| o[h]@[t]@);
    if heads == 0 {
        assert(heads_side_by_side(o, heads, dv, t) =~= stacked(parts));
    } else {
        let fewer = (heads - 1) as nat;
        lemma_joined(o, fewer, dv, t);
        assert(parts.drop_last() =~= Seq::new(fewer, |h: int| o[h]@[t]@));
        lemma_row_bounds(fewer as int, heads as int, dv as int);
        let all = heads_side_by_side(o, heads, dv, t);
        let short = heads_side_by_side(o, fewer, dv, t);
        assert(o[fewer as int]@[t]@.len() == dv);
        assert forall|i: int| 0 <= i < heads * dv implies all[i] == (short + parts.last())[i] by {
            if i >= fewer * dv {
                lemma_cell_coordinates(fewer as int, i - fewer * dv, dv as int);
            }
        }
        assert(all =~= short + parts.last());
    }
}

/// A matrix with ones on its diagonal and zeros beside them leaves a vector as it
/// is.
pub proof fn law_identity_matrix_keeps_a_vector<
    T: Copy,
    F: Fn(ScalarOp, T, T) -> T,
    C: Fn(Number) -> T,
    Z: Fn(Relation, T, T) -> bool,
>(x: &Scalars<T, F, C, Z>, w: Seq<Seq<T>>, v: Seq<T>)
    requires
        x.ring(),
        w.len() == v.len(),
        forall|r: int| 0 <= r < w.len() ==> (#[trigger] w[r]).len() == v.len(),
        forall|r: int, i: int|
            0 <= r < w.len() && 0 <= i < v.len() ==> #[trigger] w[r][i] == if r == i {
                x.one()
            } else {
                x.zero()
            },
    ensures
        x.matvec_of(w, v) == v,
{
    assert forall|r: int| 0 <= r < v.len() implies x.matvec_of(w, v)[r] == v[r] by {
        x.lemma_only_term(v.len(), r, v[r], |i: int| x.times(w[r][i], v[i]), v, w[r]);
    }
    assert(x.matvec_of(w, v) =~= v);
}

impl<T: Copy, F: Fn(ScalarOp, T, T) -> T, C: Fn(Number) -> T, Z: Fn(Relation, T, T) -> bool> Scalars<T, F, C, Z> {
    /// A sum of products with a row that is one at `at` and zero elsewhere.
    pub(crate) proof fn lemma_only_term(
        &self,
        n: nat,
        at: int,
        value: T,
        term: spec_fn(int) -> T,
        v: Seq<T>,
        picks: Seq<T>,
    )
        requires
            self.ring(),
            0 <= at < n,
            value == v[at],
            forall|i: int| 0 <= i < n ==> #[trigger] term(i) == self.times(picks[i], v[i]),
            forall|i: int|
                0 <= i < n ==> #[trigger] picks[i] == if i == at {
                    self.one()
                } else {
                    self.zero()
                },
        ensures
            self.gathered(self.zero(), n, term) == value,
        decreases n,
    {
        let m = (n - 1) as nat;
        assert(term(n - 1) == self.times(picks[n - 1], v[n - 1]));
        if at == n - 1 {
            assert forall|i: int| 0 <= i < m implies #[trigger] term(i) == self.zero() by {
                assert(picks[i] == self.zero());
                self.times_zero(v[i]);
            }
            self.gathered_nothing(m, term);
            self.times_one(value);
            self.plus_zero(value);
        } else {
            self.lemma_only_term(m, at, value, term, v, picks);
            self.times_zero(v[n - 1]);
            self.plus_zero(value);
        }
    }
}

/// Heads of the recurrence run by themselves: a head with the rows of a head of
/// another call gives what the other gives, wherever they stand.
pub proof fn law_recurrent_heads_run_alike<
    T: Copy,
    F: Fn(ScalarOp, T, T) -> T,
    C: Fn(Number) -> T,
    Z: Fn(Relation, T, T) -> bool,
>(
    x: &Scalars<T, F, C, Z>,
    dk: nat,
    dv: nat,
    q: Seq<Vec<Vec<T>>>,
    k: Seq<Vec<Vec<T>>>,
    v: Seq<Vec<Vec<T>>>,
    alpha: Seq<Vec<Vec<T>>>,
    b: Seq<Vec<Vec<T>>>,
    w: Seq<Vec<Vec<T>>>,
    h: int,
    other_q: Seq<Vec<Vec<T>>>,
    other_k: Seq<Vec<Vec<T>>>,
    other_v: Seq<Vec<Vec<T>>>,
    other_alpha: Seq<Vec<Vec<T>>>,
    other_b: Seq<Vec<Vec<T>>>,
    other_w: Seq<Vec<Vec<T>>>,
    g: int,
    start: Seq<Seq<T>>,
    t: int,
)
    requires
        grid(q[h]@) == grid(other_q[g]@),
        grid(k[h]@) == grid(other_k[g]@),
        grid(v[h]@) == grid(other_v[g]@),
        grid(alpha[h]@) == grid(other_alpha[g]@),
        grid(b[h]@) == grid(other_b[g]@),
        grid(w[h]@) == grid(other_w[g]@),
    ensures
        x.serial_output(dk, dv, head_rows(q, k, v, alpha, b, w, h), start, t) == x.serial_output(
            dk,
            dv,
            head_rows(other_q, other_k, other_v, other_alpha, other_b, other_w, g),
            start,
            t,
        ),
{
    assert(head_rows(q, k, v, alpha, b, w, h) == head_rows(
        other_q,
        other_k,
        other_v,
        other_alpha,
        other_b,
        other_w,
        g,
    ));
}

/// Value channels run by themselves: a value channel with the column, the value
/// and the write gate of a value channel of another state is corrected alike and
/// reads alike, under the same key, query, decays and erase gates.
pub proof fn law_value_channels_run_alike<
    T: Copy,
    F: Fn(ScalarOp, T, T) -> T,
    C: Fn(Number) -> T,
    Z: Fn(Relation, T, T) -> bool,
>(
    x: &Scalars<T, F, C, Z>,
    dk: nat,
    dv: nat,
    other_dv: nat,
    state: Seq<Seq<T>>,
    other: Seq<Seq<T>>,
    q: Seq<T>,
    k: Seq<T>,
    v: Seq<T>,
    other_v: Seq<T>,
    alpha: Seq<T>,
    b: Seq<T>,
    w: Seq<T>,
    other_w: Seq<T>,
    j: int,
    c: int,
)
    requires
        0 <= j < dv,
        0 <= c < other_dv,
        v[j] == other_v[c],
        w[j] == other_w[c],
        forall|i: int| 0 <= i < dk ==> #[trigger] state[i][j] == other[i][c],
    ensures
        ({
            let next = x.engraved(dk, dv, state, k, v, alpha, b, w);
            let next2 = x.engraved(dk, other_dv, other, k, other_v, alpha, b, other_w);
            &&& forall|i: int| 0 <= i < dk ==> #[trigger] next[i][j] == next2[i][c]
            &&& x.read_out(dk, dv, next, q)[j] == x.read_out(dk, other_dv, next2, q)[c]
        }),
{
    let (kept, kept2) = (
        x.decayed(dk, dv, state, alpha),
        x.decayed(dk, other_dv, other, alpha),
    );
    x.lemma_gathered_same(
        x.zero(),
        dk,
        |i: int| x.times(x.times(b[i], k[i]), kept[i][j]),
        |i: int| x.times(x.times(b[i], k[i]), kept2[i][c]),
    );
    let next = x.engraved(dk, dv, state, k, v, alpha, b, w);
    let next2 = x.engraved(dk, other_dv, other, k, other_v, alpha, b, other_w);
    assert forall|i: int| 0 <= i < dk implies #[trigger] next[i][j] == next2[i][c] by {
        assert(state[i][j] == other[i][c]);
    }
    x.lemma_gathered_same(
        x.zero(),
        dk,
        |i: int| x.times(q[i], next[i][j]),
        |i: int| x.times(q[i], next2[i][c]),
    );
}

/// Key channels run by themselves: where a key has one channel alone, that row
/// of the state changes as in a recurrence of that one channel, with its decay
/// and its erase gate, and every other row but decays by its own; and a query
/// with that channel alone reads what it reads there.
pub proof fn law_lone_key_channel_runs_alone<
    T: Copy,
    F: Fn(ScalarOp, T, T) -> T,
    C: Fn(Number) -> T,
    Z: Fn(Relation, T, T) -> bool,
>(
    x: &Scalars<T, F, C, Z>,
    dk: nat,
    dv: nat,
    state: Seq<Seq<T>>,
    q: Seq<T>,
    k: Seq<T>,
    v: Seq<T>,
    alpha: Seq<T>,
    b: Seq<T>,
    w: Seq<T>,
    i: int,
    j: int,
)
    requires
        x.ring(),
        0 <= i < dk,
        0 <= j < dv,
        forall|c: int|
            0 <= c < dk && c != i ==> #[trigger] k[c] == x.zero() && q[c] == x.zero(),
    ensures
        ({
            let next = x.engraved(dk, dv, state, k, v, alpha, b, w);
            let alone = x.engraved(
                1,
                dv,
                seq![state[i]],
                seq![k[i]],
                v,
                seq![alpha[i]],
                seq![b[i]],
                w,
            );
            &&& next[i][j] == alone[0][j]
            &&& forall|c: int|
                0 <= c < dk && c != i ==> #[trigger] next[c][j] == x.times(alpha[c], state[c][j])
            &&& x.read_out(dk, dv, next, q)[j] == x.read_out(1, dv, alone, seq![q[i]])[j]
        }),
{
    let next = x.engraved(dk, dv, state, k, v, alpha, b, w);
    let kept = x.decayed(dk, dv, state, alpha);
    let (s1, k1, a1, b1, q1) = (
        seq![state[i]],
        seq![k[i]],
        seq![alpha[i]],
        seq![b[i]],
        seq![q[i]],
    );
    let alone = x.engraved(1, dv, s1, k1, v, a1, b1, w);
    let kept1 = x.decayed(1, dv, s1, a1);
    assert(kept1[0][j] == kept[i][j]);
    let read = |c: int| x.times(x.times(b[c], k[c]), kept[c][j]);
    assert forall|c: int| 0 <= c < dk && c != i implies #[trigger] read(c) == x.zero() by {
        x.times_zero(b[c]);
        x.times_zero(kept[c][j]);
    }
    x.lemma_lone_term(dk, i, read);
    let read1 = |c: int| x.times(x.times(b1[c], k1[c]), kept1[c][j]);
    x.lemma_lone_term(1, 0, read1);
    assert(read(i) == read1(0));
    assert(next[i][j] == alone[0][j]);
    let off = x.correction(dk, kept, k, v, b, w, j);
    assert forall|c: int| 0 <= c < dk && c != i implies #[trigger] next[c][j] == x.times(
        alpha[c],
        state[c][j],
    ) by {
        x.times_zero(off);
        x.plus_zero(kept[c][j]);
    }
    let asked = |c: int| x.times(q[c], next[c][j]);
    assert forall|c: int| 0 <= c < dk && c != i implies #[trigger] asked(c) == x.zero() by {
        assert(k[c] == x.zero() && q[c] == x.zero());
        x.times_zero(next[c][j]);
    }
    x.lemma_lone_term(dk, i, asked);
    let asked1 = |c: int| x.times(q1[c], alone[c][j]);
    x.lemma_lone_term(1, 0, asked1);
}

impl<T: Copy, F: Fn(ScalarOp, T, T) -> T, C: Fn(Number) -> T, Z: Fn(Relation, T, T) -> bool> Scalars<T, F, C, Z> {
    /// A sum of zeros but for one term.
    pub(crate) proof fn lemma_lone_term(&self, n: nat, at: int, term: spec_fn(int) -> T)
        requires
            self.ring(),
            0 <= at < n,
            forall|i: int| 0 <= i < n && i != at ==> #[trigger] term(i) == self.zero(),
        ensures
            self.gathered(self.zero(), n, term) == term(at),
        decreases n,
    {
        let m = (n - 1) as nat;
        if at == n - 1 {
            self.gathered_nothing(m, term);
        } else {
            self.lemma_lone_term(m, at, term);
        }
        self.plus_zero(term(at));
    }
}

/// Gates come from their own logits: decays depend on the decay logits alone,
/// erase gates on the erase logits, and write gates on the write logits, and all
/// heads of a token have the same.
pub proof fn law_gates_come_from_their_logits<
    T: Copy,
    F: Fn(ScalarOp, T, T) -> T,
    C: Fn(Number) -> T,
    Z: Fn(Relation, T, T) -> bool,
>(
    x: &Scalars<T, F, C, Z>,
    rows: Seq<Vec<T>>,
    w: FmWeights<T>,
    heads: nat,
    kv_heads: nat,
    dk: nat,
    dv: nat,
    zb: Seq<Vec<T>>,
    zw: Seq<Vec<T>>,
    zf: Seq<Vec<T>>,
    c: FmCache<T>,
    other_rows: Seq<Vec<T>>,
    other_w: FmWeights<T>,
    other_heads: nat,
    other_kv: nat,
    other_zb: Seq<Vec<T>>,
    other_zw: Seq<Vec<T>>,
    other_zf: Seq<Vec<T>>,
    other: FmCache<T>,
    h: int,
    g: int,
    t: int,
    s: int,
)
    requires
        x.fm_cached(rows, w, heads, kv_heads, dk, dv, zb, zw, zf, c),
        x.fm_cached(
            other_rows,
            other_w,
            other_heads,
            other_kv,
            dk,
            dv,
            other_zb,
            other_zw,
            other_zf,
            other,
        ),
        0 <= h < heads,
        0 <= g < other_heads,
    ensures
        0 <= t < zf.len() && 0 <= s < other_zf.len() && zf[t]@ == other_zf[s]@
            ==> c.alpha@[h]@[t]@ == other.alpha@[g]@[s]@,
        0 <= t < zb.len() && 0 <= s < other_zb.len() && zb[t]@ == other_zb[s]@
            ==> c.b@[h]@[t]@ == other.b@[g]@[s]@,
        0 <= t < zw.len() && 0 <= s < other_zw.len() && zw[t]@ == other_zw[s]@
            ==> c.w@[h]@[t]@ == other.w@[g]@[s]@,
{
}

/// A vector that is divided by its length has length one.
pub proof fn law_unit_vectors_have_length_one<
    T: Copy,
    F: Fn(ScalarOp, T, T) -> T,
    C: Fn(Number) -> T,
    Z: Fn(Relation, T, T) -> bool,
>(x: &Scalars<T, F, C, Z>, v: Seq<T>)
    requires
        x.exact(),
        x.unit(x.norm_of(v)),
        x.times(x.norm_of(v), x.norm_of(v)) == x.gathered(
            x.zero(),
            v.len(),
            |i: int| x.times(v[i], v[i]),
        ),
    ensures
        x.normed(v).len() == v.len(),
        x.gathered(
            x.zero(),
            v.len(),
            |i: int| x.times(x.normed(v)[i], x.normed(v)[i]),
        ) == x.one(),
{
    let n = x.norm_of(v);
    let out = x.normed(v);
    let long = |i: int| x.times(v[i], v[i]);
    let short = |i: int| x.times(x.normed(v)[i], x.normed(v)[i]);
    let square = x.times(n, n);
    assert forall|i: int| 0 <= i < v.len() implies #[trigger] long(i) == x.times(
        square,
        short(i),
    ) by {
        let u = out[i];
        assert(x.times(u, n) == v[i]);
        x.times_comm(u, n);
        x.times_assoc(n, u, x.times(n, u));
        x.times_assoc(u, n, u);
        x.times_comm(u, n);
        x.times_assoc(n, u, u);
        x.times_assoc(n, n, x.times(u, u));
    }
    x.gathered_times(v.len(), square, short, long);
    let sum = x.gathered(x.zero(), v.len(), short);
    assert(x.unit(square)) by {
        let i = choose|i: T| #[trigger] x.times(n, i) == x.one();
        let j = x.times(i, i);
        x.times_assoc(n, n, j);
        x.times_assoc(n, i, i);
        x.times_one(i);
        assert(x.times(square, j) == x.one());
    }
    x.times_comm(square, sum);
    x.times_one(square);
    x.unit_cancel(sum, x.one(), square);
}

/// Going back, heads run by themselves too: a head with the rows and the slopes of
/// a head of another call has the other's slopes, wherever they stand.
pub proof fn law_backward_heads_run_alike<
    T: Copy,
    F: Fn(ScalarOp, T, T) -> T,
    C: Fn(Number) -> T,
    Z: Fn(Relation, T, T) -> bool,
>(
    x: &Scalars<T, F, C, Z>,
    q: Seq<Vec<Vec<T>>>,
    k: Seq<Vec<Vec<T>>>,
    v: Seq<Vec<Vec<T>>>,
    alpha: Seq<Vec<Vec<T>>>,
    b: Seq<Vec<Vec<T>>>,
    w: Seq<Vec<Vec<T>>>,
    up: Seq<Vec<Vec<T>>>,
    heads: nat,
    slopes: Gdn2Grads<T>,
    h: int,
    other_q: Seq<Vec<Vec<T>>>,
    other_k: Seq<Vec<Vec<T>>>,
    other_v: Seq<Vec<Vec<T>>>,
    other_alpha: Seq<Vec<Vec<T>>>,
    other_b: Seq<Vec<Vec<T>>>,
    other_w: Seq<Vec<Vec<T>>>,
    other_up: Seq<Vec<Vec<T>>>,
    others: nat,
    other: Gdn2Grads<T>,
    g: int,
    dk: nat,
    dv: nat,
    s: int,
)
    requires
        0 <= h < heads,
        0 <= g < others,
        q[0]@.len() == other_q[0]@.len(),
        0 <= s < q[0]@.len(),
        grid(q[h]@) == grid(other_q[g]@),
        grid(k[h]@) == grid(other_k[g]@),
        grid(v[h]@) == grid(other_v[g]@),
        grid(alpha[h]@) == grid(other_alpha[g]@),
        grid(b[h]@) == grid(other_b[g]@),
        grid(w[h]@) == grid(other_w[g]@),
        grid(up[h]@) == grid(other_up[g]@),
        x.back_result(q, k, v, alpha, b, w, up, heads, dk, dv, slopes),
        x.back_result(
            other_q,
            other_k,
            other_v,
            other_alpha,
            other_b,
            other_w,
            other_up,
            others,
            dk,
            dv,
            other,
        ),
    ensures
        slopes.dq@[h]@[s]@ == other.dq@[g]@[s]@,
        slopes.dk@[h]@[s]@ == other.dk@[g]@[s]@,
        slopes.dv@[h]@[s]@ == other.dv@[g]@[s]@,
        slopes.dalpha@[h]@[s]@ == other.dalpha@[g]@[s]@,
        slopes.db@[h]@[s]@ == other.db@[g]@[s]@,
        slopes.dw@[h]@[s]@ == other.dw@[g]@[s]@,
{
    assert(head_rows(q, k, v, alpha, b, w, h) == head_rows(
        other_q,
        other_k,
        other_v,
        other_alpha,
        other_b,
        other_w,
        g,
    ));
}

/// Chunk by chunk, heads run by themselves too: a head with the rows of a head of
/// another call has the other's rows, wherever they stand.
pub proof fn law_chunkwise_heads_run_alike<
    T: Copy,
    F: Fn(ScalarOp, T, T) -> T,
    C: Fn(Number) -> T,
    Z: Fn(Relation, T, T) -> bool,
>(
    x: &Scalars<T, F, C, Z>,
    form: ChunkForm,
    q: Seq<Vec<Vec<T>>>,
    k: Seq<Vec<Vec<T>>>,
    v: Seq<Vec<Vec<T>>>,
    alpha: Seq<Vec<Vec<T>>>,
    b: Seq<Vec<Vec<T>>>,
    w: Seq<Vec<Vec<T>>>,
    heads: nat,
    out: Seq<Vec<Vec<T>>>,
    h: int,
    other_q: Seq<Vec<Vec<T>>>,
    other_k: Seq<Vec<Vec<T>>>,
    other_v: Seq<Vec<Vec<T>>>,
    other_alpha: Seq<Vec<Vec<T>>>,
    other_b: Seq<Vec<Vec<T>>>,
    other_w: Seq<Vec<Vec<T>>>,
    others: nat,
    other_out: Seq<Vec<Vec<T>>>,
    g: int,
    dk: nat,
    dv: nat,
    chunk_size: usize,
    i: int,
)
    requires
        0 <= h < heads,
        0 <= g < others,
        q[0]@.len() == other_q[0]@.len(),
        0 <= i < q[0]@.len(),
        grid(q[h]@) == grid(other_q[g]@),
        grid(k[h]@) == grid(other_k[g]@),
        grid(v[h]@) == grid(other_v[g]@),
        grid(alpha[h]@) == grid(other_alpha[g]@),
        grid(b[h]@) == grid(other_b[g]@),
        grid(w[h]@) == grid(other_w[g]@),
        x.chunk_result(form, q, k, v, alpha, b, w, heads, dk, dv, chunk_size, out),
        x.chunk_result(
            form,
            other_q,
            other_k,
            other_v,
            other_alpha,
            other_b,
            other_w,
            others,
            dk,
            dv,
            chunk_size,
            other_out,
        ),
    ensures
        out[h]@[i]@ == other_out[g]@[i]@,
{
    assert(head_rows(q, k, v, alpha, b, w, h) == head_rows(
        other_q,
        other_k,
        other_v,
        other_alpha,
        other_b,
        other_w,
        g,
    ));
    assert(out[h]@.len() == other_out[g]@.len());
}

/// Every gate is that of its own logit: the gates of joined logits are those of the
/// one and then those of the other, and a matrix of joined rows gives the entries of
/// the one and then those of the other.
pub proof fn law_gates_and_projections_join<
    T: Copy,
    F: Fn(ScalarOp, T, T) -> T,
    C: Fn(Number) -> T,
    Z: Fn(Relation, T, T) -> bool,
>(
    x: &Scalars<T, F, C, Z>,
    a: Seq<T>,
    b: Seq<T>,
    w: Seq<Seq<T>>,
    v: Seq<Seq<T>>,
    row: Seq<T>,
)
    ensures
        x.gates_of(a + b) == x.gates_of(a) + x.gates_of(b),
        x.matvec_of(w + v, row) == x.matvec_of(w, row) + x.matvec_of(v, row),
{
    assert(x.gates_of(a + b) =~= x.gates_of(a) + x.gates_of(b));
    let (all, parts) = (x.matvec_of(w + v, row), x.matvec_of(w, row) + x.matvec_of(v, row));
    assert forall|r: int| 0 <= r < all.len() implies all[r] == parts[r] by {
        let own = if r < w.len() {
            w[r]
        } else {
            v[r - w.len()]
        };
        assert((w + v)[r] == own);
        let f = |i: int| x.times((w + v)[r][i], row[i]);
        let g = |i: int| x.times(own[i], row[i]);
        x.lemma_gathered_same(
            x.zero(),
            common(own.len(), row.len()),
            f,
            g,
        );
        if r < w.len() {
            let h = |i: int| x.times(w[r][i], row[i]);
            x.lemma_gathered_same(
                x.zero(),
                common(own.len(), row.len()),
                h,
                g,
            );
        } else {
            let h = |i: int| x.times(v[r - w.len()][i], row[i]);
            x.lemma_gathered_same(
                x.zero(),
                common(own.len(), row.len()),
                h,
                g,
            );
        }
    }
    assert(all =~= parts);
}

} // verus!
