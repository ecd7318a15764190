//! What an adapter adds: one part for each of its ranks.

use crate::lora::HostAdapter;
use crate::rows::{
    lemma_cell_coordinates, lemma_cell_in_rows, lemma_flat_index, lemma_row_bounds,
};
use crate::scalar::{Number, Relation, ScalarOp, Scalars};
use vstd::prelude::*;

verus! {

impl<T: Copy, F: Fn(ScalarOp, T, T) -> T, C: Fn(Number) -> T, Z: Fn(Relation, T, T) -> bool> Scalars<T, F, C, Z> {
    /// Adapter `single` has rank one, the scale of `adapter`, row `r` of its `a`
    /// and column `r` of its `b`.
    pub open spec fn one_rank_of(
        &self,
        adapter: HostAdapter<T>,
        single: HostAdapter<T>,
        width: nat,
        r: int,
    ) -> bool {
        let rank = adapter.shape.a@[0];
        &&& single.shape.a@[0] == 1
        &&& self.over(single.alpha, self.number(1)) == self.over(
            adapter.alpha,
            self.number(rank),
        )
        &&& single.a@.len() == width
        &&& single.b@.len() == width
        &&& forall|c: int| 0 <= c < width ==> #[trigger] single.a@[c] == adapter.a@[r * width + c]
        &&& forall|j: int| 0 <= j < width ==> #[trigger] single.b@[j] == adapter.b@[j * rank + r]
    }

    proof fn lemma_rank_part(
        &self,
        adapter: HostAdapter<T>,
        single: HostAdapter<T>,
        row: Seq<T>,
        r: int,
        j: int,
    )
        requires
            self.ring(),
            0 <= j < row.len(),
            self.one_rank_of(adapter, single, row.len(), r),
        ensures
            self.added_by(single, row, j) == self.times(
                self.over(adapter.alpha, self.number(adapter.shape.a@[0])),
                self.times(
                    adapter.b@[j * adapter.shape.a@[0] + r],
                    self.dot_at_swapped(row, adapter.a@, r * row.len()),
                ),
            ),
    {
        let n = row.len();
        let scale = self.over(adapter.alpha, self.number(adapter.shape.a@[0]));
        let f = |s: int|
            self.times(single.b@[j * 1 + s], self.dot_at_swapped(row, single.a@, s * n));
        let dot = self.dot_at_swapped(row, adapter.a@, r * n);
        assert(0 * n == 0);
        self.lemma_gathered_same(
            self.zero(),
            n,
            |d: int| self.times(single.a@[0 * n + d], row[d]),
            |d: int| self.times(adapter.a@[r * n + d], row[d]),
        );
        assert(self.dot_at_swapped(row, single.a@, 0) == dot);
        assert(single.b@[j] == adapter.b@[j * adapter.shape.a@[0] + r]);
        assert(self.gathered(self.zero(), 1, f) == self.plus(
            self.gathered(self.zero(), 0, f),
            f(0),
        ));
        self.plus_zero(f(0));
        assert(f(0) == self.times(adapter.b@[j * adapter.shape.a@[0] + r], dot));
        self.lemma_gathered_same(
            self.zero(),
            1,
            f,
            |r: int| self.times(single.b@[j * 1nat + r], self.dot_at_swapped(row, single.a@, r * n)),
        );
        assert(self.added_by(single, row, j) == self.times(scale, self.gathered(self.zero(), 1, f)));
    }
}

/// An adapter adds up over its ranks: applying it gives the logits that applying
/// one adapter for each of its ranks gives, made of the rows of its `a` and the
/// columns of its `b`, with its scale.
pub proof fn law_adapter_is_the_sum_of_its_ranks<
    T: Copy,
    F: Fn(ScalarOp, T, T) -> T,
    C: Fn(Number) -> T,
    Z: Fn(Relation, T, T) -> bool,
>(
    x: &Scalars<T, F, C, Z>,
    logits: Seq<T>,
    vocab: nat,
    adapter: HostAdapter<T>,
    singles: Seq<HostAdapter<T>>,
    t: int,
    j: int,
)
    requires
        x.ring(),
        0 <= t,
        0 <= j < vocab,
        t * vocab + vocab <= logits.len(),
        singles.len() == adapter.shape.a@[0],
        forall|r: int|
            0 <= r < singles.len() ==> x.one_rank_of(adapter, #[trigger] singles[r], vocab, r),
    ensures
        x.adapted_logit(logits, vocab, seq![adapter], t, j) == x.adapted_logit(
            logits,
            vocab,
            singles,
            t,
            j,
        ),
{
    assert(0 <= t * vocab) by (nonlinear_arith)
        requires
            0 <= t,
    ;
    let row = logits.subrange(t * vocab, t * vocab + vocab);
    let rank = adapter.shape.a@[0];
    let scale = x.over(adapter.alpha, x.number(rank));
    let inner = |r: int| x.times(adapter.b@[j * rank + r], x.dot_at_swapped(row, adapter.a@, r * vocab));
    let f = |i: int| x.added_by(singles[i], row, j);
    assert forall|r: int| 0 <= r < rank implies #[trigger] f(r) == x.times(scale, inner(r)) by {
        x.lemma_rank_part(adapter, singles[r], row, r, j);
    }
    x.gathered_times(rank as nat, scale, inner, f);
    let one = |i: int| x.added_by(seq![adapter][i], row, j);
    assert(x.gathered(x.zero(), 1, one) == x.plus(x.gathered(x.zero(), 0, one), one(0)));
    x.plus_zero(one(0));
    x.lemma_gathered_same(
        x.zero(),
        rank as nat,
        inner,
        |r: int| x.times(adapter.b@[j * (rank as nat) + r], x.dot_at_swapped(row, adapter.a@, r * row.len())),
    );
    assert(one(0) == x.times(scale, x.gathered(x.zero(), rank as nat, inner)));
}

/// An adapter whose two matrices leave a row as it is adds the row itself, times
/// its scale.
pub proof fn law_identity_adapter_adds_the_row<
    T: Copy,
    F: Fn(ScalarOp, T, T) -> T,
    C: Fn(Number) -> T,
    Z: Fn(Relation, T, T) -> bool,
>(x: &Scalars<T, F, C, Z>, adapter: HostAdapter<T>, row: Seq<T>, j: int)
    requires
        x.ring(),
        0 <= j < row.len(),
        adapter.shape.a@[0] == row.len(),
        forall|r: int, c: int|
            0 <= r < row.len() && 0 <= c < row.len() ==> #[trigger] adapter.a@[r * row.len() + c]
                == if r == c {
                x.one()
            } else {
                x.zero()
            },
        forall|r: int, c: int|
            0 <= r < row.len() && 0 <= c < row.len() ==> #[trigger] adapter.b@[r * row.len() + c]
                == if r == c {
                x.one()
            } else {
                x.zero()
            },
    ensures
        x.added_by(adapter, row, j) == x.times(
            x.over(adapter.alpha, x.number(adapter.shape.a@[0])),
            row[j],
        ),
{
    let n = row.len();
    let dots = Seq::new(n, |r: int| x.dot_at_swapped(row, adapter.a@, r * n));
    assert forall|r: int| 0 <= r < n implies dots[r] == row[r] by {
        let picks = Seq::new(n, |c: int| adapter.a@[r * n + c]);
        x.lemma_only_term(
            n,
            r,
            row[r],
            |d: int| x.times(adapter.a@[r * n + d], row[d]),
            row,
            picks,
        );
    }
    assert(dots =~= row);
    let picks = Seq::new(n, |c: int| adapter.b@[j * n + c]);
    let term = |r: int| x.times(adapter.b@[j * n + r], x.dot_at_swapped(row, adapter.a@, r * row.len()));
    assert forall|r: int| 0 <= r < n implies #[trigger] term(r) == x.times(picks[r], row[r]) by {
        assert(dots[r] == row[r]);
    }
    x.lemma_only_term(n, j, row[j], term, row, picks);
    x.lemma_gathered_same(
        x.zero(),
        n,
        term,
        |r: int|
            x.times(
                adapter.b@[j * (adapter.shape.a@[0] as nat) + r],
                x.dot_at_swapped(row, adapter.a@, r * row.len()),
            ),
    );
}

/// An adapter reads the row of its own token: rows with the same logits are
/// adapted alike, whatever stands before and behind them.
pub proof fn law_adapters_read_their_own_row<
    T: Copy,
    F: Fn(ScalarOp, T, T) -> T,
    C: Fn(Number) -> T,
    Z: Fn(Relation, T, T) -> bool,
>(
    x: &Scalars<T, F, C, Z>,
    logits: Seq<T>,
    other: Seq<T>,
    vocab: nat,
    adapters: Seq<HostAdapter<T>>,
    t: int,
    s: int,
    j: int,
)
    requires
        0 <= t,
        0 <= s,
        0 <= j < vocab,
        t * vocab + vocab <= logits.len(),
        s * vocab + vocab <= other.len(),
        forall|c: int|
            0 <= c < vocab ==> #[trigger] logits[t * vocab + c] == other[s * vocab + c],
    ensures
        x.adapted_logit(logits, vocab, adapters, t, j) == x.adapted_logit(
            other,
            vocab,
            adapters,
            s,
            j,
        ),
{
    assert(0 <= t * vocab && 0 <= s * vocab) by (nonlinear_arith)
        requires
            0 <= t,
            0 <= s,
    ;
    let a = logits.subrange(t * vocab, t * vocab + vocab);
    let b = other.subrange(s * vocab, s * vocab + vocab);
    assert forall|c: int| 0 <= c < vocab implies a[c] == b[c] by {
        assert(logits[t * vocab + c] == other[s * vocab + c]);
    }
    assert(a =~= b);
    assert(logits[t * vocab + j] == other[s * vocab + j]);
}

/// Tokens are adapted by themselves: adapting the rows of two stretches of tokens
/// at once gives the adapted rows of the one, and then those of the other.
pub proof fn law_adapted_rows_join<
    T: Copy,
    F: Fn(ScalarOp, T, T) -> T,
    C: Fn(Number) -> T,
    Z: Fn(Relation, T, T) -> bool,
>(
    x: &Scalars<T, F, C, Z>,
    a: Seq<T>,
    b: Seq<T>,
    rows: nat,
    more: nat,
    vocab: nat,
    adapters: Seq<HostAdapter<T>>,
)
    requires
        a.len() == rows * vocab,
        b.len() == more * vocab,
    ensures
        x.adapted_rows(a + b, rows + more, vocab, adapters) == x.adapted_rows(
            a,
            rows,
            vocab,
            adapters,
        ) + x.adapted_rows(b, more, vocab, adapters),
{
    let all = x.adapted_rows(a + b, rows + more, vocab, adapters);
    let parts = x.adapted_rows(a, rows, vocab, adapters) + x.adapted_rows(
        b,
        more,
        vocab,
        adapters,
    );
    crate::rows::lemma_widths_add(rows, more, vocab);
    assert forall|p: int| 0 <= p < all.len() implies all[p] == parts[p] by {
        lemma_flat_index(p, (rows + more) as int, vocab as int);
        let (t, j) = (p / vocab as int, p % vocab as int);
        lemma_row_bounds(t, (rows + more) as int, vocab as int);
        if p < rows * vocab {
            lemma_flat_index(p, rows as int, vocab as int);
            lemma_row_bounds(t, rows as int, vocab as int);
            assert forall|c: int| 0 <= c < vocab implies #[trigger] (a + b)[t * vocab + c] == a[t
                * vocab + c] by {
                lemma_cell_in_rows(t, c, rows as int, vocab as int);
            }
            law_adapters_read_their_own_row(x, a + b, a, vocab, adapters, t, t, j);
        } else {
            let q = p - rows * vocab;
            lemma_flat_index(q, more as int, vocab as int);
            let s = q / vocab as int;
            assert((rows + s) * vocab + q % (vocab as int) == p) by (nonlinear_arith)
                requires
                    q == s * vocab + q % (vocab as int),
                    p == rows * vocab + q,
            ;
            lemma_cell_coordinates(rows + s, q % vocab as int, vocab as int);
            assert(t == rows + s && j == q % vocab as int);
            assert(t * vocab == rows * vocab + s * vocab) by (nonlinear_arith)
                requires
                    t == rows + s,
            ;
            lemma_row_bounds(s, more as int, vocab as int);
            assert forall|c: int| 0 <= c < vocab implies #[trigger] (a + b)[t * vocab + c] == b[s
                * vocab + c] by {
                lemma_cell_in_rows(s, c, more as int, vocab as int);
            }
            law_adapters_read_their_own_row(x, a + b, b, vocab, adapters, t, s, j);
        }
    }
    assert(all =~= parts);
}

/// What an adapter adds grows with its scale: an adapter of scale `s` adds `s` times
/// what it adds at scale one.
pub proof fn law_adapters_grow_with_their_scale<
    T: Copy,
    F: Fn(ScalarOp, T, T) -> T,
    C: Fn(Number) -> T,
    Z: Fn(Relation, T, T) -> bool,
>(
    x: &Scalars<T, F, C, Z>,
    row: Seq<T>,
    a: Seq<T>,
    b: Seq<T>,
    rank: nat,
    scale: T,
    j: int,
)
    requires
        x.ring(),
    ensures
        x.adapted(row, a, b, rank, scale, j) == x.times(
            scale,
            x.adapted(row, a, b, rank, x.one(), j),
        ),
{
    let sum = x.gathered(
        x.zero(),
        rank,
        |r: int| x.times(b[j * rank + r], x.dot_at_swapped(row, a, r * row.len())),
    );
    x.times_one(sum);
}

} // verus!
