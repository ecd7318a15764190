//! Softmax weights are shares of a whole, in arithmetic without rounding.

use crate::scalar::{Number, Relation, ScalarOp, Scalars};
use vstd::prelude::*;

verus! {

/// Softmax weights without a floor add up to one.
pub proof fn law_softmax_weights_add_up<
    T: Copy,
    F: Fn(ScalarOp, T, T) -> T,
    C: Fn(Number) -> T,
    Z: Fn(Relation, T, T) -> bool,
>(x: &Scalars<T, F, C, Z>, scores: Seq<T>)
    requires
        x.exact(),
        x.unit(x.row_sum(x.exponentials_of(scores))),
    ensures
        x.row_sum(x.softmax_of(scores, None)) == x.one(),
{
    let e = x.exponentials_of(scores);
    let total = x.row_sum(e);
    let w = x.softmax_of(scores, None);
    let sum = x.row_sum(w);
    let n = scores.len();
    assert forall|i: int| 0 <= i < n implies #[trigger] e[i] == x.times(total, w[i]) by {
        assert(x.times(x.over(e[i], total), total) == e[i]);
        x.times_comm(w[i], total);
    }
    x.gathered_times(n, total, |i: int| w[i], |i: int| e[i]);
    x.times_comm(total, sum);
    x.times_one(total);
    x.unit_cancel(sum, x.one(), total);
}

/// A head that attends over rows of values which are all the same gives that
/// row, whatever the query and the keys.
pub proof fn law_attention_keeps_a_common_row<
    T: Copy,
    F: Fn(ScalarOp, T, T) -> T,
    C: Fn(Number) -> T,
    Z: Fn(Relation, T, T) -> bool,
>(
    x: &Scalars<T, F, C, Z>,
    cap: Option<T>,
    q: Seq<T>,
    keys: Seq<T>,
    values: Seq<T>,
    row: Seq<T>,
    n: nat,
)
    requires
        x.exact(),
        row.len() == q.len(),
        forall|t: int, d: int|
            0 <= t < n && 0 <= d < q.len() ==> #[trigger] values[t * q.len() + d] == row[d],
        x.unit(x.row_sum(x.exponentials_of(x.head_scores(cap, q, keys, n)))),
    ensures
        x.attended(cap, q, keys, values, n) == row,
{
    let dim = q.len();
    let scores = x.head_scores(cap, q, keys, n);
    let w = x.softmax_of(scores, None);
    law_softmax_weights_add_up(x, scores);
    let out = x.attended(cap, q, keys, values, n);
    assert forall|d: int| 0 <= d < dim implies #[trigger] out[d] == row[d] by {
        let part = |t: int| x.times(w[t], values[t * dim + d]);
        assert forall|t: int| 0 <= t < n implies #[trigger] part(t) == x.times(row[d], w[t]) by {
            assert(values[t * dim + d] == row[d]);
            x.times_comm(w[t], row[d]);
        }
        x.gathered_times(n, row[d], |t: int| w[t], part);
        x.times_one(row[d]);
    }
    assert(out =~= row);
}

} // verus!
