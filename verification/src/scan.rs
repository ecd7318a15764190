//! A selective scan: a recurrence that folds one token after the other into a
//! state, and reads one output per channel off it.

use crate::rows::{
    copy_range, filled, lemma_cell_coordinates, lemma_cell_in_rows, lemma_flat_index,
    lemma_row_bounds,
};
use vstd::prelude::*;

verus! {

/// The sizes of a scan.
#[derive(Debug, Clone, Copy)]
pub struct ScanShape {
    /// Channels of the output.
    pub inner: usize,
    /// State cells per channel.
    pub state: usize,
    /// Heads.
    pub heads: usize,
    /// Channels per head.
    pub head_dim: usize,
    /// Columns of an input row: the channels, then the two state-wide parts,
    /// then what the scan does not read.
    pub width: usize,
}

impl ScanShape {
    /// Channels that belong to a head.
    pub open spec fn used(&self) -> nat {
        self.heads as nat * self.head_dim as nat
    }

    /// Every part of a row has its place.
    pub open spec fn wf(&self) -> bool {
        &&& self.used() <= self.inner
        &&& self.inner + 2 * self.state <= self.width
        &&& self.inner * self.state <= usize::MAX
    }
}

/// The state with the cells of channel `i` replaced.
pub open spec fn with_row<T>(state: Seq<T>, i: int, len: nat, row: Seq<T>) -> Seq<T> {
    state.subrange(0, i * len) + row + state.subrange(i * len + len, state.len() as int)
}

/// Step `n` of a scan: channel `n % used` of token `n / used` takes its cells
/// from `before`, leaves them in `after`, and gives its output.
pub open spec fn scan_cell<T, F: Fn(usize, T, T, Vec<T>, Vec<T>, Vec<T>) -> (Vec<T>, T)>(
    shape: &ScanShape,
    step: F,
    rows: Seq<T>,
    rates: Seq<T>,
    before: Seq<T>,
    after: Seq<T>,
    y: Seq<T>,
    n: int,
) -> bool {
    let t = n / shape.used() as int;
    let i = n % shape.used() as int;
    let h = i / shape.head_dim as int;
    let at = t * shape.width;
    exists|cells: Vec<T>, b: Vec<T>, c: Vec<T>, next: Vec<T>, out: T|
        cells@ == before.subrange(i * shape.state, i * shape.state + shape.state) && b@
            == rows.subrange(at + shape.inner, at + shape.inner + shape.state) && c@
            == rows.subrange(
            at + shape.inner + shape.state,
            at + shape.inner + 2 * shape.state,
        ) && next@.len() == shape.state && after == with_row(before, i, shape.state as nat, next@)
            && y[t * shape.inner + i] == out && #[trigger] call_ensures(
            step,
            (h as usize, rates[t * shape.heads + h], rows[at + i], cells, b, c),
            (next, out),
        )
}

/// The states that a scan goes through.
pub open spec fn scan_trace<T, F: Fn(usize, T, T, Vec<T>, Vec<T>, Vec<T>) -> (Vec<T>, T)>(
    shape: &ScanShape,
    step: F,
    rows: Seq<T>,
    rates: Seq<T>,
    tokens: nat,
    y: Seq<T>,
    states: Seq<Seq<T>>,
) -> bool {
    &&& states.len() == tokens * shape.used() + 1
    &&& forall|n: int|
        0 <= n < tokens * shape.used() ==> #[trigger] scan_cell(
            shape,
            step,
            rows,
            rates,
            states[n],
            states[n + 1],
            y,
            n,
        )
}

/// A scan over `tokens` tokens leads from one state to another and gives `y`.
pub open spec fn scanned<T, F: Fn(usize, T, T, Vec<T>, Vec<T>, Vec<T>) -> (Vec<T>, T)>(
    shape: &ScanShape,
    step: F,
    rows: Seq<T>,
    rates: Seq<T>,
    tokens: nat,
    before: Seq<T>,
    after: Seq<T>,
    y: Seq<T>,
) -> bool {
    exists|states: Seq<Seq<T>>| #[trigger]
        scan_trace(shape, step, rows, rates, tokens, y, states) && states[0] == before
            && states.last() == after
}

/// Folds every token into the state, channel by channel.
///
/// `step` folds one channel of one token: it takes the head, the head's rate,
/// the channel's input, its cells and the two state-wide parts of the row, and
/// gives the new cells and the output.
pub fn selective_scan<T: Copy, F: Fn(usize, T, T, Vec<T>, Vec<T>, Vec<T>) -> (Vec<T>, T)>(
    shape: &ScanShape,
    rows: &[T],
    rates: &[T],
    tokens: usize,
    state: &mut Vec<T>,
    zero: T,
    step: F,
) -> (y: Vec<T>)
    requires
        shape.wf(),
        rows@.len() == tokens * shape.width,
        rates@.len() == tokens * shape.heads,
        old(state)@.len() == shape.inner * shape.state,
        tokens * shape.inner <= usize::MAX,
        forall|h: usize, r: T, x: T, s: Vec<T>, b: Vec<T>, c: Vec<T>|
            h < shape.heads && s@.len() == shape.state && b@.len() == shape.state && c@.len()
                == shape.state ==> #[trigger] call_requires(step, (h, r, x, s, b, c)),
        forall|h: usize, r: T, x: T, s: Vec<T>, b: Vec<T>, c: Vec<T>, o: (Vec<T>, T)| #[trigger]
            call_ensures(step, (h, r, x, s, b, c), o) && s@.len() == shape.state ==> o.0@.len()
                == shape.state,
    ensures
        final(state)@.len() == old(state)@.len(),
        y@.len() == tokens * shape.inner,
        scanned(
            shape,
            step,
            rows@,
            rates@,
            tokens as nat,
            old(state)@,
            final(state)@,
            y@,
        ),
        forall|t: int, i: int|
            0 <= t < tokens && shape.used() <= i < shape.inner ==> y@[#[trigger] (t * shape.inner
                + i)] == zero,
{
    let inner: usize = shape.inner;
    let ds: usize = shape.state;
    let heads: usize = shape.heads;
    let hd: usize = shape.head_dim;
    let width: usize = shape.width;
    let rows_len: usize = rows.len();
    let rates_len: usize = rates.len();
    let used: usize = heads * hd;
    let mut y = filled(zero, tokens * inner);
    let ghost mut states: Seq<Seq<T>> = seq![state@];
    proof {
        assert(0 * used == 0) by (nonlinear_arith);
        assert forall|t2: int, i: int| 0 <= t2 < tokens && 0 <= i < inner implies y@[#[trigger] (t2
            * inner + i)] == zero by {
            lemma_cell_in_rows(t2, i, tokens as int, inner as int);
        }
    }
    let mut t: usize = 0;
    while t < tokens
        invariant
            shape.wf(),
            inner == shape.inner,
            ds == shape.state,
            heads == shape.heads,
            hd == shape.head_dim,
            width == shape.width,
            used == shape.used(),
            used == heads * hd,
            rows_len == rows@.len(),
            rates_len == rates@.len(),
            rows_len == tokens * width,
            rates_len == tokens * heads,
            t <= tokens,
            tokens * inner <= usize::MAX,
            state@.len() == inner * ds,
            y@.len() == tokens * inner,
            forall|h: usize, r: T, x: T, s: Vec<T>, b: Vec<T>, c: Vec<T>|
                h < heads && s@.len() == ds && b@.len() == ds && c@.len() == ds
                    ==> #[trigger] call_requires(step, (h, r, x, s, b, c)),
            forall|h: usize, r: T, x: T, s: Vec<T>, b: Vec<T>, c: Vec<T>, o: (Vec<T>, T)|
                #[trigger]
                call_ensures(step, (h, r, x, s, b, c), o) && s@.len() == ds ==> o.0@.len() == ds,
            states.len() == t * used + 1,
            states[0] == old(state)@,
            states.last() == state@,
            forall|n: int|
                0 <= n < t * used ==> #[trigger] scan_cell(
                    shape,
                    step,
                    rows@,
                    rates@,
                    states[n],
                    states[n + 1],
                    y@,
                    n,
                ),
            forall|t2: int, i: int|
                0 <= t2 < tokens && (t2 >= t || used <= i) && 0 <= i < inner
                    ==> y@[#[trigger] (t2 * inner + i)] == zero,
        decreases tokens - t,
    {
        proof {
            lemma_row_bounds(t as int, tokens as int, width as int);
            lemma_row_bounds(t as int, tokens as int, heads as int);
            lemma_row_bounds(t as int, tokens as int, inner as int);
        }
        let b_row = copy_range(rows, t * width + inner, ds);
        let c_row = copy_range(rows, t * width + inner + ds, ds);
        let mut i: usize = 0;
        while i < used
            invariant
                shape.wf(),
                inner == shape.inner,
                ds == shape.state,
                heads == shape.heads,
                hd == shape.head_dim,
                width == shape.width,
                used == shape.used(),
                used == heads * hd,
                rows_len == rows@.len(),
                rates_len == rates@.len(),
                rows_len == tokens * width,
                rates_len == tokens * heads,
                t < tokens,
                i <= used,
                tokens * inner <= usize::MAX,
                state@.len() == inner * ds,
                y@.len() == tokens * inner,
                b_row@ == rows@.subrange(t * width + inner, t * width + inner + ds),
                c_row@ == rows@.subrange(t * width + inner + ds, t * width + inner + 2 * ds),
                b_row@.len() == ds,
                c_row@.len() == ds,
                0 <= t * width,
                t * width + width <= tokens * width,
                forall|h: usize, r: T, x: T, s: Vec<T>, b: Vec<T>, c: Vec<T>|
                    h < heads && s@.len() == ds && b@.len() == ds && c@.len() == ds
                        ==> #[trigger] call_requires(step, (h, r, x, s, b, c)),
                forall|h: usize, r: T, x: T, s: Vec<T>, b: Vec<T>, c: Vec<T>, o: (Vec<T>, T)|
                    #[trigger]
                    call_ensures(step, (h, r, x, s, b, c), o) && s@.len() == ds ==> o.0@.len() == ds,
                states.len() == t * used + i + 1,
                states[0] == old(state)@,
                states.last() == state@,
                forall|n: int|
                    0 <= n < t * used + i ==> #[trigger] scan_cell(
                        shape,
                        step,
                        rows@,
                        rates@,
                        states[n],
                        states[n + 1],
                        y@,
                        n,
                    ),
                forall|t2: int, j: int|
                    0 <= t2 < tokens && (t2 > t || used <= j || (t2 == t && i <= j)) && 0 <= j
                        < inner ==> y@[#[trigger] (t2 * inner + j)] == zero,
            decreases used - i,
        {
            proof {
                lemma_flat_index(i as int, heads as int, hd as int);
                lemma_row_bounds(i as int, inner as int, ds as int);
                lemma_cell_in_rows(t as int, i as int, tokens as int, inner as int);
                lemma_cell_in_rows(
                    t as int,
                    i as int / hd as int,
                    tokens as int,
                    heads as int,
                );
            }
            let h: usize = i / hd;
            let cells = copy_range(state.as_slice(), i * ds, ds);
            let b = copy_range(b_row.as_slice(), 0, ds);
            let c = copy_range(c_row.as_slice(), 0, ds);
            let rate = rates[t * heads + h];
            let x = rows[t * width + i];
            let ghost args = (h, rate, x, cells, b, c);
            let o = step(h, rate, x, cells, b, c);
            let ghost before = state@;
            let ghost y_before = y@;
            let ghost states_before = states;
            let next = o.0;
            let out = o.1;
            let mut new_state = copy_range(state.as_slice(), 0, i * ds);
            crate::rows::append_all(&mut new_state, next.as_slice());
            let rest = copy_range(
                state.as_slice(),
                i * ds + ds,
                state.len() - (i * ds + ds),
            );
            crate::rows::append_all(&mut new_state, rest.as_slice());
            *state = new_state;
            y.set(t * inner + i, out);
            proof {
                states = states.push(state@);
                let n = t * used + i;
                assert(call_ensures(step, args, (next, out)));
                assert(state@ =~= with_row(before, i as int, ds as nat, next@));
                lemma_cell_coordinates(t as int, i as int, used as int);
                assert(args.4@ =~= b_row@);
                assert(args.5@ =~= c_row@);
                assert(scan_cell(
                    shape,
                    step,
                    rows@,
                    rates@,
                    states[n],
                    states[n + 1],
                    y@,
                    n,
                )) by {
                    assert(states[n] == before);
                    assert(states[n + 1] == state@);
                    assert(args.0 == (i as int / hd as int) as usize);
                }
                assert forall|m: int| 0 <= m < n implies #[trigger] scan_cell(
                    shape,
                    step,
                    rows@,
                    rates@,
                    states[m],
                    states[m + 1],
                    y@,
                    m,
                ) by {
                    assert(scan_cell(
                        shape,
                        step,
                        rows@,
                        rates@,
                        states_before[m],
                        states_before[m + 1],
                        y_before,
                        m,
                    ));
                    assert(m < (t + 1) * used) by (nonlinear_arith)
                        requires
                            m < t * used + i,
                            i <= used,
                    ;
                    lemma_flat_index(m, t + 1, used as int);
                    let t2 = m / used as int;
                    let j = m % used as int;
                    if t2 * inner + j == t * inner + i {
                        lemma_cell_coordinates(t2, j, inner as int);
                        lemma_cell_coordinates(t as int, i as int, inner as int);
                        assert(m == n);
                    }
                    lemma_cell_in_rows(t2, j, tokens as int, inner as int);
                }
                assert forall|t2: int, j: int|
                    0 <= t2 < tokens && (t2 > t || used <= j || (t2 == t && i < j)) && 0 <= j
                        < inner implies y@[#[trigger] (t2 * inner + j)] == zero by {
                    lemma_cell_in_rows(t2, j, tokens as int, inner as int);
                    lemma_cell_coordinates(t2, j, inner as int);
                    lemma_cell_coordinates(t as int, i as int, inner as int);
                    assert(y_before[t2 * inner + j] == zero);
                }
            }
            i = i + 1;
        }
        proof {
            assert((t + 1) * used == t * used + used) by (nonlinear_arith);
        }
        t = t + 1;
    }
    proof {
        assert(scan_trace(shape, step, rows@, rates@, tokens as nat, y@, states));
    }
    y
}

/// Folding a stretch of tokens in two calls leads where one call leads: the
/// second call goes on from the state that the first one left.
pub proof fn law_scan_in_two_calls<T, F: Fn(usize, T, T, Vec<T>, Vec<T>, Vec<T>) -> (Vec<T>, T)>(
    shape: &ScanShape,
    step: F,
    rows: Seq<T>,
    more_rows: Seq<T>,
    rates: Seq<T>,
    more_rates: Seq<T>,
    tokens: nat,
    more: nat,
    before: Seq<T>,
    between: Seq<T>,
    after: Seq<T>,
    y: Seq<T>,
    more_y: Seq<T>,
)
    requires
        shape.wf(),
        rows.len() == tokens * shape.width,
        more_rows.len() == more * shape.width,
        rates.len() == tokens * shape.heads,
        more_rates.len() == more * shape.heads,
        y.len() == tokens * shape.inner,
        more_y.len() == more * shape.inner,
        scanned(shape, step, rows, rates, tokens, before, between, y),
        scanned(shape, step, more_rows, more_rates, more, between, after, more_y),
    ensures
        scanned(
            shape,
            step,
            rows + more_rows,
            rates + more_rates,
            tokens + more,
            before,
            after,
            y + more_y,
        ),
{
    let a = choose|states: Seq<Seq<T>>| #[trigger]
        scan_trace(shape, step, rows, rates, tokens, y, states) && states[0] == before
            && states.last() == between;
    let b = choose|states: Seq<Seq<T>>| #[trigger]
        scan_trace(shape, step, more_rows, more_rates, more, more_y, states) && states[0]
            == between && states.last() == after;
    let used = shape.used() as int;
    let (n1, n2) = (tokens * used, more * used);
    assert((tokens + more) * used == n1 + n2) by (nonlinear_arith)
        requires
            n1 == tokens * used,
            n2 == more * used,
    ;
    assert(0 <= n1 && 0 <= n2) by (nonlinear_arith)
        requires
            n1 == tokens * used,
            n2 == more * used,
            0 <= used,
    ;
    let all = a + b.subrange(1, b.len() as int);
    assert forall|n: int| 0 <= n < n1 + n2 implies #[trigger] scan_cell(
        shape,
        step,
        rows + more_rows,
        rates + more_rates,
        all[n],
        all[n + 1],
        y + more_y,
        n,
    ) by {
        if n < n1 {
            assert(scan_cell(shape, step, rows, rates, a[n], a[n + 1], y, n));
            assert(all[n] == a[n] && all[n + 1] == a[n + 1]);
            lemma_first_part(
                shape,
                step,
                rows,
                more_rows,
                rates,
                more_rates,
                tokens,
                a[n],
                a[n + 1],
                y,
                more_y,
                n,
            );
        } else {
            let m = n - n1;
            assert(scan_cell(
                shape,
                step,
                more_rows,
                more_rates,
                b[m],
                b[m + 1],
                more_y,
                m,
            ));
            assert(all[n] == b[m]) by {
                if m == 0 {
                    assert(all[n] == a.last());
                }
            }
            assert(all[n + 1] == b[m + 1]);
            lemma_second_part(
                shape,
                step,
                rows,
                more_rows,
                rates,
                more_rates,
                tokens,
                more,
                b[m],
                b[m + 1],
                y,
                more_y,
                m,
            );
        }
    }
    assert(all.last() == after) by {
        if n2 == 0 {
            assert(b.last() == b[0]);
        }
    }
    assert(scan_trace(
        shape,
        step,
        rows + more_rows,
        rates + more_rates,
        tokens + more,
        y + more_y,
        all,
    ));
}

proof fn lemma_first_part<T, F: Fn(usize, T, T, Vec<T>, Vec<T>, Vec<T>) -> (Vec<T>, T)>(
    shape: &ScanShape,
    step: F,
    rows: Seq<T>,
    more_rows: Seq<T>,
    rates: Seq<T>,
    more_rates: Seq<T>,
    tokens: nat,
    before: Seq<T>,
    after: Seq<T>,
    y: Seq<T>,
    more_y: Seq<T>,
    n: int,
)
    requires
        shape.wf(),
        rows.len() == tokens * shape.width,
        rates.len() == tokens * shape.heads,
        y.len() == tokens * shape.inner,
        0 <= n < tokens * shape.used(),
        scan_cell(shape, step, rows, rates, before, after, y, n),
    ensures
        scan_cell(
            shape,
            step,
            rows + more_rows,
            rates + more_rates,
            before,
            after,
            y + more_y,
            n,
        ),
{
    lemma_flat_index(n, tokens as int, shape.used() as int);
    let t = n / shape.used() as int;
    let i = n % shape.used() as int;
    lemma_flat_index(i, shape.heads as int, shape.head_dim as int);
    let h = i / shape.head_dim as int;
    lemma_row_bounds(t, tokens as int, shape.width as int);
    lemma_cell_in_rows(t, i, tokens as int, shape.inner as int);
    lemma_cell_in_rows(t, h, tokens as int, shape.heads as int);
    let at = t * shape.width;
    let (u, v) = (at + shape.inner, at + shape.inner + shape.state);
    assert((rows + more_rows).subrange(u, u + shape.state) =~= rows.subrange(u, u + shape.state));
    assert((rows + more_rows).subrange(v, at + shape.inner + 2 * shape.state) =~= rows.subrange(
        v,
        at + shape.inner + 2 * shape.state,
    ));
}

proof fn lemma_second_part<T, F: Fn(usize, T, T, Vec<T>, Vec<T>, Vec<T>) -> (Vec<T>, T)>(
    shape: &ScanShape,
    step: F,
    rows: Seq<T>,
    more_rows: Seq<T>,
    rates: Seq<T>,
    more_rates: Seq<T>,
    tokens: nat,
    more: nat,
    before: Seq<T>,
    after: Seq<T>,
    y: Seq<T>,
    more_y: Seq<T>,
    m: int,
)
    requires
        shape.wf(),
        rows.len() == tokens * shape.width,
        more_rows.len() == more * shape.width,
        rates.len() == tokens * shape.heads,
        more_rates.len() == more * shape.heads,
        y.len() == tokens * shape.inner,
        more_y.len() == more * shape.inner,
        0 <= m < more * shape.used(),
        scan_cell(shape, step, more_rows, more_rates, before, after, more_y, m),
    ensures
        scan_cell(
            shape,
            step,
            rows + more_rows,
            rates + more_rates,
            before,
            after,
            y + more_y,
            tokens * shape.used() + m,
        ),
{
    let used = shape.used() as int;
    lemma_flat_index(m, more as int, used);
    let t = m / used;
    let i = m % used;
    lemma_flat_index(i, shape.heads as int, shape.head_dim as int);
    let h = i / shape.head_dim as int;
    lemma_row_bounds(t, more as int, shape.width as int);
    lemma_cell_in_rows(t, i, more as int, shape.inner as int);
    lemma_cell_in_rows(t, h, more as int, shape.heads as int);
    let n = tokens * used + m;
    assert(n == (tokens + t) * used + i) by (nonlinear_arith)
        requires
            n == tokens * used + m,
            m == t * used + i,
    ;
    lemma_cell_coordinates(tokens + t, i, used);
    let (w, d, hs) = (shape.width as int, shape.inner as int, shape.heads as int);
    assert((tokens + t) * w == tokens * w + t * w) by (nonlinear_arith);
    assert((tokens + t) * d == tokens * d + t * d) by (nonlinear_arith);
    assert((tokens + t) * hs == tokens * hs + t * hs) by (nonlinear_arith);
    let at = t * w;
    let big = (tokens + t) * w;
    let s = shape.state as int;
    assert((rows + more_rows).subrange(big + d, big + d + s) =~= more_rows.subrange(
        at + d,
        at + d + s,
    ));
    assert((rows + more_rows).subrange(big + d + s, big + d + 2 * s) =~= more_rows.subrange(
        at + d + s,
        at + d + 2 * s,
    ));
}

} // verus!
