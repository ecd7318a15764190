//! The state-space part of a Falcon-H1 layer, run on the host: a causal
//! convolution, a selective scan and a gate.

use crate::falcon_h1::{
    conv_on_host, conv_rows, lemma_scan_shape, rate_rows, scan_on_host, FalconH1Config,
    FalconH1LayerCache,
};
use crate::history::{cell_done, kernel_row, law_conv_in_two_calls, window};
use crate::kernels::{conv_cell_of, scan_step, step_size_of};
use crate::rows::{
    columns, law_columns_of_stack, lemma_cell_coordinates, lemma_cell_in_rows, lemma_flat_index,
    lemma_row_bounds, lemma_widths_add, stacked, suffix,
};
use crate::scalar::{Number, Relation, ScalarOp, Scalars};
use crate::scan::{scan_cell, scan_trace, scanned, with_row, ScanShape};
use vstd::prelude::*;

verus! {

/// A layer, as far as it is held on the host: the weights of its state-space
/// part. The matrices of its other parts stay where they were loaded.
#[derive(Debug)]
pub struct FalconH1Block<T> {
    /// The taps of every channel, oldest input first.
    pub ssm_conv_w: Vec<T>,
    /// The bias of every channel.
    pub ssm_conv_b: Vec<T>,
    /// The decay of every head.
    pub ssm_a: Vec<T>,
    /// What every head lets through.
    pub ssm_d: Vec<T>,
    /// The bias of every head's rate.
    pub ssm_dt_b: Vec<T>,
}

impl<T> FalconH1Block<T> {
    /// Every channel and every head has its weights.
    pub open spec fn wf(&self, cfg: &FalconH1Config) -> bool {
        &&& cfg.conv_dim() * cfg.ssm_d_conv <= self.ssm_conv_w@.len()
        &&& cfg.conv_dim() <= self.ssm_conv_b@.len()
        &&& cfg.ssm_dt_rank <= self.ssm_a@.len()
        &&& cfg.ssm_dt_rank <= self.ssm_d@.len()
        &&& cfg.ssm_dt_rank <= self.ssm_dt_b@.len()
    }
}

impl<T: Copy, F: Fn(ScalarOp, T, T) -> T, C: Fn(Number) -> T, Z: Fn(Relation, T, T) -> bool> Scalars<T, F, C, Z> {
    /// The convolved and activated rows of a call whose history is `history`.
    pub open spec fn convolved_rows(
        &self,
        cfg: &FalconH1Config,
        w: &FalconH1Block<T>,
        history: Seq<T>,
        tokens: nat,
    ) -> Seq<T> {
        let width = cfg.conv_dim() as nat;
        let taps = cfg.ssm_d_conv as nat;
        Seq::new(
            tokens * width,
            |p: int|
                self.conv_of(
                    w.ssm_conv_b@[p % width as int],
                    kernel_row(w.ssm_conv_w@, taps, p % width as int),
                    window(history, width, taps, p / width as int, p % width as int),
                ),
        )
    }

    /// The step size of channel `i` at token `t`.
    pub open spec fn channel_step(
        &self,
        shape: &ScanShape,
        w: &FalconH1Block<T>,
        rates: Seq<T>,
        i: int,
        t: int,
    ) -> T {
        let h = i / shape.head_dim as int;
        self.step_size(rates[t * shape.heads + h], w.ssm_dt_b@[h])
    }

    /// The cells of channel `i` after `n` tokens.
    pub open spec fn channel_cells(
        &self,
        shape: &ScanShape,
        w: &FalconH1Block<T>,
        rows: Seq<T>,
        rates: Seq<T>,
        before: Seq<T>,
        i: int,
        n: nat,
    ) -> Seq<T>
        decreases n,
    {
        if n == 0 {
            before.subrange(i * shape.state, i * shape.state + shape.state)
        } else {
            let t = n - 1;
            let at = t * shape.width;
            self.scanned_cells(
                self.channel_step(shape, w, rates, i, t),
                w.ssm_a@[i / shape.head_dim as int],
                rows[at + i],
                self.channel_cells(shape, w, rows, rates, before, i, t as nat),
                rows.subrange(at + shape.inner, at + shape.inner + shape.state),
            )
        }
    }

    /// The output of channel `i` at token `t`.
    pub open spec fn channel_output(
        &self,
        shape: &ScanShape,
        w: &FalconH1Block<T>,
        rows: Seq<T>,
        rates: Seq<T>,
        before: Seq<T>,
        i: int,
        t: int,
    ) -> T {
        let at = t * shape.width;
        self.scanned_output(
            self.channel_step(shape, w, rates, i, t),
            w.ssm_d@[i / shape.head_dim as int],
            rows[at + i],
            self.channel_cells(shape, w, rows, rates, before, i, (t + 1) as nat),
            rows.subrange(
                at + shape.inner + shape.state,
                at + shape.inner + 2 * shape.state,
            ),
        )
    }

    /// The scanned rows: channels that belong to no head stay at zero.
    pub open spec fn scanned_rows(
        &self,
        shape: &ScanShape,
        w: &FalconH1Block<T>,
        rows: Seq<T>,
        rates: Seq<T>,
        before: Seq<T>,
        tokens: nat,
    ) -> Seq<T> {
        Seq::new(
            tokens * shape.inner as nat,
            |p: int|
                {
                    let t = p / shape.inner as int;
                    let i = p % shape.inner as int;
                    if i < shape.used() {
                        self.channel_output(shape, w, rows, rates, before, i, t)
                    } else {
                        self.zero()
                    }
                },
        )
    }

    /// The state after `tokens` tokens: cells of channels that belong to no
    /// head stay as they are.
    pub open spec fn scanned_state(
        &self,
        shape: &ScanShape,
        w: &FalconH1Block<T>,
        rows: Seq<T>,
        rates: Seq<T>,
        before: Seq<T>,
        tokens: nat,
    ) -> Seq<T> {
        Seq::new(
            before.len(),
            |p: int|
                {
                    let i = p / shape.state as int;
                    if i < shape.used() {
                        self.channel_cells(shape, w, rows, rates, before, i, tokens)[p
                            % shape.state as int]
                    } else {
                        before[p]
                    }
                },
        )
    }

    /// The scan's rows of a layer.
    pub open spec fn layer_scan(
        &self,
        cfg: &FalconH1Config,
        w: &FalconH1Block<T>,
        kept: Seq<T>,
        state: Seq<T>,
        ssm: Seq<T>,
        tokens: nat,
    ) -> Seq<T> {
        let xbc = self.convolved_rows(cfg, w, kept + conv_rows(cfg, ssm, tokens), tokens);
        self.scanned_rows(
            &cfg.scan_shape(),
            w,
            xbc,
            rate_rows(cfg, ssm, tokens),
            state,
            tokens,
        )
    }

    /// The state that a layer leaves.
    pub open spec fn layer_state(
        &self,
        cfg: &FalconH1Config,
        w: &FalconH1Block<T>,
        kept: Seq<T>,
        state: Seq<T>,
        ssm: Seq<T>,
        tokens: nat,
    ) -> Seq<T> {
        let xbc = self.convolved_rows(cfg, w, kept + conv_rows(cfg, ssm, tokens), tokens);
        self.scanned_state(
            &cfg.scan_shape(),
            w,
            xbc,
            rate_rows(cfg, ssm, tokens),
            state,
            tokens,
        )
    }

    /// Rows gated by the first part of the projected rows.
    pub open spec fn gated_rows(
        &self,
        cfg: &FalconH1Config,
        ssm: Seq<T>,
        y: Seq<T>,
        tokens: nat,
    ) -> Seq<T> {
        let z = columns(ssm, tokens, cfg.in_dim() as nat, 0, cfg.ssm_d_inner as nat);
        Seq::new(y.len(), |p: int| self.times(self.silu_of(z[p]), y[p]))
    }

    /// What the state-space part makes of the projected rows of a call.
    pub open spec fn layer_rows(
        &self,
        cfg: &FalconH1Config,
        w: &FalconH1Block<T>,
        kept: Seq<T>,
        state: Seq<T>,
        ssm: Seq<T>,
        tokens: nat,
    ) -> Seq<T> {
        self.gated_rows(cfg, ssm, self.layer_scan(cfg, w, kept, state, ssm, tokens), tokens)
    }

    proof fn lemma_cells_len(
        &self,
        shape: &ScanShape,
        w: &FalconH1Block<T>,
        rows: Seq<T>,
        rates: Seq<T>,
        before: Seq<T>,
        i: int,
        n: nat,
    )
        requires
            shape.wf(),
            0 <= i < shape.used(),
            before.len() == shape.inner * shape.state,
        ensures
            self.channel_cells(shape, w, rows, rates, before, i, n).len() == shape.state,
        decreases n,
    {
        if n == 0 {
            lemma_row_bounds(i, shape.inner as int, shape.state as int);
        } else {
            self.lemma_cells_len(shape, w, rows, rates, before, i, (n - 1) as nat);
        }
    }
}

/// What a scan step does for one head.
pub open spec fn steps_exactly<
    T: Copy,
    F: Fn(ScalarOp, T, T) -> T,
    C: Fn(Number) -> T,
    Z: Fn(Relation, T, T) -> bool,
    S: Fn(usize, T, T, Vec<T>, Vec<T>, Vec<T>) -> (Vec<T>, T),
>(x: &Scalars<T, F, C, Z>, w: &FalconH1Block<T>, step: S) -> bool {
    forall|h: usize, r: T, v: T, s: Vec<T>, b: Vec<T>, c: Vec<T>, o: (Vec<T>, T)| #[trigger]
        call_ensures(step, (h, r, v, s, b, c), o) ==> {
            let dt = x.step_size(r, w.ssm_dt_b@[h as int]);
            &&& o.0@ == x.scanned_cells(dt, w.ssm_a@[h as int], v, s@, b@)
            &&& o.1 == x.scanned_output(dt, w.ssm_d@[h as int], v, o.0@, c@)
        }
}

/// The cells of every channel along a scan.
proof fn lemma_trace_cells<
    T: Copy,
    F: Fn(ScalarOp, T, T) -> T,
    C: Fn(Number) -> T,
    Z: Fn(Relation, T, T) -> bool,
    S: Fn(usize, T, T, Vec<T>, Vec<T>, Vec<T>) -> (Vec<T>, T),
>(
    x: &Scalars<T, F, C, Z>,
    shape: &ScanShape,
    w: &FalconH1Block<T>,
    step: S,
    rows: Seq<T>,
    rates: Seq<T>,
    tokens: nat,
    y: Seq<T>,
    states: Seq<Seq<T>>,
    n: int,
)
    requires
        shape.wf(),
        shape.heads <= usize::MAX,
        steps_exactly(x, w, step),
        scan_trace(shape, step, rows, rates, tokens, y, states),
        states[0].len() == shape.inner * shape.state,
        0 <= n <= tokens * shape.used(),
        shape.used() > 0,
    ensures
        states[n].len() == states[0].len(),
        forall|i: int|
            0 <= i < shape.used() ==> #[trigger] cells_at(states[n], i, shape.state as int)
                == x.channel_cells(
                shape,
                w,
                rows,
                rates,
                states[0],
                i,
                (n / shape.used() as int + if i < n % shape.used() as int {
                    1int
                } else {
                    0
                }) as nat,
            ),
        forall|p: int|
            shape.used() * shape.state <= p < states[0].len() ==> #[trigger] states[n][p]
                == states[0][p],
        forall|m: int|
            0 <= m < n ==> #[trigger] y[output_place(shape, m)] == x.channel_output(
                shape,
                w,
                rows,
                rates,
                states[0],
                m % shape.used() as int,
                m / shape.used() as int,
            ),
    decreases n,
{
    let used = shape.used() as int;
    let ds = shape.state as int;
    if n == 0 {
        vstd::arithmetic::div_mod::lemma_small_mod(0, shape.used());
        vstd::arithmetic::div_mod::lemma_basic_div(0, used);
    } else {
        let m = n - 1;
        lemma_trace_cells(x, shape, w, step, rows, rates, tokens, y, states, m);
        assert(scan_cell(shape, step, rows, rates, states[m], states[m + 1], y, m));
        let t = m / used;
        let j = m % used;
        lemma_flat_index(m, tokens as int, used);
        lemma_flat_index(j, shape.heads as int, shape.head_dim as int);
        let h = j / shape.head_dim as int;
        let at = t * shape.width;
        let (cells, b, c, next, out) = choose|
            cells: Vec<T>,
            b: Vec<T>,
            c: Vec<T>,
            next: Vec<T>,
            out: T,
        |
            cells@ == states[m].subrange(j * shape.state, j * shape.state + shape.state) && b@
                == rows.subrange(at + shape.inner, at + shape.inner + shape.state) && c@
                == rows.subrange(
                at + shape.inner + shape.state,
                at + shape.inner + 2 * shape.state,
            ) && next@.len() == shape.state && states[m + 1] == with_row(
                states[m],
                j,
                shape.state as nat,
                next@,
            ) && y[t * shape.inner + j] == out && #[trigger] call_ensures(
                step,
                (h as usize, rates[t * shape.heads + h], rows[at + j], cells, b, c),
                (next, out),
            );
        lemma_row_bounds(j, shape.inner as int, ds);
        assert(cells_at(states[m], j, ds) == x.channel_cells(
            shape,
            w,
            rows,
            rates,
            states[0],
            j,
            t as nat,
        ));
        assert(next@ == x.channel_cells(shape, w, rows, rates, states[0], j, (t + 1) as nat));
        lemma_next_place(m, used);
        assert forall|i: int| 0 <= i < used implies #[trigger] cells_at(states[n], i, ds)
            == x.channel_cells(
            shape,
            w,
            rows,
            rates,
            states[0],
            i,
            (n / used + if i < n % used {
                1int
            } else {
                0
            }) as nat,
        ) by {
            lemma_row_bounds(i, shape.inner as int, ds);
            if i == j {
                assert(cells_at(states[n], i, ds) =~= next@);
            } else {
                lemma_rows_apart(i, j, ds);
                assert(cells_at(states[n], i, ds) =~= cells_at(states[m], i, ds));
            }
        }
        assert forall|p: int| used * ds <= p < states[0].len() implies #[trigger] states[n][p]
            == states[0][p] by {
            lemma_row_bounds(j, used, ds);
            assert(states[m][p] == states[0][p]);
        }
        assert forall|q: int| 0 <= q < n implies #[trigger] y[output_place(shape, q)]
            == x.channel_output(shape, w, rows, rates, states[0], q % used, q / used) by {
            if q < m {
                assert(y[output_place(shape, q)] == x.channel_output(
                    shape,
                    w,
                    rows,
                    rates,
                    states[0],
                    q % used,
                    q / used,
                ));
            }
        }
    }
}

/// The cells of channel `i`.
pub open spec fn cells_at<T>(state: Seq<T>, i: int, len: int) -> Seq<T> {
    state.subrange(i * len, i * len + len)
}

/// Where step `m` of a scan leaves its output.
pub open spec fn output_place(shape: &ScanShape, m: int) -> int {
    (m / shape.used() as int) * shape.inner + m % shape.used() as int
}

proof fn lemma_next_place(m: int, used: int)
    requires
        0 <= m,
        0 < used,
    ensures
        m % used + 1 < used ==> (m + 1) / used == m / used && (m + 1) % used == m % used + 1,
        m % used + 1 == used ==> (m + 1) / used == m / used + 1 && (m + 1) % used == 0,
        0 <= m % used < used,
{
    let t = m / used;
    let j = m % used;
    vstd::arithmetic::div_mod::lemma_fundamental_div_mod(m, used);
    assert(m == t * used + j) by (nonlinear_arith)
        requires
            m == used * t + j,
    ;
    if j + 1 < used {
        lemma_cell_coordinates(t, j + 1, used);
    } else {
        assert(m + 1 == (t + 1) * used + 0) by (nonlinear_arith)
            requires
                m == t * used + j,
                j + 1 == used,
        ;
        lemma_cell_coordinates(t + 1, 0, used);
    }
}

proof fn lemma_rows_apart(i: int, j: int, len: int)
    requires
        i != j,
        0 <= len,
    ensures
        i < j ==> i * len + len <= j * len,
        j < i ==> j * len + len <= i * len,
{
    if i < j {
        assert((i + 1) * len <= j * len) by (nonlinear_arith)
            requires
                i + 1 <= j,
                0 <= len,
        ;
        assert((i + 1) * len == i * len + len) by (nonlinear_arith);
    } else {
        assert((j + 1) * len <= i * len) by (nonlinear_arith)
            requires
                j + 1 <= i,
                0 <= len,
        ;
        assert((j + 1) * len == j * len + len) by (nonlinear_arith);
    }
}

/// A scan whose steps are exact gives the scanned rows and leaves the scanned
/// state.
proof fn lemma_scan_is_exact<
    T: Copy,
    F: Fn(ScalarOp, T, T) -> T,
    C: Fn(Number) -> T,
    Z: Fn(Relation, T, T) -> bool,
    S: Fn(usize, T, T, Vec<T>, Vec<T>, Vec<T>) -> (Vec<T>, T),
>(
    x: &Scalars<T, F, C, Z>,
    shape: &ScanShape,
    w: &FalconH1Block<T>,
    step: S,
    rows: Seq<T>,
    rates: Seq<T>,
    tokens: nat,
    before: Seq<T>,
    after: Seq<T>,
    y: Seq<T>,
)
    requires
        shape.wf(),
        steps_exactly(x, w, step),
        scanned(shape, step, rows, rates, tokens, before, after, y),
        before.len() == shape.inner * shape.state,
        y.len() == tokens * shape.inner,
        forall|t: int, i: int|
            0 <= t < tokens && shape.used() <= i < shape.inner ==> y[#[trigger] (t * shape.inner
                + i)] == x.zero(),
    ensures
        y == x.scanned_rows(shape, w, rows, rates, before, tokens),
        after == x.scanned_state(shape, w, rows, rates, before, tokens),
{
    let states = choose|states: Seq<Seq<T>>| #[trigger]
        scan_trace(shape, step, rows, rates, tokens, y, states) && states[0] == before
            && states.last() == after;
    let used = shape.used() as int;
    let inner = shape.inner as int;
    let ds = shape.state as int;
    let n = tokens * used;
    if used > 0 {
        assert(0 <= n) by (nonlinear_arith)
            requires
                n == tokens * used,
                0 < used,
        ;
        lemma_trace_cells(x, shape, w, step, rows, rates, tokens, y, states, n);
        lemma_cell_coordinates(tokens as int, 0, used);
    } else {
        assert(tokens * used == 0) by (nonlinear_arith)
            requires
                used == 0,
        ;
    }
    assert forall|p: int| 0 <= p < y.len() implies y[p] == x.scanned_rows(
        shape,
        w,
        rows,
        rates,
        before,
        tokens,
    )[p] by {
        lemma_flat_index(p, tokens as int, inner);
        let t = p / inner;
        let i = p % inner;
        vstd::arithmetic::div_mod::lemma_fundamental_div_mod(p, inner);
        assert(p == t * inner + i) by (nonlinear_arith)
            requires
                p == inner * t + i,
        ;
        if i < used {
            lemma_cell_in_rows(t, i, tokens as int, used);
            lemma_cell_coordinates(t, i, used);
            assert(y[output_place(shape, t * used + i)] == x.channel_output(
                shape,
                w,
                rows,
                rates,
                before,
                i,
                t,
            ));
        } else {
            assert(y[t * inner + i] == x.zero());
        }
    }
    assert(y =~= x.scanned_rows(shape, w, rows, rates, before, tokens));
    assert(after.len() == before.len());
    assert forall|p: int| 0 <= p < after.len() implies after[p] == x.scanned_state(
        shape,
        w,
        rows,
        rates,
        before,
        tokens,
    )[p] by {
        lemma_flat_index(p, inner, ds);
        let i = p / ds;
        let k = p % ds;
        vstd::arithmetic::div_mod::lemma_fundamental_div_mod(p, ds);
        assert(p == i * ds + k) by (nonlinear_arith)
            requires
                p == ds * i + k,
        ;
        if i < used {
            assert(cells_at(after, i, ds) == x.channel_cells(
                shape,
                w,
                rows,
                rates,
                before,
                i,
                tokens,
            ));
            lemma_row_bounds(i, inner, ds);
            assert(cells_at(after, i, ds)[k] == after[p]);
        } else {
            assert(used * ds <= i * ds) by (nonlinear_arith)
                requires
                    used <= i,
                    0 <= ds,
            ;
        }
    }
    assert(after =~= x.scanned_state(shape, w, rows, rates, before, tokens));
}

/// Convolves and activates the rows of a call on the host, and slides the kept
/// inputs.
pub(crate) fn convolve_on_host<
    T: Copy,
    F: Fn(ScalarOp, T, T) -> T,
    C: Fn(Number) -> T,
    Z: Fn(Relation, T, T) -> bool,
>(
    x: &Scalars<T, F, C, Z>,
    cfg: &FalconH1Config,
    w: &FalconH1Block<T>,
    cache: &mut FalconH1LayerCache<T>,
    ssm: &[T],
    tokens: usize,
) -> (xbc: Vec<T>)
    requires
        x.wf(),
        cfg.scans(),
        w.wf(cfg),
        old(cache).wf(cfg),
        ssm@.len() == tokens * cfg.in_dim(),
        (cfg.ssm_d_conv - 1 + tokens) * cfg.conv_dim() <= usize::MAX,
    ensures
        xbc@ == x.convolved_rows(
            cfg,
            w,
            old(cache).conv_state@ + conv_rows(cfg, ssm@, tokens as nat),
            tokens as nat,
        ),
        final(cache).wf(cfg),
        final(cache).conv_state@ == suffix(
            old(cache).conv_state@ + conv_rows(cfg, ssm@, tokens as nat),
            old(cache).conv_state@.len(),
        ),
        final(cache).ssm_state == old(cache).ssm_state,
        final(cache).k_cache == old(cache).k_cache,
        final(cache).v_cache == old(cache).v_cache,
        final(cache).k_device == old(cache).k_device,
        final(cache).v_device == old(cache).v_device,
        final(cache).current_pos == old(cache).current_pos,
{
    proof {
        lemma_scan_shape(cfg);
    }
    let ghost kept = cache.conv_state@;
    let ghost width = cfg.conv_dim();
    let taps: usize = cfg.ssm_d_conv;
    let conv = |step: usize, d: usize, a: Vec<T>, b: Vec<T>| -> (o: T)
        requires
            d < width,
            a@.len() == taps,
            b@.len() == taps,
        ensures
            o == x.conv_of(w.ssm_conv_b@[d as int], a@, b@)
        { conv_cell_of(x, w.ssm_conv_b[d], a.as_slice(), b.as_slice()) };
    let xbc = conv_on_host(cfg, cache, ssm, tokens, w.ssm_conv_w.as_slice(), conv);
    proof {
        let history = kept + conv_rows(cfg, ssm@, tokens as nat);
        let rows = x.convolved_rows(cfg, w, history, tokens as nat);
        assert forall|p: int| 0 <= p < xbc@.len() implies xbc@[p] == rows[p] by {
            lemma_flat_index(p, tokens as int, width);
            let t = p / width;
            let d = p % width;
            vstd::arithmetic::div_mod::lemma_fundamental_div_mod(p, width);
            assert(p == t * width + d) by (nonlinear_arith)
                requires
                    p == width * t + d,
            ;
            assert(cell_done(
                conv,
                history,
                w.ssm_conv_w@,
                width as nat,
                taps as nat,
                xbc@,
                t,
                d,
            ));
        }
        assert(xbc@ =~= rows);
    }
    xbc
}

/// Scans the convolved rows of a call on the host.
pub(crate) fn scan_rows_on_host<
    T: Copy,
    F: Fn(ScalarOp, T, T) -> T,
    C: Fn(Number) -> T,
    Z: Fn(Relation, T, T) -> bool,
>(
    x: &Scalars<T, F, C, Z>,
    cfg: &FalconH1Config,
    w: &FalconH1Block<T>,
    cache: &mut FalconH1LayerCache<T>,
    xbc: &Vec<T>,
    ssm: &[T],
    tokens: usize,
) -> (y: Vec<T>)
    requires
        x.wf(),
        cfg.scans(),
        w.wf(cfg),
        old(cache).wf(cfg),
        xbc@.len() == tokens * cfg.conv_dim(),
        ssm@.len() == tokens * cfg.in_dim(),
        tokens * cfg.ssm_d_inner <= usize::MAX,
    ensures
        y@ == x.scanned_rows(
            &cfg.scan_shape(),
            w,
            xbc@,
            rate_rows(cfg, ssm@, tokens as nat),
            old(cache).ssm_state@,
            tokens as nat,
        ),
        final(cache).wf(cfg),
        final(cache).ssm_state@ == x.scanned_state(
            &cfg.scan_shape(),
            w,
            xbc@,
            rate_rows(cfg, ssm@, tokens as nat),
            old(cache).ssm_state@,
            tokens as nat,
        ),
        final(cache).conv_state == old(cache).conv_state,
        final(cache).k_cache == old(cache).k_cache,
        final(cache).v_cache == old(cache).v_cache,
        final(cache).k_device == old(cache).k_device,
        final(cache).v_device == old(cache).v_device,
        final(cache).current_pos == old(cache).current_pos,
{
    proof {
        lemma_scan_shape(cfg);
    }
    let ghost state = cache.ssm_state@;
    let heads: usize = cfg.ssm_dt_rank;
    let cells: usize = cfg.ssm_d_state;
    let step = |h: usize, r: T, v: T, s: Vec<T>, b: Vec<T>, c: Vec<T>| -> (o: (Vec<T>, T))
        requires
            h < heads,
            s@.len() == cells,
            b@.len() == cells,
            c@.len() == cells,
        ensures
            o.0@ == x.scanned_cells(
                x.step_size(r, w.ssm_dt_b@[h as int]),
                w.ssm_a@[h as int],
                v,
                s@,
                b@,
            ),
            o.1 == x.scanned_output(
                x.step_size(r, w.ssm_dt_b@[h as int]),
                w.ssm_d@[h as int],
                v,
                o.0@,
                c@,
            ),
            o.0@.len() == cells
        {
            let dt = step_size_of(x, r, w.ssm_dt_b[h]);
            scan_step(x, dt, w.ssm_a[h], w.ssm_d[h], v, s.as_slice(), b.as_slice(), c.as_slice())
        };
    let y = scan_on_host(cfg, cache, xbc.as_slice(), ssm, tokens, x.zero(), step);
    proof {
        assert(steps_exactly(x, w, step));
        lemma_scan_is_exact(
            x,
            &cfg.scan_shape(),
            w,
            step,
            xbc@,
            rate_rows(cfg, ssm@, tokens as nat),
            tokens as nat,
            state,
            cache.ssm_state@,
            y@,
        );
    }
    y
}

/// Rows of two calls, one behind the other, are the rows of one.
proof fn lemma_stack_cell<T>(a: Seq<T>, b: Seq<T>, rows: int, more: int, width: int, t: int, c: int)
    requires
        a.len() == rows * width,
        b.len() == more * width,
        0 <= c < width,
        0 <= rows,
        0 <= t < rows + more,
    ensures
        (a + b)[t * width + c] == if t < rows {
            a[t * width + c]
        } else {
            b[(t - rows) * width + c]
        },
        t < rows ==> 0 <= t * width && t * width + width <= a.len(),
        t >= rows ==> t * width == a.len() + (t - rows) * width && 0 <= (t - rows) * width && (t
            - rows) * width + width <= b.len(),
{
    if t < rows {
        lemma_row_bounds(t, rows, width);
    } else {
        lemma_row_bounds(t - rows, more, width);
        assert(t * width == rows * width + (t - rows) * width) by (nonlinear_arith);
    }
}

proof fn lemma_stack_slice<T>(
    a: Seq<T>,
    b: Seq<T>,
    rows: int,
    more: int,
    width: int,
    t: int,
    start: int,
    len: int,
)
    requires
        a.len() == rows * width,
        b.len() == more * width,
        0 <= start,
        0 <= len,
        start + len <= width,
        0 < width,
        0 <= rows,
        0 <= t < rows + more,
    ensures
        (a + b).subrange(t * width + start, t * width + start + len) == if t < rows {
            a.subrange(t * width + start, t * width + start + len)
        } else {
            b.subrange((t - rows) * width + start, (t - rows) * width + start + len)
        },
{
    lemma_stack_cell(a, b, rows, more, width, t, 0);
    if t < rows {
        assert((a + b).subrange(t * width + start, t * width + start + len) =~= a.subrange(
            t * width + start,
            t * width + start + len,
        ));
    } else {
        assert((a + b).subrange(t * width + start, t * width + start + len) =~= b.subrange(
            (t - rows) * width + start,
            (t - rows) * width + start + len,
        ));
    }
}

impl<T: Copy, F: Fn(ScalarOp, T, T) -> T, C: Fn(Number) -> T, Z: Fn(Relation, T, T) -> bool> Scalars<T, F, C, Z> {
    /// One token of a scan over stacked rows.
    proof fn lemma_stacked_token(
        &self,
        shape: &ScanShape,
        w: &FalconH1Block<T>,
        a: Seq<T>,
        b: Seq<T>,
        ra: Seq<T>,
        rb: Seq<T>,
        tokens: nat,
        more: nat,
        i: int,
        t: int,
    )
        requires
            shape.wf(),
            a.len() == tokens * shape.width,
            b.len() == more * shape.width,
            ra.len() == tokens * shape.heads,
            rb.len() == more * shape.heads,
            0 <= i < shape.used(),
            0 <= t < tokens + more,
        ensures
            ({
                let (rows, rates, s) = if t < tokens {
                    (a, ra, t)
                } else {
                    (b, rb, t - tokens)
                };
                let at = t * shape.width;
                let from = s * shape.width;
                &&& self.channel_step(shape, w, ra + rb, i, t) == self.channel_step(
                    shape,
                    w,
                    rates,
                    i,
                    s,
                )
                &&& (a + b)[at + i] == rows[from + i]
                &&& (a + b).subrange(at + shape.inner, at + shape.inner + shape.state)
                    == rows.subrange(from + shape.inner, from + shape.inner + shape.state)
                &&& (a + b).subrange(
                    at + shape.inner + shape.state,
                    at + shape.inner + 2 * shape.state,
                ) == rows.subrange(
                    from + shape.inner + shape.state,
                    from + shape.inner + 2 * shape.state,
                )
            }),
    {
        let width = shape.width as int;
        let (inner, ds) = (shape.inner as int, shape.state as int);
        let h = i / shape.head_dim as int;
        lemma_flat_index(i, shape.heads as int, shape.head_dim as int);
        lemma_stack_cell(ra, rb, tokens as int, more as int, shape.heads as int, t, h);
        lemma_stack_cell(a, b, tokens as int, more as int, width, t, i);
        lemma_stack_slice(a, b, tokens as int, more as int, width, t, inner, ds);
        lemma_stack_slice(a, b, tokens as int, more as int, width, t, inner + ds, ds);
    }

    /// The cells along a scan over stacked rows: those of the first rows, then
    /// those of the second from where the first left them.
    proof fn lemma_stacked_cells(
        &self,
        shape: &ScanShape,
        w: &FalconH1Block<T>,
        a: Seq<T>,
        b: Seq<T>,
        ra: Seq<T>,
        rb: Seq<T>,
        before: Seq<T>,
        tokens: nat,
        more: nat,
        i: int,
        n: nat,
    )
        requires
            shape.wf(),
            a.len() == tokens * shape.width,
            b.len() == more * shape.width,
            ra.len() == tokens * shape.heads,
            rb.len() == more * shape.heads,
            before.len() == shape.inner * shape.state,
            0 <= i < shape.used(),
            n <= tokens + more,
        ensures
            self.channel_cells(shape, w, a + b, ra + rb, before, i, n) == if n <= tokens {
                self.channel_cells(shape, w, a, ra, before, i, n)
            } else {
                self.channel_cells(
                    shape,
                    w,
                    b,
                    rb,
                    self.scanned_state(shape, w, a, ra, before, tokens),
                    i,
                    (n - tokens) as nat,
                )
            },
            self.channel_cells(
                shape,
                w,
                b,
                rb,
                self.scanned_state(shape, w, a, ra, before, tokens),
                i,
                0,
            ) == self.channel_cells(shape, w, a, ra, before, i, tokens),
        decreases n,
    {
        let ds = shape.state as int;
        let mid = self.scanned_state(shape, w, a, ra, before, tokens);
        let left = self.channel_cells(shape, w, a, ra, before, i, tokens);
        self.lemma_cells_len(shape, w, a, ra, before, i, tokens);
        lemma_row_bounds(i, shape.inner as int, ds);
        let cells = mid.subrange(i * ds, i * ds + ds);
        assert forall|k: int| 0 <= k < ds implies #[trigger] cells[k] == left[k] by {
            lemma_cell_coordinates(i, k, ds);
            assert(cells[k] == mid[i * ds + k]);
        }
        assert(cells =~= left);
        if n > 0 {
            let t = n - 1;
            self.lemma_stacked_cells(
                shape,
                w,
                a,
                b,
                ra,
                rb,
                before,
                tokens,
                more,
                i,
                t as nat,
            );
            self.lemma_stacked_token(shape, w, a, b, ra, rb, tokens, more, i, t);
        }
    }

    /// Scanning stacked rows gives what the two scans give, one behind the
    /// other, and leaves what the second leaves.
    proof fn lemma_stacked_scan(
        &self,
        shape: &ScanShape,
        w: &FalconH1Block<T>,
        a: Seq<T>,
        b: Seq<T>,
        ra: Seq<T>,
        rb: Seq<T>,
        before: Seq<T>,
        tokens: nat,
        more: nat,
    )
        requires
            shape.wf(),
            a.len() == tokens * shape.width,
            b.len() == more * shape.width,
            ra.len() == tokens * shape.heads,
            rb.len() == more * shape.heads,
            before.len() == shape.inner * shape.state,
        ensures
            ({
                let mid = self.scanned_state(shape, w, a, ra, before, tokens);
                &&& self.scanned_rows(shape, w, a + b, ra + rb, before, tokens + more)
                    == self.scanned_rows(shape, w, a, ra, before, tokens) + self.scanned_rows(
                    shape,
                    w,
                    b,
                    rb,
                    mid,
                    more,
                )
                &&& self.scanned_state(shape, w, a + b, ra + rb, before, tokens + more)
                    == self.scanned_state(shape, w, b, rb, mid, more)
            }),
    {
        let mid = self.scanned_state(shape, w, a, ra, before, tokens);
        let inner = shape.inner as int;
        let ds = shape.state as int;
        let all = self.scanned_rows(shape, w, a + b, ra + rb, before, tokens + more);
        let first = self.scanned_rows(shape, w, a, ra, before, tokens);
        let second = self.scanned_rows(shape, w, b, rb, mid, more);
        assert((tokens + more) * inner == tokens * inner + more * inner) by (nonlinear_arith);
        assert forall|p: int| 0 <= p < all.len() implies all[p] == (first + second)[p] by {
            lemma_flat_index(p, (tokens + more) as int, inner);
            let t = p / inner;
            let i = p % inner;
            vstd::arithmetic::div_mod::lemma_fundamental_div_mod(p, inner);
            assert(p == t * inner + i) by (nonlinear_arith)
                requires
                    p == inner * t + i,
            ;
            if t < tokens {
                lemma_cell_in_rows(t, i, tokens as int, inner);
            } else {
                lemma_cell_in_rows(t - tokens, i, more as int, inner);
                assert(p == tokens * inner + ((t - tokens) * inner + i)) by (nonlinear_arith)
                    requires
                        p == t * inner + i,
                ;
                lemma_cell_coordinates(t - tokens, i, inner);
            }
            if i < shape.used() {
                self.lemma_stacked_token(shape, w, a, b, ra, rb, tokens, more, i, t);
                self.lemma_stacked_cells(
                    shape,
                    w,
                    a,
                    b,
                    ra,
                    rb,
                    before,
                    tokens,
                    more,
                    i,
                    (t + 1) as nat,
                );
            }
        }
        assert(all =~= first + second);
        let end = self.scanned_state(shape, w, a + b, ra + rb, before, tokens + more);
        let other = self.scanned_state(shape, w, b, rb, mid, more);
        assert forall|p: int| 0 <= p < end.len() implies end[p] == other[p] by {
            lemma_flat_index(p, inner, ds);
            let i = p / ds;
            if i < shape.used() {
                self.lemma_stacked_cells(
                    shape,
                    w,
                    a,
                    b,
                    ra,
                    rb,
                    before,
                    tokens,
                    more,
                    i,
                    tokens + more,
                );
            }
        }
        assert(end =~= other);
    }

    /// Convolving stacked rows gives what the two calls give.
    proof fn lemma_stacked_conv(
        &self,
        cfg: &FalconH1Config,
        w: &FalconH1Block<T>,
        kept: Seq<T>,
        a: Seq<T>,
        b: Seq<T>,
        tokens: nat,
        more: nat,
    )
        requires
            cfg.scans(),
            kept.len() == (cfg.ssm_d_conv - 1) * cfg.conv_dim(),
            a.len() == tokens * cfg.conv_dim(),
            b.len() == more * cfg.conv_dim(),
        ensures
            self.convolved_rows(cfg, w, kept + (a + b), tokens + more) == self.convolved_rows(
                cfg,
                w,
                kept + a,
                tokens,
            ) + self.convolved_rows(cfg, w, suffix(kept + a, kept.len()) + b, more),
    {
        lemma_scan_shape(cfg);
        let width = cfg.conv_dim();
        let taps = cfg.ssm_d_conv as nat;
        let all = self.convolved_rows(cfg, w, kept + (a + b), tokens + more);
        let first = self.convolved_rows(cfg, w, kept + a, tokens);
        let second = self.convolved_rows(cfg, w, suffix(kept + a, kept.len()) + b, more);
        assert((tokens + more) * width == tokens * width + more * width) by (nonlinear_arith);
        assert forall|p: int| 0 <= p < all.len() implies all[p] == (first + second)[p] by {
            lemma_flat_index(p, (tokens + more) as int, width);
            let t = p / width;
            let d = p % width;
            vstd::arithmetic::div_mod::lemma_fundamental_div_mod(p, width);
            assert(p == t * width + d) by (nonlinear_arith)
                requires
                    p == width * t + d,
            ;
            if t < tokens {
                lemma_cell_in_rows(t, d, tokens as int, width);
                let one = window(kept + (a + b), width as nat, taps, t, d);
                let two = window(kept + a, width as nat, taps, t, d);
                assert forall|k: int| 0 <= k < taps implies one[k] == two[k] by {
                    assert(0 <= (t + k) * width && (t + k) * width + d < kept.len() + a.len())
                        by (nonlinear_arith)
                        requires
                            0 <= t < tokens,
                            0 <= k < taps,
                            0 <= d < width,
                            kept.len() == (taps - 1) * width,
                            a.len() == tokens * width,
                    ;
                }
                assert(one =~= two);
            } else {
                lemma_cell_in_rows(t - tokens, d, more as int, width);
                assert(p == tokens * width + ((t - tokens) * width + d)) by (nonlinear_arith)
                    requires
                        p == t * width + d,
                ;
                lemma_cell_coordinates(t - tokens, d, width);
                law_conv_in_two_calls(
                    kept,
                    a,
                    b,
                    width as nat,
                    taps,
                    tokens,
                    more,
                    t - tokens,
                    d,
                );
            }
        }
        assert(all =~= first + second);
    }
}

/// Token by token or all at once, a layer gives the same rows and keeps the
/// same state: a second call goes on where the first one left off.
pub proof fn law_layer_in_two_calls<
    T: Copy,
    F: Fn(ScalarOp, T, T) -> T,
    C: Fn(Number) -> T,
    Z: Fn(Relation, T, T) -> bool,
>(
    x: &Scalars<T, F, C, Z>,
    cfg: &FalconH1Config,
    w: &FalconH1Block<T>,
    kept: Seq<T>,
    state: Seq<T>,
    ssm: Seq<T>,
    more_ssm: Seq<T>,
    tokens: nat,
    more: nat,
)
    requires
        cfg.scans(),
        kept.len() == (cfg.ssm_d_conv - 1) * cfg.conv_dim(),
        state.len() == cfg.ssm_d_inner * cfg.ssm_d_state,
        ssm.len() == tokens * cfg.in_dim(),
        more_ssm.len() == more * cfg.in_dim(),
    ensures
        ({
            let slid = suffix(kept + conv_rows(cfg, ssm, tokens), kept.len());
            let mid = x.layer_state(cfg, w, kept, state, ssm, tokens);
            &&& x.layer_rows(cfg, w, kept, state, ssm + more_ssm, tokens + more) == x.layer_rows(
                cfg,
                w,
                kept,
                state,
                ssm,
                tokens,
            ) + x.layer_rows(cfg, w, slid, mid, more_ssm, more)
            &&& x.layer_state(cfg, w, kept, state, ssm + more_ssm, tokens + more)
                == x.layer_state(cfg, w, slid, mid, more_ssm, more)
            &&& suffix(kept + conv_rows(cfg, ssm + more_ssm, tokens + more), kept.len())
                == suffix(slid + conv_rows(cfg, more_ssm, more), kept.len())
        }),
{
    lemma_scan_shape(cfg);
    let shape = cfg.scan_shape();
    let width = cfg.in_dim() as nat;
    let inner = cfg.ssm_d_inner as nat;
    let conv = cfg.conv_dim() as nat;
    law_columns_of_stack(ssm, more_ssm, tokens, more, width, inner, conv);
    law_columns_of_stack(
        ssm,
        more_ssm,
        tokens,
        more,
        width,
        inner + conv,
        cfg.ssm_dt_rank as nat,
    );
    law_columns_of_stack(ssm, more_ssm, tokens, more, width, 0, inner);
    let a = conv_rows(cfg, ssm, tokens);
    let b = conv_rows(cfg, more_ssm, more);
    x.lemma_stacked_conv(cfg, w, kept, a, b, tokens, more);
    let slid = suffix(kept + a, kept.len());
    let xa = x.convolved_rows(cfg, w, kept + a, tokens);
    let xb = x.convolved_rows(cfg, w, slid + b, more);
    let ra = rate_rows(cfg, ssm, tokens);
    let rb = rate_rows(cfg, more_ssm, more);
    x.lemma_stacked_scan(&shape, w, xa, xb, ra, rb, state, tokens, more);
    let mid = x.layer_state(cfg, w, kept, state, ssm, tokens);
    let ya = x.layer_scan(cfg, w, kept, state, ssm, tokens);
    let yb = x.layer_scan(cfg, w, slid, mid, more_ssm, more);
    assert(x.gated_rows(cfg, ssm + more_ssm, ya + yb, tokens + more) =~= x.gated_rows(
        cfg,
        ssm,
        ya,
        tokens,
    ) + x.gated_rows(cfg, more_ssm, yb, more));
    lemma_suffix_of_suffix(kept, a, b);
}

/// What two calls keep is what one call keeps.
proof fn lemma_suffix_of_suffix<T>(kept: Seq<T>, a: Seq<T>, b: Seq<T>)
    ensures
        suffix(kept + (a + b), kept.len()) == suffix(suffix(kept + a, kept.len()) + b, kept.len()),
{
    assert(suffix(kept + (a + b), kept.len()) =~= suffix(
        suffix(kept + a, kept.len()) + b,
        kept.len(),
    ));
}

impl<T: Copy, F: Fn(ScalarOp, T, T) -> T, C: Fn(Number) -> T, Z: Fn(Relation, T, T) -> bool> Scalars<T, F, C, Z> {
    /// Calls of one token each, every one starting from what the one before it
    /// left: their rows, one behind the other, and the rows kept and the cells
    /// behind the last.
    pub open spec fn token_by_token(
        &self,
        cfg: &FalconH1Config,
        w: &FalconH1Block<T>,
        kept: Seq<T>,
        state: Seq<T>,
        tokens: Seq<Seq<T>>,
    ) -> (Seq<T>, Seq<T>, Seq<T>)
        decreases tokens.len(),
    {
        if tokens.len() == 0 {
            (Seq::empty(), kept, state)
        } else {
            let (rows, kept, state) = self.token_by_token(cfg, w, kept, state, tokens.drop_last());
            let ssm = tokens.last();
            (
                rows + self.layer_rows(cfg, w, kept, state, ssm, 1),
                suffix(kept + conv_rows(cfg, ssm, 1), kept.len()),
                self.layer_state(cfg, w, kept, state, ssm, 1),
            )
        }
    }
}

/// Decoding matches prefill: one call on all tokens gives the rows of as many
/// calls of one token, and keeps what the last of them keeps.
pub proof fn law_token_by_token_matches_prefill<
    T: Copy,
    F: Fn(ScalarOp, T, T) -> T,
    C: Fn(Number) -> T,
    Z: Fn(Relation, T, T) -> bool,
>(
    x: &Scalars<T, F, C, Z>,
    cfg: &FalconH1Config,
    w: &FalconH1Block<T>,
    kept: Seq<T>,
    state: Seq<T>,
    tokens: Seq<Seq<T>>,
)
    requires
        cfg.scans(),
        kept.len() == (cfg.ssm_d_conv - 1) * cfg.conv_dim(),
        state.len() == cfg.ssm_d_inner * cfg.ssm_d_state,
        tokens.len() >= 1,
        forall|k: int| 0 <= k < tokens.len() ==> (#[trigger] tokens[k]).len() == cfg.in_dim(),
    ensures
        stacked(tokens).len() == tokens.len() * cfg.in_dim(),
        x.token_by_token(cfg, w, kept, state, tokens) == (
            x.layer_rows(cfg, w, kept, state, stacked(tokens), tokens.len()),
            suffix(kept + conv_rows(cfg, stacked(tokens), tokens.len()), kept.len()),
            x.layer_state(cfg, w, kept, state, stacked(tokens), tokens.len()),
        ),
    decreases tokens.len(),
{
    let n = tokens.len();
    let fewer = tokens.drop_last();
    let ssm = tokens.last();
    assert(ssm == tokens[n - 1]);
    if n == 1 {
        assert(fewer =~= Seq::empty());
        assert(stacked(fewer) =~= Seq::<T>::empty());
        assert(stacked(tokens) =~= ssm);
        assert(x.token_by_token(cfg, w, kept, state, fewer) == (Seq::<T>::empty(), kept, state));
        let rows = x.layer_rows(cfg, w, kept, state, ssm, 1);
        assert(Seq::<T>::empty() + rows =~= rows);
    } else {
        assert forall|k: int| 0 <= k < fewer.len() implies (#[trigger] fewer[k]).len()
            == cfg.in_dim() by {
            assert(fewer[k] == tokens[k]);
        }
        law_token_by_token_matches_prefill(x, cfg, w, kept, state, fewer);
        lemma_widths_add((n - 1) as nat, 1, cfg.in_dim() as nat);
        law_layer_in_two_calls(
            x,
            cfg,
            w,
            kept,
            state,
            stacked(fewer),
            ssm,
            (n - 1) as nat,
            1,
        );
    }
}

} // verus!
