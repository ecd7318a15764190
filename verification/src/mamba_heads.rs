//! The channels and heads of the state-space part: each runs by itself, and all
//! run alike.

use crate::falcon_h1::{conv_rows, lemma_scan_shape, rate_rows, FalconH1Config};
use crate::mamba::FalconH1Block;
use crate::rows::{law_columns_cell, lemma_cell_coordinates, lemma_cell_in_rows, lemma_row_bounds};
use crate::scalar::{Number, Relation, ScalarOp, Scalars};
use vstd::prelude::*;

verus! {

/// A call of the state-space part: a layer and its weights, what it kept, its
/// cells, and the projected rows of the call.
pub struct SsmInputs<T> {
    pub cfg: FalconH1Config,
    pub w: FalconH1Block<T>,
    pub kept: Seq<T>,
    pub state: Seq<T>,
    pub ssm: Seq<T>,
}

impl<T> SsmInputs<T> {
    /// Everything has its size.
    pub open spec fn sized(&self, tokens: nat) -> bool {
        &&& self.cfg.scans()
        &&& self.w.wf(&self.cfg)
        &&& self.kept.len() == (self.cfg.ssm_d_conv - 1) * self.cfg.conv_dim()
        &&& self.state.len() == self.cfg.ssm_d_inner * self.cfg.ssm_d_state
        &&& self.ssm.len() == tokens * self.cfg.in_dim()
    }

    /// Column `c` of the projected row of token `t`.
    pub open spec fn projected(&self, t: int, c: int) -> T {
        self.ssm[t * self.cfg.in_dim() + c]
    }
}

/// Convolved channel `c` of one call has the inputs, kept and new, the taps and
/// the bias of channel `d` of another.
pub open spec fn conv_channels_alike<T>(
    a: SsmInputs<T>,
    c: int,
    b: SsmInputs<T>,
    d: int,
    tokens: nat,
) -> bool {
    let taps = a.cfg.ssm_d_conv;
    &&& b.cfg.ssm_d_conv == taps
    &&& 0 <= c < a.cfg.conv_dim()
    &&& 0 <= d < b.cfg.conv_dim()
    &&& a.w.ssm_conv_b@[c] == b.w.ssm_conv_b@[d]
    &&& forall|k: int|
        0 <= k < taps ==> #[trigger] a.w.ssm_conv_w@[c * taps + k] == b.w.ssm_conv_w@[d * taps + k]
    &&& forall|s: int|
        0 <= s < taps - 1 ==> #[trigger] a.kept[s * a.cfg.conv_dim() + c] == b.kept[s
            * b.cfg.conv_dim() + d]
    &&& forall|t: int|
        0 <= t < tokens ==> #[trigger] a.projected(t, a.cfg.ssm_d_inner + c) == b.projected(
            t,
            b.cfg.ssm_d_inner + d,
        )
}

/// Head `h` of one call has the rates, the rate bias, the decay and the passage
/// of head `g` of another.
pub open spec fn heads_alike<T>(
    a: SsmInputs<T>,
    h: int,
    b: SsmInputs<T>,
    g: int,
    tokens: nat,
) -> bool {
    &&& 0 <= h < a.cfg.ssm_dt_rank
    &&& 0 <= g < b.cfg.ssm_dt_rank
    &&& a.w.ssm_a@[h] == b.w.ssm_a@[g]
    &&& a.w.ssm_d@[h] == b.w.ssm_d@[g]
    &&& a.w.ssm_dt_b@[h] == b.w.ssm_dt_b@[g]
    &&& forall|t: int|
        0 <= t < tokens ==> #[trigger] a.projected(
            t,
            a.cfg.ssm_d_inner + a.cfg.conv_dim() + h,
        ) == b.projected(t, b.cfg.ssm_d_inner + b.cfg.conv_dim() + g)
}

/// Channel `i` of one call, of head `h`, has all that channel `j` of another, of
/// head `g`, has: its inputs and what gates it, its cells, what opens and what
/// reads the cells, and its head's rates and weights.
pub open spec fn channels_alike<T>(
    a: SsmInputs<T>,
    h: int,
    i: int,
    b: SsmInputs<T>,
    g: int,
    j: int,
    tokens: nat,
) -> bool {
    let (da, db) = (a.cfg.scan_shape().head_dim as int, b.cfg.scan_shape().head_dim as int);
    let cells = a.cfg.ssm_d_state as int;
    &&& heads_alike(a, h, b, g, tokens)
    &&& b.cfg.ssm_d_state == cells
    &&& h * da <= i < h * da + da
    &&& g * db <= j < g * db + db
    &&& conv_channels_alike(a, i, b, j, tokens)
    &&& forall|k: int|
        0 <= k < 2 * cells ==> #[trigger] conv_channels_alike(
            a,
            a.cfg.ssm_d_inner + k,
            b,
            b.cfg.ssm_d_inner + k,
            tokens,
        )
    &&& forall|k: int| 0 <= k < cells ==> #[trigger] a.state[i * cells + k] == b.state[j * cells + k]
    &&& forall|t: int| 0 <= t < tokens ==> #[trigger] a.projected(t, i) == b.projected(t, j)
}

/// The rows that a convolution reads: what was kept, then the call's.
pub open spec fn convolved_history<T>(a: SsmInputs<T>, tokens: nat) -> Seq<T> {
    a.kept + conv_rows(&a.cfg, a.ssm, tokens)
}

proof fn lemma_history_cell<T>(a: SsmInputs<T>, tokens: nat, s: int, c: int)
    requires
        a.sized(tokens),
        0 <= c < a.cfg.conv_dim(),
        0 <= s < a.cfg.ssm_d_conv - 1 + tokens,
    ensures
        convolved_history(a, tokens)[s * a.cfg.conv_dim() + c] == if s < a.cfg.ssm_d_conv - 1 {
            a.kept[s * a.cfg.conv_dim() + c]
        } else {
            a.projected(s - (a.cfg.ssm_d_conv - 1), a.cfg.ssm_d_inner + c)
        },
{
    lemma_scan_shape(&a.cfg);
    let width = a.cfg.conv_dim();
    let held = a.cfg.ssm_d_conv - 1;
    if s < held {
        lemma_cell_in_rows(s, c, held, width);
    } else {
        let t = s - held;
        assert(s * width == held * width + t * width) by (nonlinear_arith)
            requires
                s == held + t,
        ;
        law_columns_cell(
            a.ssm,
            tokens,
            a.cfg.in_dim() as nat,
            a.cfg.ssm_d_inner as nat,
            width as nat,
            t,
            c,
        );
    }
}

/// The convolution runs every channel by itself, and all alike: a channel with
/// the inputs, the taps and the bias of another gives what the other gives,
/// wherever they stand and whatever the others hold.
pub proof fn law_conv_channels_run_alike<
    T: Copy,
    F: Fn(ScalarOp, T, T) -> T,
    C: Fn(Number) -> T,
    Z: Fn(Relation, T, T) -> bool,
>(x: &Scalars<T, F, C, Z>, a: SsmInputs<T>, c: int, b: SsmInputs<T>, d: int, tokens: nat, t: int)
    requires
        a.sized(tokens),
        b.sized(tokens),
        0 <= t < tokens,
        conv_channels_alike(a, c, b, d, tokens),
    ensures
        x.convolved_rows(&a.cfg, &a.w, convolved_history(a, tokens), tokens)[t * a.cfg.conv_dim()
            + c] == x.convolved_rows(&b.cfg, &b.w, convolved_history(b, tokens), tokens)[t
            * b.cfg.conv_dim() + d],
{
    lemma_scan_shape(&a.cfg);
    lemma_scan_shape(&b.cfg);
    let (wa, wb) = (a.cfg.conv_dim(), b.cfg.conv_dim());
    let taps = a.cfg.ssm_d_conv as nat;
    lemma_cell_in_rows(t, c, tokens as int, wa);
    lemma_cell_in_rows(t, d, tokens as int, wb);
    lemma_cell_coordinates(t, c, wa);
    lemma_cell_coordinates(t, d, wb);
    let (ha, hb) = (convolved_history(a, tokens), convolved_history(b, tokens));
    let ka = crate::history::kernel_row(a.w.ssm_conv_w@, taps, c);
    let kb = crate::history::kernel_row(b.w.ssm_conv_w@, taps, d);
    lemma_row_bounds(c, wa, taps as int);
    lemma_row_bounds(d, wb, taps as int);
    assert forall|k: int| 0 <= k < taps implies ka[k] == kb[k] by {
        assert(a.w.ssm_conv_w@[c * taps + k] == b.w.ssm_conv_w@[d * taps + k]);
    }
    assert(ka =~= kb);
    let na = crate::history::window(ha, wa as nat, taps, t, c);
    let nb = crate::history::window(hb, wb as nat, taps, t, d);
    assert forall|k: int| 0 <= k < taps implies na[k] == nb[k] by {
        lemma_history_cell(a, tokens, t + k, c);
        lemma_history_cell(b, tokens, t + k, d);
        if t + k < taps - 1 {
            assert(a.kept[(t + k) * a.cfg.conv_dim() + c] == b.kept[(t + k) * b.cfg.conv_dim()
                + d]);
        } else {
            let u = t + k - (taps - 1);
            assert(a.projected(u, a.cfg.ssm_d_inner + c) == b.projected(
                u,
                b.cfg.ssm_d_inner + d,
            ));
        }
    }
    assert(na =~= nb);
}

proof fn lemma_rate<T>(a: SsmInputs<T>, tokens: nat, t: int, h: int)
    requires
        a.sized(tokens),
        0 <= t < tokens,
        0 <= h < a.cfg.ssm_dt_rank,
    ensures
        rate_rows(&a.cfg, a.ssm, tokens)[t * a.cfg.ssm_dt_rank + h] == a.projected(
            t,
            a.cfg.ssm_d_inner + a.cfg.conv_dim() + h,
        ),
{
    lemma_scan_shape(&a.cfg);
    law_columns_cell(
        a.ssm,
        tokens,
        a.cfg.in_dim() as nat,
        (a.cfg.ssm_d_inner + a.cfg.conv_dim()) as nat,
        a.cfg.ssm_dt_rank as nat,
        t,
        h,
    );
}

/// A channel belongs to its head.
proof fn lemma_head_of_channel(h: int, dim: int, i: int)
    requires
        h * dim <= i < h * dim + dim,
    ensures
        i / dim == h,
{
    lemma_cell_coordinates(h, i - h * dim, dim);
}

impl<T: Copy, F: Fn(ScalarOp, T, T) -> T, C: Fn(Number) -> T, Z: Fn(Relation, T, T) -> bool> Scalars<T, F, C, Z> {
    /// The convolved rows of a call.
    pub open spec fn convolved_of(&self, a: SsmInputs<T>, tokens: nat) -> Seq<T> {
        self.convolved_rows(&a.cfg, &a.w, convolved_history(a, tokens), tokens)
    }

    proof fn lemma_cells_alike(
        &self,
        a: SsmInputs<T>,
        h: int,
        i: int,
        b: SsmInputs<T>,
        g: int,
        j: int,
        tokens: nat,
        n: nat,
    )
        requires
            a.sized(tokens),
            b.sized(tokens),
            n <= tokens,
            channels_alike(a, h, i, b, g, j, tokens),
        ensures
            self.channel_cells(
                &a.cfg.scan_shape(),
                &a.w,
                self.convolved_of(a, tokens),
                rate_rows(&a.cfg, a.ssm, tokens),
                a.state,
                i,
                n,
            ) == self.channel_cells(
                &b.cfg.scan_shape(),
                &b.w,
                self.convolved_of(b, tokens),
                rate_rows(&b.cfg, b.ssm, tokens),
                b.state,
                j,
                n,
            ),
            0 <= i < a.cfg.scan_shape().used(),
            0 <= j < b.cfg.scan_shape().used(),
        decreases n,
    {
        lemma_scan_shape(&a.cfg);
        lemma_scan_shape(&b.cfg);
        let (sa, sb) = (a.cfg.scan_shape(), b.cfg.scan_shape());
        let (da, db) = (sa.head_dim as int, sb.head_dim as int);
        let cells = sa.state as int;
        lemma_row_bounds(h, sa.heads as int, da);
        lemma_row_bounds(g, sb.heads as int, db);
        lemma_row_bounds(i, sa.inner as int, cells);
        lemma_row_bounds(j, sb.inner as int, cells);
        if n == 0 {
            let ca = a.state.subrange(i * cells, i * cells + cells);
            let cb = b.state.subrange(j * cells, j * cells + cells);
            assert forall|k: int| 0 <= k < cells implies ca[k] == cb[k] by {
                assert(a.state[i * cells + k] == b.state[j * cells + k]);
            }
            assert(ca =~= cb);
        } else {
            let t = n - 1;
            self.lemma_cells_alike(a, h, i, b, g, j, tokens, t as nat);
            self.lemma_step_alike(a, h, i, b, g, j, tokens, t);
            self.lemma_rows_alike(a, h, i, b, g, j, tokens, t);
        }
    }

    proof fn lemma_step_alike(
        &self,
        a: SsmInputs<T>,
        h: int,
        i: int,
        b: SsmInputs<T>,
        g: int,
        j: int,
        tokens: nat,
        t: int,
    )
        requires
            a.sized(tokens),
            b.sized(tokens),
            0 <= t < tokens,
            channels_alike(a, h, i, b, g, j, tokens),
        ensures
            self.channel_step(
                &a.cfg.scan_shape(),
                &a.w,
                rate_rows(&a.cfg, a.ssm, tokens),
                i,
                t,
            ) == self.channel_step(
                &b.cfg.scan_shape(),
                &b.w,
                rate_rows(&b.cfg, b.ssm, tokens),
                j,
                t,
            ),
            i / a.cfg.scan_shape().head_dim as int == h,
            j / b.cfg.scan_shape().head_dim as int == g,
    {
        lemma_head_of_channel(h, a.cfg.scan_shape().head_dim as int, i);
        lemma_head_of_channel(g, b.cfg.scan_shape().head_dim as int, j);
        lemma_rate(a, tokens, t, h);
        lemma_rate(b, tokens, t, g);
        assert(a.projected(t, a.cfg.ssm_d_inner + a.cfg.conv_dim() + h) == b.projected(
            t,
            b.cfg.ssm_d_inner + b.cfg.conv_dim() + g,
        ));
    }

    proof fn lemma_rows_alike(
        &self,
        a: SsmInputs<T>,
        h: int,
        i: int,
        b: SsmInputs<T>,
        g: int,
        j: int,
        tokens: nat,
        t: int,
    )
        requires
            a.sized(tokens),
            b.sized(tokens),
            0 <= t < tokens,
            channels_alike(a, h, i, b, g, j, tokens),
        ensures
            ({
                let (sa, sb) = (a.cfg.scan_shape(), b.cfg.scan_shape());
                let (ra, rb) = (self.convolved_of(a, tokens), self.convolved_of(b, tokens));
                let (pa, pb) = (t * sa.width, t * sb.width);
                &&& ra[pa + i] == rb[pb + j]
                &&& ra.subrange(pa + sa.inner, pa + sa.inner + sa.state) == rb.subrange(
                    pb + sb.inner,
                    pb + sb.inner + sb.state,
                )
                &&& ra.subrange(
                    pa + sa.inner + sa.state,
                    pa + sa.inner + 2 * sa.state,
                ) == rb.subrange(pb + sb.inner + sb.state, pb + sb.inner + 2 * sb.state)
            }),
    {
        lemma_scan_shape(&a.cfg);
        lemma_scan_shape(&b.cfg);
        let (sa, sb) = (a.cfg.scan_shape(), b.cfg.scan_shape());
        let (ra, rb) = (self.convolved_of(a, tokens), self.convolved_of(b, tokens));
        let (pa, pb) = (t * sa.width, t * sb.width);
        let cells = sa.state as int;
        lemma_row_bounds(t, tokens as int, sa.width as int);
        lemma_row_bounds(t, tokens as int, sb.width as int);
        law_conv_channels_run_alike(self, a, i, b, j, tokens, t);
        assert forall|k: int| 0 <= k < 2 * cells implies #[trigger] ra[pa + sa.inner + k] == rb[pb
            + sb.inner + k] by {
            assert(conv_channels_alike(
                a,
                a.cfg.ssm_d_inner + k,
                b,
                b.cfg.ssm_d_inner + k,
                tokens,
            ));
            law_conv_channels_run_alike(
                self,
                a,
                a.cfg.ssm_d_inner + k,
                b,
                b.cfg.ssm_d_inner + k,
                tokens,
                t,
            );
        }
        let opens = ra.subrange(pa + sa.inner, pa + sa.inner + sa.state);
        let opens2 = rb.subrange(pb + sb.inner, pb + sb.inner + sb.state);
        assert forall|k: int| 0 <= k < cells implies opens[k] == opens2[k] by {
            assert(ra[pa + sa.inner + k] == rb[pb + sb.inner + k]);
        }
        assert(opens =~= opens2);
        let reads = ra.subrange(pa + sa.inner + sa.state, pa + sa.inner + 2 * sa.state);
        let reads2 = rb.subrange(pb + sb.inner + sb.state, pb + sb.inner + 2 * sb.state);
        assert forall|k: int| 0 <= k < cells implies reads[k] == reads2[k] by {
            assert(ra[pa + sa.inner + (cells + k)] == rb[pb + sb.inner + (cells + k)]);
        }
        assert(reads =~= reads2);
    }
}

/// Heads run by themselves, and all alike: a channel whose own inputs, cells and
/// weights, and whose head's rates and weights, are those of a channel of another
/// call, at another place among other heads, gives the rows that the other gives,
/// and is left with the same cells. What the other heads hold does not matter.
pub proof fn law_ssm_heads_run_alike<
    T: Copy,
    F: Fn(ScalarOp, T, T) -> T,
    C: Fn(Number) -> T,
    Z: Fn(Relation, T, T) -> bool,
>(
    x: &Scalars<T, F, C, Z>,
    a: SsmInputs<T>,
    h: int,
    i: int,
    b: SsmInputs<T>,
    g: int,
    j: int,
    tokens: nat,
)
    requires
        a.sized(tokens),
        b.sized(tokens),
        channels_alike(a, h, i, b, g, j, tokens),
    ensures
        forall|t: int|
            0 <= t < tokens ==> x.layer_rows(&a.cfg, &a.w, a.kept, a.state, a.ssm, tokens)[t
                * a.cfg.ssm_d_inner + i] == #[trigger] x.layer_rows(
                &b.cfg,
                &b.w,
                b.kept,
                b.state,
                b.ssm,
                tokens,
            )[t * b.cfg.ssm_d_inner + j],
        forall|k: int|
            0 <= k < a.cfg.ssm_d_state ==> x.layer_state(
                &a.cfg,
                &a.w,
                a.kept,
                a.state,
                a.ssm,
                tokens,
            )[i * a.cfg.ssm_d_state + k] == #[trigger] x.layer_state(
                &b.cfg,
                &b.w,
                b.kept,
                b.state,
                b.ssm,
                tokens,
            )[j * b.cfg.ssm_d_state + k],
{
    lemma_scan_shape(&a.cfg);
    lemma_scan_shape(&b.cfg);
    let (sa, sb) = (a.cfg.scan_shape(), b.cfg.scan_shape());
    let cells = sa.state as int;
    x.lemma_cells_alike(a, h, i, b, g, j, tokens, tokens);
    assert forall|t: int| 0 <= t < tokens implies x.layer_rows(
        &a.cfg,
        &a.w,
        a.kept,
        a.state,
        a.ssm,
        tokens,
    )[t * a.cfg.ssm_d_inner + i] == #[trigger] x.layer_rows(
        &b.cfg,
        &b.w,
        b.kept,
        b.state,
        b.ssm,
        tokens,
    )[t * b.cfg.ssm_d_inner + j] by {
        x.lemma_cells_alike(a, h, i, b, g, j, tokens, (t + 1) as nat);
        x.lemma_step_alike(a, h, i, b, g, j, tokens, t);
        x.lemma_rows_alike(a, h, i, b, g, j, tokens, t);
        lemma_cell_in_rows(t, i, tokens as int, sa.inner as int);
        lemma_cell_in_rows(t, j, tokens as int, sb.inner as int);
        lemma_cell_coordinates(t, i, sa.inner as int);
        lemma_cell_coordinates(t, j, sb.inner as int);
        law_columns_cell(
            a.ssm,
            tokens,
            a.cfg.in_dim() as nat,
            0,
            a.cfg.ssm_d_inner as nat,
            t,
            i,
        );
        law_columns_cell(
            b.ssm,
            tokens,
            b.cfg.in_dim() as nat,
            0,
            b.cfg.ssm_d_inner as nat,
            t,
            j,
        );
        assert(a.projected(t, i) == b.projected(t, j));
    }
    assert forall|k: int| 0 <= k < a.cfg.ssm_d_state implies x.layer_state(
        &a.cfg,
        &a.w,
        a.kept,
        a.state,
        a.ssm,
        tokens,
    )[i * a.cfg.ssm_d_state + k] == #[trigger] x.layer_state(
        &b.cfg,
        &b.w,
        b.kept,
        b.state,
        b.ssm,
        tokens,
    )[j * b.cfg.ssm_d_state + k] by {
        lemma_cell_in_rows(i, k, sa.inner as int, cells);
        lemma_cell_in_rows(j, k, sb.inner as int, cells);
        lemma_cell_coordinates(i, k, cells);
        lemma_cell_coordinates(j, k, cells);
    }
}

/// The step size that the device is handed for a head is that head's own: it is
/// that of a head of another call with the same rate and the same rate bias, and
/// the host steps every channel of the head by it.
pub proof fn law_device_steps_are_the_heads_own<
    T: Copy,
    F: Fn(ScalarOp, T, T) -> T,
    C: Fn(Number) -> T,
    Z: Fn(Relation, T, T) -> bool,
>(x: &Scalars<T, F, C, Z>, a: SsmInputs<T>, h: int, b: SsmInputs<T>, g: int, i: int)
    requires
        a.sized(1),
        b.sized(1),
        heads_alike(a, h, b, g, 1),
        h * a.cfg.scan_shape().head_dim <= i < h * a.cfg.scan_shape().head_dim
            + a.cfg.scan_shape().head_dim,
    ensures
        x.step_sizes(&a.cfg, &a.w, a.ssm)[h] == x.step_sizes(&b.cfg, &b.w, b.ssm)[g],
        x.step_sizes(&a.cfg, &a.w, a.ssm)[h] == x.channel_step(
            &a.cfg.scan_shape(),
            &a.w,
            rate_rows(&a.cfg, a.ssm, 1),
            i,
            0,
        ),
{
    lemma_rate(a, 1, 0, h);
    lemma_rate(b, 1, 0, g);
    lemma_head_of_channel(h, a.cfg.scan_shape().head_dim as int, i);
    assert(a.projected(0, a.cfg.ssm_d_inner + a.cfg.conv_dim() + h) == b.projected(
        0,
        b.cfg.ssm_d_inner + b.cfg.conv_dim() + g,
    ));
    assert(0 * a.cfg.ssm_dt_rank + h == h);
    assert(0 * b.cfg.ssm_dt_rank + g == g);
}

} // verus!
