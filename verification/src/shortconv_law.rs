//! The channels of the short convolution: each runs by itself, and all run
//! alike.

use crate::history::{kernel_row, window};
use crate::rows::{
    law_columns_cell, lemma_cell_coordinates, lemma_cell_in_rows, lemma_row_bounds, suffix,
};
use crate::scalar::{Number, Relation, ScalarOp, Scalars};
use vstd::prelude::*;

verus! {

/// A call of the short convolution: projected rows, taps, what was kept, and the
/// channels.
pub struct ConvCall<T> {
    pub proj: Seq<T>,
    pub kernel: Seq<T>,
    pub kept: Seq<T>,
    pub channels: nat,
}

impl<T> ConvCall<T> {
    /// Everything has its size.
    pub open spec fn sized(&self, steps: nat, taps: nat) -> bool {
        &&& taps >= 1
        &&& steps * (3 * self.channels) <= self.proj.len()
        &&& self.channels * taps <= self.kernel.len()
        &&& self.kept.len() == (taps - 1) * self.channels
    }

    /// Part `p` of the three of a projected row, at channel `c`.
    pub open spec fn projected(&self, t: int, p: int, c: int) -> T {
        self.proj[t * (3 * self.channels) + p * self.channels + c]
    }
}

/// Channel `c` of one call has what channel `d` of another has: the three parts
/// of its projected rows, its taps, and what was kept of it.
pub open spec fn channels_alike<T>(
    a: ConvCall<T>,
    c: int,
    b: ConvCall<T>,
    d: int,
    steps: nat,
    taps: nat,
) -> bool {
    &&& 0 <= c < a.channels
    &&& 0 <= d < b.channels
    &&& forall|t: int, p: int|
        0 <= t < steps && 0 <= p < 3 ==> #[trigger] a.projected(t, p, c) == b.projected(t, p, d)
    &&& forall|k: int|
        0 <= k < taps ==> #[trigger] a.kernel[c * taps + k] == b.kernel[d * taps + k]
    &&& forall|s: int|
        0 <= s < taps - 1 ==> #[trigger] a.kept[s * a.channels + c] == b.kept[s * b.channels + d]
}

impl<T: Copy, F: Fn(ScalarOp, T, T) -> T, C: Fn(Number) -> T, Z: Fn(Relation, T, T) -> bool> Scalars<T, F, C, Z> {
    pub(crate) proof fn lemma_part(&self, a: ConvCall<T>, steps: nat, taps: nat, t: int, c: int)
        requires
            a.sized(steps, taps),
            0 <= t < steps,
            0 <= c < a.channels,
        ensures
            self.gated_inputs(a.proj, steps, a.channels)[t * a.channels + c] == self.times(
                a.projected(t, 0, c),
                a.projected(t, 2, c),
            ),
            crate::rows::columns(a.proj, steps, 3 * a.channels, a.channels, a.channels)[t
                * a.channels + c] == a.projected(t, 1, c),
    {
        let n = a.channels;
        law_columns_cell(a.proj, steps, 3 * n, 0, n, t, c);
        law_columns_cell(a.proj, steps, 3 * n, n, n, t, c);
        law_columns_cell(a.proj, steps, 3 * n, 2 * n, n, t, c);
        assert(0 * n == 0 && 1 * n == n);
    }

    pub(crate) proof fn lemma_read(&self, a: ConvCall<T>, steps: nat, taps: nat, s: int, c: int)
        requires
            a.sized(steps, taps),
            0 <= s < taps - 1 + steps,
            0 <= c < a.channels,
        ensures
            (a.kept + self.gated_inputs(a.proj, steps, a.channels))[s * a.channels + c] == if s
                < taps - 1 {
                a.kept[s * a.channels + c]
            } else {
                self.times(
                    a.projected(s - (taps - 1), 0, c),
                    a.projected(s - (taps - 1), 2, c),
                )
            },
    {
        let held = taps - 1;
        let n = a.channels as int;
        if s < held {
            lemma_cell_in_rows(s, c, held, n);
        } else {
            let t = s - held;
            assert(s * n == held * n + t * n) by (nonlinear_arith)
                requires
                    s == held + t,
            ;
            lemma_cell_in_rows(t, c, steps as int, n);
            self.lemma_part(a, steps, taps, t, c);
        }
    }
}

/// Channels run by themselves, and all alike: a channel with the projected parts,
/// the taps and the kept inputs of a channel of another call gives what the other
/// gives, and keeps the same, wherever they stand.
pub proof fn law_shortconv_channels_run_alike<
    T: Copy,
    F: Fn(ScalarOp, T, T) -> T,
    C: Fn(Number) -> T,
    Z: Fn(Relation, T, T) -> bool,
>(
    x: &Scalars<T, F, C, Z>,
    a: ConvCall<T>,
    c: int,
    b: ConvCall<T>,
    d: int,
    steps: nat,
    taps: nat,
)
    requires
        a.sized(steps, taps),
        b.sized(steps, taps),
        channels_alike(a, c, b, d, steps, taps),
    ensures
        forall|t: int|
            0 <= t < steps ==> #[trigger] x.shortconv_rows(
                a.proj,
                a.kernel,
                a.kept,
                steps,
                a.channels,
                taps,
            )[t * a.channels + c] == x.shortconv_rows(
                b.proj,
                b.kernel,
                b.kept,
                steps,
                b.channels,
                taps,
            )[t * b.channels + d],
        forall|s: int|
            0 <= s < taps - 1 ==> #[trigger] suffix(
                a.kept + x.gated_inputs(a.proj, steps, a.channels),
                a.kept.len(),
            )[s * a.channels + c] == suffix(
                b.kept + x.gated_inputs(b.proj, steps, b.channels),
                b.kept.len(),
            )[s * b.channels + d],
{
    let (na, nb) = (a.channels as int, b.channels as int);
    let ha = a.kept + x.gated_inputs(a.proj, steps, a.channels);
    let hb = b.kept + x.gated_inputs(b.proj, steps, b.channels);
    assert forall|s: int| 0 <= s < taps - 1 + steps implies #[trigger] ha[s * na + c] == hb[s * nb
        + d] by {
        x.lemma_read(a, steps, taps, s, c);
        x.lemma_read(b, steps, taps, s, d);
        if s < taps - 1 {
            assert(a.kept[s * a.channels + c] == b.kept[s * b.channels + d]);
        } else {
            let t = s - (taps - 1);
            assert(a.projected(t, 0, c) == b.projected(t, 0, d));
            assert(a.projected(t, 2, c) == b.projected(t, 2, d));
        }
    }
    assert forall|t: int| 0 <= t < steps implies #[trigger] x.shortconv_rows(
        a.proj,
        a.kernel,
        a.kept,
        steps,
        a.channels,
        taps,
    )[t * a.channels + c] == x.shortconv_rows(
        b.proj,
        b.kernel,
        b.kept,
        steps,
        b.channels,
        taps,
    )[t * b.channels + d] by {
        lemma_cell_in_rows(t, c, steps as int, na);
        lemma_cell_in_rows(t, d, steps as int, nb);
        lemma_cell_coordinates(t, c, na);
        lemma_cell_coordinates(t, d, nb);
        x.lemma_part(a, steps, taps, t, c);
        x.lemma_part(b, steps, taps, t, d);
        assert(a.projected(t, 1, c) == b.projected(t, 1, d));
        let (ka, kb) = (kernel_row(a.kernel, taps, c), kernel_row(b.kernel, taps, d));
        lemma_row_bounds(c, na, taps as int);
        lemma_row_bounds(d, nb, taps as int);
        assert forall|k: int| 0 <= k < taps implies ka[k] == kb[k] by {
            assert(a.kernel[c * taps + k] == b.kernel[d * taps + k]);
        }
        assert(ka =~= kb);
        let (wa, wb) = (
            window(ha, a.channels, taps, t, c),
            window(hb, b.channels, taps, t, d),
        );
        assert forall|k: int| 0 <= k < taps implies wa[k] == wb[k] by {
            assert(ha[(t + k) * na + c] == hb[(t + k) * nb + d]);
        }
        assert(wa =~= wb);
    }
    assert forall|s: int| 0 <= s < taps - 1 implies #[trigger] suffix(ha, a.kept.len())[s
        * a.channels + c] == suffix(hb, b.kept.len())[s * b.channels + d] by {
        lemma_cell_in_rows(s, c, taps - 1, na);
        lemma_cell_in_rows(s, d, taps - 1, nb);
        let at = s + steps;
        assert(at * na == s * na + steps * na && at * nb == s * nb + steps * nb)
            by (nonlinear_arith)
            requires
                at == s + steps,
        ;
        assert(ha[at * na + c] == hb[at * nb + d]);
    }
}

} // verus!
