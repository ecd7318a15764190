//! The short convolution of an LFM2 layer, run on the host: inputs are gated,
//! convolved over a sliding history, and gated again.

use crate::history::{causal_conv, cell_done, kernel_row, law_conv_in_two_calls, window};
use crate::kernels::shortconv_cell_of;
use crate::lfm2_step::shortconv_parts;
use crate::rows::{
    columns, law_columns_of_stack, lemma_cell_coordinates, lemma_cell_in_rows, lemma_flat_index,
    suffix,
};
use crate::scalar::{fill_row, Number, Relation, ScalarOp, Scalars};
use vstd::prelude::*;

verus! {

impl<T: Copy, F: Fn(ScalarOp, T, T) -> T, C: Fn(Number) -> T, Z: Fn(Relation, T, T) -> bool> Scalars<T, F, C, Z> {
    /// The gated inputs of projected rows: the first part of every row times
    /// its third part.
    pub open spec fn gated_inputs(&self, proj: Seq<T>, steps: nat, h_dim: nat) -> Seq<T> {
        let b = columns(proj, steps, 3 * h_dim, 0, h_dim);
        let v = columns(proj, steps, 3 * h_dim, 2 * h_dim, h_dim);
        Seq::new(steps * h_dim, |p: int| self.times(b[p], v[p]))
    }

    /// What the short convolution makes of projected rows: the window of every
    /// channel, weighed by its taps and scaled by the second part of its row.
    pub open spec fn shortconv_rows(
        &self,
        proj: Seq<T>,
        kernel: Seq<T>,
        kept: Seq<T>,
        steps: nat,
        h_dim: nat,
        taps: nat,
    ) -> Seq<T> {
        let history = kept + self.gated_inputs(proj, steps, h_dim);
        let c = columns(proj, steps, 3 * h_dim, h_dim, h_dim);
        Seq::new(
            steps * h_dim,
            |p: int|
                self.shortconv_of(
                    c[p],
                    kernel_row(kernel, taps, p % h_dim as int),
                    window(history, h_dim, taps, p / h_dim as int, p % h_dim as int),
                ),
        )
    }
}

/// Runs the short convolution on projected rows and slides the kept rows.
pub fn shortconv_host<
    T: Copy,
    F: Fn(ScalarOp, T, T) -> T,
    C: Fn(Number) -> T,
    Z: Fn(Relation, T, T) -> bool,
>(
    x: &Scalars<T, F, C, Z>,
    proj: &[T],
    kernel: &[T],
    steps: usize,
    h_dim: usize,
    taps: usize,
    state: &mut Vec<T>,
) -> (out: Vec<T>)
    requires
        x.wf(),
        taps >= 1,
        3 * h_dim <= usize::MAX,
        steps * (3 * h_dim) <= proj@.len(),
        old(state)@.len() == (taps - 1) * h_dim,
        h_dim * taps <= kernel@.len(),
        old(state)@.len() + steps * h_dim <= usize::MAX,
    ensures
        out@ == x.shortconv_rows(
            proj@,
            kernel@,
            old(state)@,
            steps as nat,
            h_dim as nat,
            taps as nat,
        ),
        final(state)@ == suffix(
            old(state)@ + x.gated_inputs(proj@, steps as nat, h_dim as nat),
            ((taps - 1) * h_dim) as nat,
        ),
{
    let ghost kept = state@;
    proof {
        assert(0 <= steps * h_dim) by (nonlinear_arith);
    }
    let parts = shortconv_parts(proj, steps, h_dim);
    let n: usize = steps * h_dim;
    let ghost cell = |p: int| x.times(parts.b@[p], parts.x@[p]);
    let bx = fill_row(
        n,
        |p: usize| -> (o: T)
            requires
                p < n,
            ensures
                o == cell(p as int)
            { x.times(parts.b[p], parts.x[p]) },
        Ghost(cell),
    );
    assert(bx@ =~= x.gated_inputs(proj@, steps as nat, h_dim as nat));
    let gates = &parts.c;
    let conv = |step: usize, d: usize, a: Vec<T>, b: Vec<T>| -> (r: T)
        requires
            step < steps,
            d < h_dim,
            a@.len() == taps,
            b@.len() == taps,
        ensures
            r == x.shortconv_of(gates@[step * h_dim + d], a@, b@)
        {
            proof {
                lemma_cell_in_rows(step as int, d as int, steps as int, h_dim as int);
            }
            shortconv_cell_of(x, gates[step * h_dim + d], a.as_slice(), b.as_slice())
        };
    let out = causal_conv(bx.as_slice(), kernel, steps, h_dim, taps, state, conv);
    proof {
        let width = h_dim as int;
        let want = x.shortconv_rows(
            proj@,
            kernel@,
            kept,
            steps as nat,
            h_dim as nat,
            taps as nat,
        );
        assert forall|p: int| 0 <= p < out@.len() implies out@[p] == want[p] by {
            lemma_flat_index(p, steps as int, width);
            let t = p / width;
            let d = p % width;
            vstd::arithmetic::div_mod::lemma_fundamental_div_mod(p, width);
            assert(p == t * width + d) by (nonlinear_arith)
                requires
                    p == width * t + d,
            ;
            assert(cell_done(
                conv,
                kept + bx@,
                kernel@,
                h_dim as nat,
                taps as nat,
                out@,
                t,
                d,
            ));
        }
        assert(out@ =~= want);
    }
    out
}

/// Decoding matches prefill: convolving a stretch of tokens in two calls gives
/// the rows of one call and keeps the same inputs.
pub proof fn law_shortconv_in_two_calls<
    T: Copy,
    F: Fn(ScalarOp, T, T) -> T,
    C: Fn(Number) -> T,
    Z: Fn(Relation, T, T) -> bool,
>(
    x: &Scalars<T, F, C, Z>,
    proj: Seq<T>,
    more_proj: Seq<T>,
    kernel: Seq<T>,
    kept: Seq<T>,
    steps: nat,
    more: nat,
    h_dim: nat,
    taps: nat,
)
    requires
        taps >= 1,
        kept.len() == (taps - 1) * h_dim,
        proj.len() == steps * (3 * h_dim),
        more_proj.len() == more * (3 * h_dim),
    ensures
        ({
            let slid = suffix(kept + x.gated_inputs(proj, steps, h_dim), kept.len());
            &&& x.shortconv_rows(proj + more_proj, kernel, kept, steps + more, h_dim, taps)
                == x.shortconv_rows(proj, kernel, kept, steps, h_dim, taps) + x.shortconv_rows(
                more_proj,
                kernel,
                slid,
                more,
                h_dim,
                taps,
            )
            &&& suffix(
                kept + x.gated_inputs(proj + more_proj, steps + more, h_dim),
                kept.len(),
            ) == suffix(slid + x.gated_inputs(more_proj, more, h_dim), kept.len())
        }),
{
    let width = h_dim as int;
    law_columns_of_stack(proj, more_proj, steps, more, 3 * h_dim, 0, h_dim);
    law_columns_of_stack(proj, more_proj, steps, more, 3 * h_dim, h_dim, h_dim);
    law_columns_of_stack(proj, more_proj, steps, more, 3 * h_dim, 2 * h_dim, h_dim);
    assert((steps + more) * width == steps * width + more * width) by (nonlinear_arith);
    let a = x.gated_inputs(proj, steps, h_dim);
    let b = x.gated_inputs(more_proj, more, h_dim);
    assert(x.gated_inputs(proj + more_proj, steps + more, h_dim) =~= a + b);
    let slid = suffix(kept + a, kept.len());
    let all = x.shortconv_rows(proj + more_proj, kernel, kept, steps + more, h_dim, taps);
    let first = x.shortconv_rows(proj, kernel, kept, steps, h_dim, taps);
    let second = x.shortconv_rows(more_proj, kernel, slid, more, h_dim, taps);
    assert forall|p: int| 0 <= p < all.len() implies all[p] == (first + second)[p] by {
        lemma_flat_index(p, (steps + more) as int, width);
        let t = p / width;
        let d = p % width;
        vstd::arithmetic::div_mod::lemma_fundamental_div_mod(p, width);
        assert(p == t * width + d) by (nonlinear_arith)
            requires
                p == width * t + d,
        ;
        if t < steps {
            lemma_cell_in_rows(t, d, steps as int, width);
            let one = window(kept + (a + b), h_dim, taps, t, d);
            let two = window(kept + a, h_dim, taps, t, d);
            assert forall|k: int| 0 <= k < taps implies one[k] == two[k] by {
                assert(0 <= (t + k) * width && (t + k) * width + d < kept.len() + a.len())
                    by (nonlinear_arith)
                    requires
                        0 <= t < steps,
                        0 <= k < taps,
                        0 <= d < width,
                        kept.len() == (taps - 1) * width,
                        a.len() == steps * width,
                ;
            }
            assert(one =~= two);
        } else {
            lemma_cell_in_rows(t - steps, d, more as int, width);
            assert(p == steps * width + ((t - steps) * width + d)) by (nonlinear_arith)
                requires
                    p == t * width + d,
            ;
            lemma_cell_coordinates(t - steps, d, width);
            law_conv_in_two_calls(kept, a, b, h_dim, taps, steps, more, t - steps, d);
        }
    }
    assert(all =~= first + second);
    assert(suffix(kept + (a + b), kept.len()) =~= suffix(slid + b, kept.len()));
}

} // verus!
