//! Causal convolution over a sliding history.
//!
//! A convolution of `taps` taps keeps the last `taps - 1` input rows. The rows
//! kept from earlier calls followed by the rows of this call form the history
//! that a call convolves; each step sees its own row and the `taps - 1` rows
//! before it.

use crate::rows::{append_all, copy_range, lemma_cell_in_rows, suffix, take_strided};
use vstd::prelude::*;

verus! {

/// The inputs that step `step` of channel `d` sees, oldest first.
pub open spec fn window<T>(history: Seq<T>, width: nat, taps: nat, step: int, d: int) -> Seq<T> {
    Seq::new(taps, |k: int| history[(step + k) * width + d])
}

/// The kernel taps of channel `d`.
pub open spec fn kernel_row<T>(kernel: Seq<T>, taps: nat, d: int) -> Seq<T> {
    kernel.subrange(d * taps, d * taps + taps)
}

/// `conv` was handed the taps of channel `d` and the window of `step`, and
/// gave `cell`.
pub open spec fn convolved<T, F: Fn(usize, usize, Vec<T>, Vec<T>) -> T>(
    conv: F,
    step: int,
    d: int,
    taps: Seq<T>,
    inputs: Seq<T>,
    cell: T,
) -> bool {
    exists|a: Vec<T>, b: Vec<T>|
        a@ == taps && b@ == inputs && #[trigger] call_ensures(
            conv,
            (step as usize, d as usize, a, b),
            cell,
        )
}

/// Cell `(step, d)` of `out` is the convolution of its window.
pub open spec fn cell_done<T, F: Fn(usize, usize, Vec<T>, Vec<T>) -> T>(
    conv: F,
    history: Seq<T>,
    kernel: Seq<T>,
    width: nat,
    taps: nat,
    out: Seq<T>,
    step: int,
    d: int,
) -> bool {
    convolved(
        conv,
        step,
        d,
        kernel_row(kernel, taps, d),
        window(history, width, taps, step, d),
        out[step * width + d],
    )
}

proof fn lemma_window_in_history(step: int, d: int, steps: int, width: int, taps: int)
    requires
        0 <= step < steps,
        0 <= d < width,
        1 <= taps,
    ensures
        0 <= step * width,
        0 <= (taps - 1) * width,
        (taps - 1) * width + step * width + d + 1 <= (taps - 1) * width + steps * width,
        0 <= d * taps,
        d * taps + taps <= width * taps,
{
    lemma_cell_in_rows(step, d, steps, width);
    assert(0 <= (taps - 1) * width) by (nonlinear_arith)
        requires
            1 <= taps,
            0 <= d < width,
    ;
    assert(0 <= d * taps && d * taps + taps <= width * taps) by (nonlinear_arith)
        requires
            0 <= d < width,
            1 <= taps,
    ;
}

/// Convolves `steps` rows of `width` channels and slides the kept rows.
///
/// `conv` weighs one window by the taps of its channel.
pub fn causal_conv<T: Copy, F: Fn(usize, usize, Vec<T>, Vec<T>) -> T>(
    input: &[T],
    kernel: &[T],
    steps: usize,
    width: usize,
    taps: usize,
    state: &mut Vec<T>,
    conv: F,
) -> (out: Vec<T>)
    requires
        taps >= 1,
        old(state)@.len() == (taps - 1) * width,
        input@.len() == steps * width,
        width * taps <= kernel@.len(),
        old(state)@.len() + input@.len() <= usize::MAX,
        forall|step: usize, d: usize, a: Vec<T>, b: Vec<T>|
            step < steps && d < width && a@.len() == taps && b@.len() == taps
                ==> #[trigger] call_requires(conv, (step, d, a, b)),
    ensures
        out@.len() == steps * width,
        forall|step: int, d: int|
            0 <= step < steps && 0 <= d < width ==> #[trigger] cell_done(
                conv,
                old(state)@ + input@,
                kernel@,
                width as nat,
                taps as nat,
                out@,
                step,
                d,
            ),
        final(state)@ == suffix(old(state)@ + input@, ((taps - 1) * width) as nat),
{
    let kernel_len: usize = kernel.len();
    let input_len: usize = input.len();
    let state_len: usize = state.len();
    let mut history: Vec<T> = copy_range(state.as_slice(), 0, state_len);
    append_all(&mut history, input);
    proof {
        assert(history@ =~= old(state)@ + input@);
    }
    let mut out: Vec<T> = Vec::new();
    let mut step: usize = 0;
    while step < steps
        invariant
            step <= steps,
            taps >= 1,
            kernel_len == kernel@.len(),
            input_len == steps * width,
            state_len == (taps - 1) * width,
            history@.len() == state_len + input_len,
            state_len + input_len <= usize::MAX,
            width * taps <= kernel_len,
            forall|step: usize, d: usize, a: Vec<T>, b: Vec<T>|
                step < steps && d < width && a@.len() == taps && b@.len() == taps
                    ==> #[trigger] call_requires(conv, (step, d, a, b)),
            out@.len() == step * width,
            forall|s2: int, d2: int|
                0 <= s2 < step && 0 <= d2 < width ==> #[trigger] cell_done(
                    conv,
                    history@,
                    kernel@,
                    width as nat,
                    taps as nat,
                    out@,
                    s2,
                    d2,
                ),
        decreases steps - step,
    {
        let mut d: usize = 0;
        while d < width
            invariant
                step < steps,
                d <= width,
                taps >= 1,
                kernel_len == kernel@.len(),
                input_len == steps * width,
                state_len == (taps - 1) * width,
                history@.len() == state_len + input_len,
                state_len + input_len <= usize::MAX,
                width * taps <= kernel_len,
                forall|step: usize, d: usize, a: Vec<T>, b: Vec<T>|
                    step < steps && d < width && a@.len() == taps && b@.len() == taps
                        ==> #[trigger] call_requires(conv, (step, d, a, b)),
                out@.len() == step * width + d,
                forall|s2: int, d2: int|
                    0 <= d2 < width && (0 <= s2 < step || (s2 == step && d2 < d))
                        ==> #[trigger] cell_done(
                        conv,
                        history@,
                        kernel@,
                        width as nat,
                        taps as nat,
                        out@,
                        s2,
                        d2,
                    ),
            decreases width - d,
        {
            proof {
                lemma_window_in_history(
                    step as int,
                    d as int,
                    steps as int,
                    width as int,
                    taps as int,
                );
                assert(taps * 1 <= width * taps) by (nonlinear_arith)
                    requires
                        1 <= width,
                        1 <= taps,
                ;
            }
            let row = copy_range(kernel, d * taps, taps);
            let inputs = take_strided(history.as_slice(), taps, width, step * width + d, 1);
            proof {
                assert(inputs@ =~= window(
                    history@,
                    width as nat,
                    taps as nat,
                    step as int,
                    d as int,
                )) by {
                    assert forall|k: int| 0 <= k < taps implies inputs@[k] == history@[(step + k)
                        * width + d] by {
                        assert((step + k) * width == k * width + step * width)
                            by (nonlinear_arith);
                        assert(k / 1 == k && k % 1 == 0);
                    }
                }
                assert(row@ == kernel_row(kernel@, taps as nat, d as int));
            }
            let ghost before = out@;
            let ghost args = (step, d, row, inputs);
            let cell = conv(step, d, row, inputs);
            out.push(cell);
            proof {
                assert(call_ensures(conv, args, cell));
                assert(((step as int) as usize, (d as int) as usize, row, inputs) == args);
                assert(convolved(conv, step as int, d as int, row@, inputs@, cell));
                assert forall|s2: int, d2: int|
                    0 <= d2 < width && (0 <= s2 < step || (s2 == step && d2 < d + 1))
                        implies #[trigger] cell_done(
                    conv,
                    history@,
                    kernel@,
                    width as nat,
                    taps as nat,
                    out@,
                    s2,
                    d2,
                ) by {
                    if s2 < step {
                        assert(cell_done(
                            conv,
                            history@,
                            kernel@,
                            width as nat,
                            taps as nat,
                            before,
                            s2,
                            d2,
                        ));
                        lemma_cell_in_rows(s2, d2, step as int, width as int);
                    } else if d2 < d {
                        assert(cell_done(
                            conv,
                            history@,
                            kernel@,
                            width as nat,
                            taps as nat,
                            before,
                            s2,
                            d2,
                        ));
                        lemma_cell_in_rows(s2, d2, s2 + 1, width as int);
                    } else {
                        assert(out@[step * width + d] == cell);
                    }
                }
            }
            d = d + 1;
        }
        proof {
            assert((step + 1) * width == step * width + width) by (nonlinear_arith);
        }
        step = step + 1;
    }
    *state = copy_range(history.as_slice(), input_len, state_len);
    out
}

/// Convolving a stretch of rows in two calls gives every step the window that
/// one call gives it, and leaves the same kept rows.
pub proof fn law_conv_in_two_calls<T>(
    state: Seq<T>,
    first: Seq<T>,
    second: Seq<T>,
    width: nat,
    taps: nat,
    first_steps: nat,
    second_steps: nat,
    step: int,
    d: int,
)
    requires
        1 <= taps,
        state.len() == (taps - 1) * width,
        first.len() == first_steps * width,
        second.len() == second_steps * width,
        0 <= step < second_steps,
        0 <= d < width,
    ensures
        ({
            let keep = ((taps - 1) * width) as nat;
            let kept = suffix(state + first, keep);
            &&& window(kept + second, width, taps, step, d) == window(
                state + (first + second),
                width,
                taps,
                first_steps + step,
                d,
            )
            &&& suffix(kept + second, keep) == suffix(state + (first + second), keep)
        }),
{
    let keep = ((taps - 1) * width) as nat;
    let kept = suffix(state + first, keep);
    let whole = state + (first + second);
    let tail = kept + second;
    assert(kept.len() == keep);
    assert forall|i: int| 0 <= i < tail.len() implies tail[i] == whole[first.len() + i] by {
        if i < keep {
            assert(tail[i] == (state + first)[first.len() + i]);
        }
    }
    let a = window(tail, width, taps, step, d);
    let b = window(whole, width, taps, first_steps + step, d);
    assert forall|k: int| 0 <= k < taps implies a[k] == b[k] by {
        lemma_cell_in_rows(step + k, d, taps - 1 + second_steps, width as int);
        assert((taps - 1 + second_steps) * width == (taps - 1) * width + second_steps * width)
            by (nonlinear_arith);
        assert((first_steps + step + k) * width == first_steps * width + (step + k) * width)
            by (nonlinear_arith);
    }
    assert(a =~= b);
    assert(suffix(tail, keep) =~= suffix(whole, keep));
}

} // verus!
