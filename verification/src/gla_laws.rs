//! Laws of the gated delta recurrence in arithmetic without rounding.

use crate::gla::HeadRows;
use crate::scalar::{cells, shaped, Number, Relation, ScalarOp, Scalars};
use vstd::prelude::*;

verus! {

/// With one decay for all key channels and one strength for both gates, a token
/// changes the state as the plain gated delta recurrence does.
pub proof fn law_uniform_gates_are_plain<T: Copy, F: Fn(ScalarOp, T, T) -> T, C: Fn(Number) -> T, Z: Fn(Relation, T, T) -> bool>(
    x: &Scalars<T, F, C, Z>,
    dk: nat,
    dv: nat,
    state: Seq<Seq<T>>,
    k: Seq<T>,
    v: Seq<T>,
    gamma: T,
    beta: T,
)
    requires
        x.ring(),
    ensures
        x.engraved(
            dk,
            dv,
            state,
            k,
            v,
            Seq::new(dk, |i: int| gamma),
            Seq::new(dk, |i: int| beta),
            Seq::new(dv, |j: int| beta),
        ) == x.plainly_engraved(dk, dv, state, k, v, gamma, beta),
{
    let alpha = Seq::new(dk, |i: int| gamma);
    let b = Seq::new(dk, |i: int| beta);
    let w = Seq::new(dv, |j: int| beta);
    let kept = x.decayed(dk, dv, state, alpha);
    let plain = cells(dk, dv, |i: int, j: int| x.times(state[i][j], gamma));
    assert forall|i: int, j: int| 0 <= i < dk && 0 <= j < dv implies #[trigger] kept[i][j]
        == plain[i][j] by {
        x.times_comm(gamma, state[i][j]);
    }
    assert(kept =~~= plain);
    let left = x.engraved(dk, dv, state, k, v, alpha, b, w);
    let right = x.plainly_engraved(dk, dv, state, k, v, gamma, beta);
    assert forall|i: int, j: int| 0 <= i < dk && 0 <= j < dv implies #[trigger] left[i][j]
        == right[i][j] by {
        let read = x.plain_read(dk, kept, k, j);
        let f = |i: int| x.times(k[i], kept[i][j]);
        let g = |i: int| x.times(x.times(b[i], k[i]), kept[i][j]);
        assert forall|i: int| 0 <= i < dk implies #[trigger] g(i) == x.times(beta, f(i)) by {
            x.times_assoc(beta, k[i], kept[i][j]);
        }
        x.gathered_times(dk, beta, f, g);
        x.times_minus(beta, v[j], read);
        x.times_assoc(k[i], beta, x.minus(v[j], read));
    }
    assert(left =~~= right);
}

impl<T: Copy, F: Fn(ScalarOp, T, T) -> T, C: Fn(Number) -> T, Z: Fn(Relation, T, T) -> bool> Scalars<T, F, C, Z> {
    /// The state after the first `n` tokens of the plain recurrence, from `start`
    /// on.
    pub open spec fn plain_state(
        &self,
        dk: nat,
        dv: nat,
        rows: HeadRows<T>,
        gamma: Seq<T>,
        beta: Seq<T>,
        start: Seq<Seq<T>>,
        n: nat,
    ) -> Seq<Seq<T>>
        decreases n,
    {
        if n == 0 {
            start
        } else {
            let t = n - 1;
            let before = self.plain_state(dk, dv, rows, gamma, beta, start, t as nat);
            self.plainly_engraved(dk, dv, before, rows.k[t], rows.v[t], gamma[t], beta[t])
        }
    }
}

/// Token for token: where every token has one decay for all key channels and one
/// strength for both gates, the states and the outputs are those of the plain
/// gated delta recurrence.
pub proof fn law_uniform_gates_are_plain_throughout<T: Copy, F: Fn(ScalarOp, T, T) -> T, C: Fn(Number) -> T, Z: Fn(Relation, T, T) -> bool>(
    x: &Scalars<T, F, C, Z>,
    dk: nat,
    dv: nat,
    rows: HeadRows<T>,
    gamma: Seq<T>,
    beta: Seq<T>,
    start: Seq<Seq<T>>,
    n: nat,
)
    requires
        x.ring(),
        forall|t: int|
            0 <= t < n ==> {
                &&& #[trigger] rows.alpha[t] == Seq::new(dk, |i: int| gamma[t])
                &&& rows.b[t] == Seq::new(dk, |i: int| beta[t])
                &&& rows.w[t] == Seq::new(dv, |j: int| beta[t])
            },
    ensures
        x.serial_state(dk, dv, rows, start, n) == x.plain_state(
            dk,
            dv,
            rows,
            gamma,
            beta,
            start,
            n,
        ),
        forall|t: int|
            0 <= t < n ==> #[trigger] x.serial_output(dk, dv, rows, start, t) == x.read_out(
                dk,
                dv,
                x.plain_state(dk, dv, rows, gamma, beta, start, (t + 1) as nat),
                rows.q[t],
            ),
    decreases n,
{
    if n > 0 {
        let t = n - 1;
        law_uniform_gates_are_plain_throughout(x, dk, dv, rows, gamma, beta, start, t as nat);
        assert(rows.alpha[t] == Seq::new(dk, |i: int| gamma[t]));
        law_uniform_gates_are_plain(
            x,
            dk,
            dv,
            x.serial_state(dk, dv, rows, start, t as nat),
            rows.k[t],
            rows.v[t],
            gamma[t],
            beta[t],
        );
    }
}

/// A key channel that the key leaves alone and that does not decay keeps its row
/// of the state.
pub proof fn law_silent_channel_is_kept<T: Copy, F: Fn(ScalarOp, T, T) -> T, C: Fn(Number) -> T, Z: Fn(Relation, T, T) -> bool>(
    x: &Scalars<T, F, C, Z>,
    dk: nat,
    dv: nat,
    state: Seq<Seq<T>>,
    k: Seq<T>,
    v: Seq<T>,
    alpha: Seq<T>,
    b: Seq<T>,
    w: Seq<T>,
    i: int,
)
    requires
        x.ring(),
        shaped(state, dk, dv),
        0 <= i < dk,
        k[i] == x.zero(),
        alpha[i] == x.one(),
    ensures
        x.engraved(dk, dv, state, k, v, alpha, b, w)[i] == state[i],
{
    let next = x.engraved(dk, dv, state, k, v, alpha, b, w);
    let kept = x.decayed(dk, dv, state, alpha);
    assert forall|j: int| 0 <= j < dv implies #[trigger] next[i][j] == state[i][j] by {
        x.times_one(state[i][j]);
        x.times_zero(x.correction(dk, kept, k, v, b, w, j));
        x.plus_zero(state[i][j]);
    }
    assert(next[i] =~= state[i]);
}

/// With all gates open, a value written under a key of length one is what the
/// key reads afterwards, whatever was there before.
pub proof fn law_write_overwrites<T: Copy, F: Fn(ScalarOp, T, T) -> T, C: Fn(Number) -> T, Z: Fn(Relation, T, T) -> bool>(
    x: &Scalars<T, F, C, Z>,
    dk: nat,
    dv: nat,
    state: Seq<Seq<T>>,
    k: Seq<T>,
    v: Seq<T>,
)
    requires
        x.ring(),
        v.len() == dv,
        x.gathered(x.zero(), dk, |i: int| x.times(k[i], k[i])) == x.one(),
    ensures
        x.read_out(
            dk,
            dv,
            x.engraved(
                dk,
                dv,
                state,
                k,
                v,
                Seq::new(dk, |i: int| x.one()),
                Seq::new(dk, |i: int| x.one()),
                Seq::new(dv, |j: int| x.one()),
            ),
            k,
        ) == v,
{
    let ones_k = Seq::new(dk, |i: int| x.one());
    let ones_v = Seq::new(dv, |j: int| x.one());
    let kept = x.decayed(dk, dv, state, ones_k);
    let next = x.engraved(dk, dv, state, k, v, ones_k, ones_k, ones_v);
    let out = x.read_out(dk, dv, next, k);
    let z = x.zero();
    assert forall|j: int| 0 <= j < dv implies #[trigger] out[j] == v[j] by {
        let off = x.correction(dk, kept, k, v, ones_k, ones_v, j);
        let read = x.gated_read(dk, kept, k, ones_k, j);
        let old = |i: int| x.times(k[i], kept[i][j]);
        let square = |i: int| x.times(k[i], k[i]);
        let new = |i: int| x.times(off, square(i));
        let both = |i: int| x.times(k[i], next[i][j]);
        assert forall|i: int| 0 <= i < dk implies #[trigger] both(i) == x.plus(old(i), new(i)) by {
            x.times_plus(k[i], kept[i][j], x.times(k[i], off));
            x.times_assoc(k[i], k[i], off);
            x.times_comm(off, square(i));
        }
        x.gathered_plus(dk, old, new, both);
        x.gathered_times(dk, off, square, new);
        x.times_one(off);
        let erased = |i: int| x.times(x.times(ones_k[i], k[i]), kept[i][j]);
        assert forall|i: int| 0 <= i < dk implies #[trigger] erased(i) == old(i) by {
            x.times_one(k[i]);
        }
        x.lemma_gathered_same(z, dk, erased, old);
        assert(read == x.gathered(z, dk, old));
        x.times_one(v[j]);
        x.minus_is(v[j], read);
        x.plus_comm(read, x.plus(v[j], x.negated(read)));
        x.plus_assoc(v[j], x.negated(read), read);
        x.plus_negated(read);
        x.plus_zero(v[j]);
        x.lemma_gathered_same(z, dk, both, |i: int| x.times(k[i], next[i][j]));
    }
    assert(out =~= v);
}

/// With all gates open, writing a value again under a key of length one changes
/// nothing.
pub proof fn law_rewrite_changes_nothing<T: Copy, F: Fn(ScalarOp, T, T) -> T, C: Fn(Number) -> T, Z: Fn(Relation, T, T) -> bool>(
    x: &Scalars<T, F, C, Z>,
    dk: nat,
    dv: nat,
    state: Seq<Seq<T>>,
    k: Seq<T>,
    v: Seq<T>,
)
    requires
        x.ring(),
        v.len() == dv,
        x.gathered(x.zero(), dk, |i: int| x.times(k[i], k[i])) == x.one(),
    ensures
        ({
            let ones_k = Seq::new(dk, |i: int| x.one());
            let ones_v = Seq::new(dv, |j: int| x.one());
            let once = x.engraved(dk, dv, state, k, v, ones_k, ones_k, ones_v);
            x.engraved(dk, dv, once, k, v, ones_k, ones_k, ones_v) == once
        }),
{
    let ones_k = Seq::new(dk, |i: int| x.one());
    let ones_v = Seq::new(dv, |j: int| x.one());
    let once = x.engraved(dk, dv, state, k, v, ones_k, ones_k, ones_v);
    let kept = x.decayed(dk, dv, once, ones_k);
    let twice = x.engraved(dk, dv, once, k, v, ones_k, ones_k, ones_v);
    let z = x.zero();
    law_write_overwrites(x, dk, dv, state, k, v);
    assert forall|i: int, j: int| 0 <= i < dk && 0 <= j < dv implies #[trigger] kept[i][j]
        == once[i][j] by {
        x.times_one(once[i][j]);
    }
    assert forall|i: int, j: int| 0 <= i < dk && 0 <= j < dv implies #[trigger] twice[i][j]
        == once[i][j] by {
        let read = |i: int| x.times(k[i], once[i][j]);
        let gated = |i: int| x.times(x.times(ones_k[i], k[i]), kept[i][j]);
        assert forall|i: int| 0 <= i < dk implies #[trigger] gated(i) == read(i) by {
            x.times_one(k[i]);
        }
        x.lemma_gathered_same(z, dk, gated, read);
        assert(x.read_out(dk, dv, once, k)[j] == x.gathered(z, dk, read));
        x.lemma_gathered_same(
            z,
            dk,
            gated,
            |i: int| x.times(x.times(ones_k[i], k[i]), kept[i][j]),
        );
        assert(x.gated_read(dk, kept, k, ones_k, j) == v[j]);
        x.times_one(v[j]);
        x.minus_is(v[j], v[j]);
        x.plus_negated(v[j]);
        x.times_zero(k[i]);
        x.plus_zero(kept[i][j]);
        assert(kept[i][j] == once[i][j]);
    }
    assert(twice =~~= once);
}

/// A token that writes nothing scales what is read along its key: with one decay
/// for all key channels and one strength for both gates, the read becomes the
/// decay times what the strength leaves of it. Old associations fade by this
/// factor, token after token.
pub proof fn law_unwritten_read_is_scaled<T: Copy, F: Fn(ScalarOp, T, T) -> T, C: Fn(Number) -> T, Z: Fn(Relation, T, T) -> bool>(
    x: &Scalars<T, F, C, Z>,
    dk: nat,
    dv: nat,
    state: Seq<Seq<T>>,
    k: Seq<T>,
    gamma: T,
    beta: T,
)
    requires
        x.ring(),
    ensures
        ({
            let length = x.gathered(x.zero(), dk, |i: int| x.times(k[i], k[i]));
            let factor = x.times(gamma, x.minus(x.one(), x.times(beta, length)));
            x.read_out(
                dk,
                dv,
                x.engraved(
                    dk,
                    dv,
                    state,
                    k,
                    Seq::new(dv, |j: int| x.zero()),
                    Seq::new(dk, |i: int| gamma),
                    Seq::new(dk, |i: int| beta),
                    Seq::new(dv, |j: int| beta),
                ),
                k,
            ) == Seq::new(dv, |j: int| x.times(factor, x.read_out(dk, dv, state, k)[j]))
        }),
{
    let zero = x.zero();
    let v = Seq::new(dv, |j: int| zero);
    let alpha = Seq::new(dk, |i: int| gamma);
    let b = Seq::new(dk, |i: int| beta);
    let w = Seq::new(dv, |j: int| beta);
    let square = |i: int| x.times(k[i], k[i]);
    let length = x.gathered(zero, dk, square);
    let factor = x.times(gamma, x.minus(x.one(), x.times(beta, length)));
    let kept = x.decayed(dk, dv, state, alpha);
    let after = x.engraved(dk, dv, state, k, v, alpha, b, w);
    let old_reads = x.read_out(dk, dv, state, k);
    let new_reads = x.read_out(dk, dv, after, k);
    assert forall|j: int| 0 <= j < dv implies #[trigger] new_reads[j] == x.times(
        factor,
        old_reads[j],
    ) by {
        let f = |i: int| x.times(k[i], state[i][j]);
        let r = x.gathered(zero, dk, f);
        assert(old_reads[j] == r);
        // What the token reads: the strength times the decayed read.
        let g = |i: int| x.times(x.times(b[i], k[i]), kept[i][j]);
        let bg = x.times(beta, gamma);
        assert forall|i: int| 0 <= i < dk implies #[trigger] g(i) == x.times(bg, f(i)) by {
            assert(kept[i][j] == x.times(gamma, state[i][j]));
            x.times_assoc(beta, k[i], kept[i][j]);
            x.times_assoc(k[i], gamma, state[i][j]);
            x.times_comm(k[i], gamma);
            x.times_assoc(gamma, k[i], state[i][j]);
            x.times_assoc(beta, gamma, f(i));
        }
        x.gathered_times(dk, bg, f, g);
        let read = x.times(bg, r);
        assert(x.gated_read(dk, kept, k, b, j) == read);
        x.times_zero(beta);
        x.minus_is(zero, read);
        x.plus_zero(x.negated(read));
        let off = x.negated(read);
        assert(x.correction(dk, kept, k, v, b, w, j) == off);
        // The read along the key, in two sums.
        let left = |i: int| x.times(k[i], kept[i][j]);
        let right = |i: int| x.times(k[i], x.times(k[i], off));
        let both = |i: int| x.times(k[i], after[i][j]);
        assert forall|i: int| 0 <= i < dk implies #[trigger] both(i) == x.plus(
            left(i),
            right(i),
        ) by {
            assert(after[i][j] == x.plus(kept[i][j], x.times(k[i], off)));
            x.times_plus(k[i], kept[i][j], x.times(k[i], off));
        }
        x.gathered_plus(dk, left, right, both);
        assert forall|i: int| 0 <= i < dk implies #[trigger] left(i) == x.times(gamma, f(i)) by {
            assert(kept[i][j] == x.times(gamma, state[i][j]));
            x.times_assoc(k[i], gamma, state[i][j]);
            x.times_comm(k[i], gamma);
            x.times_assoc(gamma, k[i], state[i][j]);
        }
        x.gathered_times(dk, gamma, f, left);
        assert forall|i: int| 0 <= i < dk implies #[trigger] right(i) == x.times(
            off,
            square(i),
        ) by {
            x.times_assoc(k[i], k[i], off);
            x.times_comm(square(i), off);
        }
        x.gathered_times(dk, off, square, right);
        // gamma r - (beta gamma r) length = gamma (1 - beta length) r
        let bl = x.times(beta, length);
        x.times_negated(length, read);
        x.times_comm(off, length);
        x.minus_is(x.times(gamma, r), x.times(length, read));
        x.times_assoc(beta, gamma, r);
        x.times_assoc(length, beta, x.times(gamma, r));
        x.times_comm(length, beta);
        let gr = x.times(gamma, r);
        assert(x.times(length, read) == x.times(bl, gr));
        x.times_minus(gr, x.one(), bl);
        x.times_one(gr);
        x.times_comm(gr, x.minus(x.one(), bl));
        x.times_comm(bl, gr);
        x.times_swap(gamma, x.minus(x.one(), bl), r);
        x.times_comm(gr, x.minus(x.one(), bl));
    }
    assert(new_reads =~= Seq::new(dv, |j: int| x.times(factor, x.read_out(dk, dv, state, k)[j])));
}

} // verus!
