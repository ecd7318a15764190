//! The gated delta recurrence over a long sequence, chunk by chunk.

use crate::gla::{blank_state, covers, gdn2_chunkwise_step, head_rows, slice_rows, HeadRows};
use crate::gla_train::{wy_chunk_head, MAX_WY_CHUNK};
use crate::scalar::{grid, shaped, Number, Relation, ScalarOp, Scalars};
use vstd::prelude::*;
use vstd::slice::slice_subrange;

verus! {

/// How a chunk's decays are kept.
#[derive(Debug, Clone, Copy, PartialEq, Eq, Structural)]
pub enum ChunkForm {
    /// As running products.
    Products,
    /// As summed logarithms.
    Logarithms,
}

/// The tokens that are taken at once: as many as asked for, but at least one and
/// at most what a chunk can hold.
pub open spec fn chunk_len_of(chunk_size: usize) -> nat {
    if chunk_size < 1 {
        1
    } else if chunk_size > MAX_WY_CHUNK {
        MAX_WY_CHUNK as nat
    } else {
        chunk_size as nat
    }
}

/// The tokens that are taken at once.
pub fn chunk_len(chunk_size: usize) -> (n: usize)
    ensures
        n == chunk_len_of(chunk_size),
{
    if chunk_size < 1 {
        1
    } else if chunk_size > MAX_WY_CHUNK {
        MAX_WY_CHUNK
    } else {
        chunk_size
    }
}

/// The rows of chunk `n` of `t` tokens.
pub open spec fn chunk_rows<T>(rows: HeadRows<T>, t: nat, chunk: nat, n: nat) -> HeadRows<T> {
    let end = (n + 1) * chunk;
    rows.part((n * chunk) as int, if end < t { end as int } else { t as int })
}

impl<T: Copy, F: Fn(ScalarOp, T, T) -> T, C: Fn(Number) -> T, Z: Fn(Relation, T, T) -> bool> Scalars<T, F, C, Z> {
    /// The state after a chunk.
    pub open spec fn form_state(
        &self,
        form: ChunkForm,
        dk: nat,
        dv: nat,
        rows: HeadRows<T>,
        state: Seq<Seq<T>>,
    ) -> Seq<Seq<T>> {
        match form {
            ChunkForm::Products => self.chunk_state(dk, dv, rows, state),
            ChunkForm::Logarithms => self.wy_state(dk, dv, rows, state),
        }
    }

    /// The outputs of a chunk.
    pub open spec fn form_output(
        &self,
        form: ChunkForm,
        dk: nat,
        dv: nat,
        rows: HeadRows<T>,
        state: Seq<Seq<T>>,
    ) -> Seq<Seq<T>> {
        match form {
            ChunkForm::Products => self.chunk_output(dk, dv, rows, state),
            ChunkForm::Logarithms => self.wy_output(dk, dv, rows, state),
        }
    }

    /// The state after the first `n` chunks of `t` tokens.
    pub open spec fn chunked_state(
        &self,
        form: ChunkForm,
        dk: nat,
        dv: nat,
        rows: HeadRows<T>,
        t: nat,
        chunk: nat,
        n: nat,
    ) -> Seq<Seq<T>>
        decreases n,
    {
        if n == 0 {
            self.blank(dk, dv)
        } else {
            let before = self.chunked_state(form, dk, dv, rows, t, chunk, (n - 1) as nat);
            self.form_state(form, dk, dv, chunk_rows(rows, t, chunk, (n - 1) as nat), before)
        }
    }

    /// The output of token `i`: its row in the outputs of its chunk.
    pub open spec fn chunked_output(
        &self,
        form: ChunkForm,
        dk: nat,
        dv: nat,
        rows: HeadRows<T>,
        t: nat,
        chunk: nat,
        i: nat,
    ) -> Seq<T> {
        let n = i / chunk;
        self.form_output(
            form,
            dk,
            dv,
            chunk_rows(rows, t, chunk, n),
            self.chunked_state(form, dk, dv, rows, t, chunk, n),
        )[(i % chunk) as int]
    }
}

impl<T: Copy, F: Fn(ScalarOp, T, T) -> T, C: Fn(Number) -> T, Z: Fn(Relation, T, T) -> bool> Scalars<T, F, C, Z> {
    /// The outputs of every head, token by token, each the row of its chunk.
    pub open spec fn chunk_result(
        &self,
        form: ChunkForm,
        q: Seq<Vec<Vec<T>>>,
        k: Seq<Vec<Vec<T>>>,
        v: Seq<Vec<Vec<T>>>,
        alpha: Seq<Vec<Vec<T>>>,
        b: Seq<Vec<Vec<T>>>,
        w: Seq<Vec<Vec<T>>>,
        heads: nat,
        dk: nat,
        dv: nat,
        chunk_size: usize,
        out: Seq<Vec<Vec<T>>>,
    ) -> bool {
        let t = q[0]@.len();
        &&& out.len() == heads
        &&& forall|h: int| 0 <= h < heads ==> #[trigger] out[h]@.len() == t
        &&& forall|h: int, i: int|
            0 <= h < heads && 0 <= i < t ==> #[trigger] out[h]@[i]@ == self.chunked_output(
                form,
                dk,
                dv,
                head_rows(q, k, v, alpha, b, w, h),
                t,
                chunk_len_of(chunk_size),
                i as nat,
            )
    }
}

/// One chunk of one head.
fn chunk_step<
    T: Copy,
    F: Fn(ScalarOp, T, T) -> T,
    C: Fn(Number) -> T,
    Z: Fn(Relation, T, T) -> bool,
>(
    x: &Scalars<T, F, C, Z>,
    form: ChunkForm,
    state: &mut Vec<Vec<T>>,
    q: &[Vec<T>],
    k: &[Vec<T>],
    v: &[Vec<T>],
    alpha: &[Vec<T>],
    b: &[Vec<T>],
    w: &[Vec<T>],
    dk: usize,
    dv: usize,
) -> (out: Vec<Vec<T>>)
    requires
        x.wf(),
        dk > 0,
        0 < q@.len() <= MAX_WY_CHUNK,
        shaped(grid(old(state)@), dk as nat, dv as nat),
        slice_rows(q@, k@, v@, alpha@, b@, w@).wf(q@.len(), dk as nat, dv as nat),
    ensures
        grid(final(state)@) == x.form_state(
            form,
            dk as nat,
            dv as nat,
            slice_rows(q@, k@, v@, alpha@, b@, w@),
            grid(old(state)@),
        ),
        grid(out@) == x.form_output(
            form,
            dk as nat,
            dv as nat,
            slice_rows(q@, k@, v@, alpha@, b@, w@),
            grid(old(state)@),
        ),
        shaped(grid(final(state)@), dk as nat, dv as nat),
        out@.len() == q@.len(),
{
    proof {
        assert(state@.len() == grid(state@).len());
        assert(state@[0]@ == grid(state@)[0]);
    }
    let out = match form {
        ChunkForm::Products => gdn2_chunkwise_step(x, state, q, k, v, alpha, b, w),
        ChunkForm::Logarithms => wy_chunk_head(x, state, q, k, v, alpha, b, w, dk, dv),
    };
    proof {
        assert(out@.len() == grid(out@).len());
    }
    out
}

/// Every head's tokens chunk by chunk, from a state that holds nothing.
pub(crate) fn chunkwise<
    T: Copy,
    F: Fn(ScalarOp, T, T) -> T,
    C: Fn(Number) -> T,
    Z: Fn(Relation, T, T) -> bool,
>(
    x: &Scalars<T, F, C, Z>,
    form: ChunkForm,
    q: &[Vec<Vec<T>>],
    k: &[Vec<Vec<T>>],
    v: &[Vec<Vec<T>>],
    alpha: &[Vec<Vec<T>>],
    b: &[Vec<Vec<T>>],
    w: &[Vec<Vec<T>>],
    heads: usize,
    d_k: usize,
    d_v: usize,
    chunk_size: usize,
) -> (out: Vec<Vec<Vec<T>>>)
    requires
        x.wf(),
        q@.len() > 0,
        heads > 0 && q@[0]@.len() > 0 ==> d_k > 0,
        covers(q@, heads as nat, q@[0]@.len(), d_k as nat),
        covers(k@, heads as nat, q@[0]@.len(), d_k as nat),
        covers(v@, heads as nat, q@[0]@.len(), d_v as nat),
        covers(alpha@, heads as nat, q@[0]@.len(), d_k as nat),
        covers(b@, heads as nat, q@[0]@.len(), d_k as nat),
        covers(w@, heads as nat, q@[0]@.len(), d_v as nat),
    ensures
        x.chunk_result(
            form,
            q@,
            k@,
            v@,
            alpha@,
            b@,
            w@,
            heads as nat,
            d_k as nat,
            d_v as nat,
            chunk_size,
            out@,
        ),
{
    let t: usize = q[0].len();
    let chunk: usize = chunk_len(chunk_size);
    let ghost dk = d_k as nat;
    let ghost dv = d_v as nat;
    let mut out: Vec<Vec<Vec<T>>> = Vec::new();
    for h in 0..heads
        invariant
            x.wf(),
            t == q@[0]@.len(),
            heads > 0 && t > 0 ==> d_k > 0,
            dk == d_k,
            dv == d_v,
            1 <= chunk <= MAX_WY_CHUNK,
            chunk == chunk_len_of(chunk_size),
            covers(q@, heads as nat, t as nat, dk),
            covers(k@, heads as nat, t as nat, dk),
            covers(v@, heads as nat, t as nat, dv),
            covers(alpha@, heads as nat, t as nat, dk),
            covers(b@, heads as nat, t as nat, dk),
            covers(w@, heads as nat, t as nat, dv),
            out@.len() == h,
            forall|g: int| 0 <= g < h ==> #[trigger] out@[g]@.len() == t,
            forall|g: int, i: int|
                0 <= g < h && 0 <= i < t ==> #[trigger] out@[g]@[i]@ == x.chunked_output(
                    form,
                    dk,
                    dv,
                    head_rows(q@, k@, v@, alpha@, b@, w@, g),
                    t as nat,
                    chunk as nat,
                    i as nat,
                ),
    {
        let ghost rows = head_rows(q@, k@, v@, alpha@, b@, w@, h as int);
        let mut state = blank_state(x, d_k, d_v);
        let mut tokens: Vec<Vec<T>> = Vec::new();
        let mut pos: usize = 0;
        let ghost mut n: nat = 0;
        while pos < t
            invariant
                x.wf(),
                h < heads,
                t > 0 ==> d_k > 0,
                dk == d_k,
                dv == d_v,
                1 <= chunk <= MAX_WY_CHUNK,
                covers(q@, heads as nat, t as nat, dk),
                covers(k@, heads as nat, t as nat, dk),
                covers(v@, heads as nat, t as nat, dv),
                covers(alpha@, heads as nat, t as nat, dk),
                covers(b@, heads as nat, t as nat, dk),
                covers(w@, heads as nat, t as nat, dv),
                rows == head_rows(q@, k@, v@, alpha@, b@, w@, h as int),
                pos <= t,
                pos < t ==> pos == n * chunk,
                shaped(grid(state@), dk, dv),
                grid(state@) == x.chunked_state(form, dk, dv, rows, t as nat, chunk as nat, n),
                tokens@.len() == pos,
                forall|i: int|
                    0 <= i < pos ==> #[trigger] tokens@[i]@ == x.chunked_output(
                        form,
                        dk,
                        dv,
                        rows,
                        t as nat,
                        chunk as nat,
                        i as nat,
                    ),
            decreases t - pos,
        {
            let len: usize = if t - pos < chunk {
                t - pos
            } else {
                chunk
            };
            let end: usize = pos + len;
            let ghost before = grid(state@);
            let ghost part = chunk_rows(rows, t as nat, chunk as nat, n);
            assert((n + 1) * chunk == n * chunk + chunk) by (nonlinear_arith);
            let q_c = slice_subrange(q[h].as_slice(), pos, end);
            let k_c = slice_subrange(k[h].as_slice(), pos, end);
            let v_c = slice_subrange(v[h].as_slice(), pos, end);
            let alpha_c = slice_subrange(alpha[h].as_slice(), pos, end);
            let b_c = slice_subrange(b[h].as_slice(), pos, end);
            let w_c = slice_subrange(w[h].as_slice(), pos, end);
            proof {
                assert(grid(q_c@) =~= part.q);
                assert(grid(k_c@) =~= part.k);
                assert(grid(v_c@) =~= part.v);
                assert(grid(alpha_c@) =~= part.alpha);
                assert(grid(b_c@) =~= part.b);
                assert(grid(w_c@) =~= part.w);
                assert forall|i: int| 0 <= i < len implies #[trigger] part.q[i].len() == dk && part.k[i].len() == dk && part.v[i].len() == dv && part.alpha[i].len() == dk && part.b[i].len() == dk && part.w[i].len() == dv by {
                    assert(q@[h as int]@[pos + i]@.len() == dk);
                    assert(k@[h as int]@[pos + i]@.len() == dk);
                    assert(v@[h as int]@[pos + i]@.len() == dv);
                    assert(alpha@[h as int]@[pos + i]@.len() == dk);
                    assert(b@[h as int]@[pos + i]@.len() == dk);
                    assert(w@[h as int]@[pos + i]@.len() == dv);
                }
                assert(slice_rows(q_c@, k_c@, v_c@, alpha_c@, b_c@, w_c@) == part);
                assert(part.wf(len as nat, dk, dv));
            }
            let mut rest = chunk_step(
                x,
                form,
                &mut state,
                q_c,
                k_c,
                v_c,
                alpha_c,
                b_c,
                w_c,
                d_k,
                d_v,
            );
            let ghost outs = rest@;
            let ghost sofar = tokens@;
            tokens.append(&mut rest);
            proof {
                assert forall|i: int| 0 <= i < end implies #[trigger] tokens@[i]@
                    == x.chunked_output(form, dk, dv, rows, t as nat, chunk as nat, i as nat) by {
                    if i < pos {
                        assert(tokens@[i] == sofar[i]);
                    } else {
                        vstd::arithmetic::div_mod::lemma_fundamental_div_mod_converse(
                            i,
                            chunk as int,
                            n as int,
                            i - pos,
                        );
                        assert(tokens@[i] == outs[i - pos]);
                        assert(grid(outs)[i - pos] == outs[i - pos]@);
                    }
                }
                n = n + 1;
            }
            pos = end;
        }
        out.push(tokens);
    }
    out
}

} // verus!
