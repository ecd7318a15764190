//! Low-rank adapters on logits.
//!
//! Each active adapter adds `alpha / rank * (x A) B` to the logits, where `x` is
//! the input that all adapters share.

use crate::device::Device;
use crate::error::Error;
use crate::kernels::adapter_row;
use crate::rows::{append_all, copy_range, lemma_flat_index, lemma_row_bounds, transpose, transposed};
use crate::scalar::{fill_row, Number, Relation, ScalarOp, Scalars};
use crate::tensor::{element_count, lemma_element_count_2d, HostTensor};
use vstd::prelude::*;

verus! {

/// The shapes of an adapter: `a` maps the input to its rank, `b` its rank to
/// the vocabulary.
#[derive(Debug)]
pub struct AdapterShape {
    pub a: Vec<usize>,
    pub b: Vec<usize>,
}

/// Why an adapter does not fit a model, on the host or on a device.
pub open spec fn adapter_refusal(
    a: Seq<usize>,
    b: Seq<usize>,
    hidden: usize,
    vocab: usize,
    on_host: bool,
) -> Option<Error> {
    if a.len() < 2 {
        Some(Error::LoraDims { matrix: "A", rank: a.len() as usize })
    } else if a[1] != hidden {
        Some(Error::LoraInput { in_dim: a[1], hidden })
    } else if b.len() < 1 {
        Some(Error::LoraDims { matrix: "B", rank: b.len() as usize })
    } else if b[0] != vocab {
        Some(Error::LoraOutput { out_dim: b[0], vocab })
    } else if on_host && a[1] != vocab {
        Some(Error::LoraSurrogate { hidden, vocab })
    } else {
        None
    }
}

/// Checks an adapter against a model and returns its rank.
pub fn check_adapter(adapter: &AdapterShape, hidden: usize, vocab: usize, on_host: bool) -> (result:
    Result<usize, Error>)
    ensures
        match adapter_refusal(adapter.a@, adapter.b@, hidden, vocab, on_host) {
            Some(e) => result == Err::<usize, Error>(e),
            None => result == Ok::<usize, Error>(adapter.a@[0]),
        },
{
    if adapter.a.len() < 2 {
        return Err(Error::LoraDims { matrix: "A", rank: adapter.a.len() });
    }
    let in_dim: usize = adapter.a[1];
    if in_dim != hidden {
        return Err(Error::LoraInput { in_dim, hidden });
    }
    if adapter.b.len() < 1 {
        return Err(Error::LoraDims { matrix: "B", rank: adapter.b.len() });
    }
    let out_dim: usize = adapter.b[0];
    if out_dim != vocab {
        return Err(Error::LoraOutput { out_dim, vocab });
    }
    if on_host && in_dim != vocab {
        return Err(Error::LoraSurrogate { hidden, vocab });
    }
    Ok(adapter.a[0])
}

/// The rows and columns that logits of any rank are read as: the last dimension
/// is the vocabulary, all others are rows.
pub open spec fn as_matrix(dims: Seq<usize>) -> (int, int) {
    if dims.len() == 2 {
        (dims[0] as int, dims[1] as int)
    } else {
        let vocab = if dims.len() == 0 {
            1
        } else {
            dims.last() as int
        };
        (element_count(dims) as int / vocab, vocab)
    }
}

/// Which way adapters are applied.
#[derive(Debug)]
pub enum LoraPlan {
    /// There is no adapter: the logits stay as they are.
    Unchanged,
    /// Token by token on the host.
    Host { seq_len: usize, vocab: usize, ranks: Vec<usize> },
    /// Adapter by adapter on the device, with the shape of the input put back at
    /// the end where the logits were not a matrix.
    OnDevice { seq_len: usize, vocab: usize, ranks: Vec<usize>, reshape: bool },
}

/// The first adapter that does not fit, among the first `n`.
pub open spec fn first_refusal(
    adapters: Seq<AdapterShape>,
    hidden: usize,
    vocab: usize,
    on_host: bool,
    n: int,
) -> Option<Error>
    decreases n,
{
    if n <= 0 {
        None
    } else {
        let before = first_refusal(adapters, hidden, vocab, on_host, n - 1);
        if before is Some {
            before
        } else {
            adapter_refusal(adapters[n - 1].a@, adapters[n - 1].b@, hidden, vocab, on_host)
        }
    }
}

proof fn lemma_refusal_stays(
    adapters: Seq<AdapterShape>,
    hidden: usize,
    vocab: usize,
    on_host: bool,
    n: int,
    m: int,
)
    requires
        n <= m,
        first_refusal(adapters, hidden, vocab, on_host, n) is Some,
    ensures
        first_refusal(adapters, hidden, vocab, on_host, m) == first_refusal(
            adapters,
            hidden,
            vocab,
            on_host,
            n,
        ),
    decreases m - n,
{
    if n < m {
        lemma_refusal_stays(adapters, hidden, vocab, on_host, n, m - 1);
    }
}

/// Entry `j` of row `t` of a table with rows of `width`.
pub open spec fn entry_at<T>(data: Seq<T>, width: int, t: int, j: int) -> T {
    data[t * width + j]
}

/// The rows and columns that logits are read as.
fn matrix_of<T>(logits: &HostTensor<T>) -> (r: (usize, usize))
    requires
        logits.wf(),
        logits.dims@.len() != 2 && logits.dims@.len() > 0 ==> logits.dims@.last() > 0,
    ensures
        as_matrix(logits.dims@) == (r.0 as int, r.1 as int),
        r.0 * r.1 == logits.data@.len(),
{
    let rank: usize = logits.dims.len();
    let elements: usize = logits.data.len();
    if rank == 2 {
        proof {
            lemma_element_count_2d(logits.dims@);
        }
        (logits.dims[0], logits.dims[1])
    } else if rank == 0 {
        (elements, 1)
    } else {
        let vocab: usize = logits.dims[rank - 1];
        proof {
            vstd::arithmetic::div_mod::lemma_div_by_multiple(
                element_count(logits.dims@.drop_last()) as int,
                vocab as int,
            );
        }
        (elements / vocab, vocab)
    }
}

/// Decides how adapters are applied to logits of the given dimensions, or why
/// they are not.
pub fn plan_adapters<T>(
    logits: &HostTensor<T>,
    adapters: &Vec<AdapterShape>,
    hidden_size: usize,
    device: Device,
) -> (result: Result<LoraPlan, Error>)
    requires
        logits.wf(),
        adapters@.len() > 0 && logits.dims@.len() != 2 && logits.dims@.len() > 0
            ==> logits.dims@.last() > 0,
    ensures
        adapters@.len() == 0 ==> result == Ok::<LoraPlan, Error>(LoraPlan::Unchanged),
        adapters@.len() > 0 ==> {
            let (seq_len, vocab) = as_matrix(logits.dims@);
            match first_refusal(
                adapters@,
                hidden_size,
                vocab as usize,
                device == Device::Cpu,
                adapters@.len() as int,
            ) {
                Some(e) => result == Err::<LoraPlan, Error>(e),
                None => {
                    let ranks = Seq::new(adapters@.len(), |i: int| adapters@[i].a@[0]);
                    match result {
                        Ok(LoraPlan::Host { seq_len: s, vocab: v, ranks: r }) => device
                            == Device::Cpu && s == seq_len && v == vocab && r@ == ranks,
                        Ok(LoraPlan::OnDevice { seq_len: s, vocab: v, ranks: r, reshape }) => device
                            != Device::Cpu && s == seq_len && v == vocab && r@ == ranks && reshape
                            == (logits.dims@.len() != 2),
                        _ => false,
                    }
                },
            }
        },
{
    let n: usize = adapters.len();
    if n == 0 {
        return Ok(LoraPlan::Unchanged);
    }
    let rank: usize = logits.dims.len();
    let (seq_len, vocab) = matrix_of(logits);
    let on_host: bool = match device {
        Device::Cpu => true,
        _ => false,
    };
    let mut ranks: Vec<usize> = Vec::new();
    let mut i: usize = 0;
    while i < n
        invariant
            i <= n,
            n == adapters@.len(),
            n > 0,
            as_matrix(logits.dims@) == (seq_len as int, vocab as int),
            on_host == (device == Device::Cpu),
            ranks@ == Seq::new(i as nat, |j: int| adapters@[j].a@[0]),
            first_refusal(adapters@, hidden_size, vocab, on_host, i as int) is None,
        decreases n - i,
    {
        match check_adapter(&adapters[i], hidden_size, vocab, on_host) {
            Ok(r) => {
                ranks.push(r);
            },
            Err(e) => {
                proof {
                    assert(first_refusal(adapters@, hidden_size, vocab, on_host, i + 1) == Some(e));
                    lemma_refusal_stays(adapters@, hidden_size, vocab, on_host, i + 1, n as int);
                }
                return Err(e);
            },
        }
        i = i + 1;
    }
    if on_host {
        Ok(LoraPlan::Host { seq_len, vocab, ranks })
    } else {
        Ok(LoraPlan::OnDevice { seq_len, vocab, ranks, reshape: rank != 2 })
    }
}

/// How a device kernel ended.
#[derive(Debug, Clone, Copy, PartialEq, Eq, Structural)]
pub enum KernelOutcome {
    Done,
    /// The device has no such kernel.
    Unimplemented,
    Failed,
}

/// What follows the fused kernel of one adapter.
#[derive(Debug, Clone, Copy, PartialEq, Eq, Structural)]
pub enum AfterKernel {
    /// Go on with what the kernel left.
    UseResult,
    /// Take the slower way.
    FallBack,
    /// Hand the failure on.
    Fail,
}

/// Decides what follows a kernel that has a slower stand-in.
pub fn after_kernel(outcome: KernelOutcome) -> (next: AfterKernel)
    ensures
        next == (match outcome {
            KernelOutcome::Done => AfterKernel::UseResult,
            KernelOutcome::Unimplemented => AfterKernel::FallBack,
            KernelOutcome::Failed => AfterKernel::Fail,
        }),
{
    match outcome {
        KernelOutcome::Done => AfterKernel::UseResult,
        KernelOutcome::Unimplemented => AfterKernel::FallBack,
        KernelOutcome::Failed => AfterKernel::Fail,
    }
}

/// A step of the chain that stands in for the fused kernel.
#[derive(Debug, Clone, Copy, PartialEq, Eq, Structural)]
pub enum StagedOp {
    /// Transpose `a`.
    TransposeA,
    /// Multiply the shared input by the transposed `a`.
    MatmulInput { rows: usize, cols: usize },
    /// Transpose `b`.
    TransposeB,
    /// Multiply the low-rank rows by the transposed `b`.
    MatmulRank { rows: usize, cols: usize },
    /// Scale by `alpha / rank`; on the host where the device cannot.
    Scale,
    /// Add to the logits so far.
    AddToLogits { rows: usize, cols: usize },
}

/// The chain that stands in for the fused kernel. Its input is the one that
/// the fused kernel reads.
pub fn staged_ops(seq_len: usize, rank: usize, vocab: usize) -> (ops: Vec<StagedOp>)
    ensures
        ops@ == seq![
            StagedOp::TransposeA,
            StagedOp::MatmulInput { rows: seq_len, cols: rank },
            StagedOp::TransposeB,
            StagedOp::MatmulRank { rows: seq_len, cols: vocab },
            StagedOp::Scale,
            StagedOp::AddToLogits { rows: seq_len, cols: vocab },
        ],
{
    vec![
        StagedOp::TransposeA,
        StagedOp::MatmulInput { rows: seq_len, cols: rank },
        StagedOp::TransposeB,
        StagedOp::MatmulRank { rows: seq_len, cols: vocab },
        StagedOp::Scale,
        StagedOp::AddToLogits { rows: seq_len, cols: vocab },
    ]
}

/// Transposes a matrix; other ranks are refused.
pub fn transpose_last_two<T: Copy>(t: &HostTensor<T>) -> (result: Result<HostTensor<T>, Error>)
    requires
        t.wf(),
    ensures
        t.dims@.len() != 2 ==> result == Err::<HostTensor<T>, Error>(Error::TransposeRank),
        t.dims@.len() == 2 ==> {
            &&& result matches Ok(out)
            &&& out.dims@ == seq![t.dims@[1], t.dims@[0]]
            &&& out.data@ == transposed(t.data@, t.dims@[0] as nat, t.dims@[1] as nat)
            &&& out.wf()
        },
{
    if t.dims.len() != 2 {
        return Err(Error::TransposeRank);
    }
    let rows: usize = t.dims[0];
    let cols: usize = t.dims[1];
    proof {
        lemma_element_count_2d(t.dims@);
        lemma_element_count_2d(seq![cols, rows]);
        vstd::arithmetic::mul::lemma_mul_is_commutative(rows as int, cols as int);
    }
    let data = transpose(t.data.as_slice(), rows, cols);
    Ok(HostTensor { data, dims: vec![cols, rows] })
}

/// An adapter held on the host.
#[derive(Debug)]
pub struct HostAdapter<T> {
    pub shape: AdapterShape,
    pub a: Vec<T>,
    pub b: Vec<T>,
    pub alpha: T,
}

/// The shapes of some adapters.
pub open spec fn shapes_of<T>(adapters: Seq<HostAdapter<T>>) -> Seq<AdapterShape> {
    Seq::new(adapters.len(), |i: int| adapters[i].shape)
}

impl<T: Copy, F: Fn(ScalarOp, T, T) -> T, C: Fn(Number) -> T, Z: Fn(Relation, T, T) -> bool> Scalars<T, F, C, Z> {
    /// What one adapter adds to entry `j` of a row.
    pub open spec fn added_by(&self, adapter: HostAdapter<T>, row: Seq<T>, j: int) -> T {
        let rank = adapter.shape.a@[0];
        self.adapted(
            row,
            adapter.a@,
            adapter.b@,
            rank as nat,
            self.over(adapter.alpha, self.number(rank)),
            j,
        )
    }

    /// Entry `j` of row `t` of the logits, with what all adapters make of the
    /// untouched row added.
    pub open spec fn adapted_logit(
        &self,
        logits: Seq<T>,
        vocab: nat,
        adapters: Seq<HostAdapter<T>>,
        t: int,
        j: int,
    ) -> T {
        let row = logits.subrange(t * vocab, t * vocab + vocab);
        self.plus(
            logits[t * vocab + j],
            self.gathered(
                self.zero(),
                adapters.len(),
                |i: int| self.added_by(adapters[i], row, j),
            ),
        )
    }

    /// `rows` rows of logits with all adapters applied.
    pub open spec fn adapted_rows(
        &self,
        logits: Seq<T>,
        rows: nat,
        vocab: nat,
        adapters: Seq<HostAdapter<T>>,
    ) -> Seq<T> {
        Seq::new(
            rows * vocab,
            |p: int|
                self.adapted_logit(logits, vocab, adapters, p / vocab as int, p % vocab as int),
        )
    }
}

/// One row of the logits with every adapter applied.
fn adapt_row<T: Copy, F: Fn(ScalarOp, T, T) -> T, C: Fn(Number) -> T, Z: Fn(Relation, T, T) -> bool>(
    x: &Scalars<T, F, C, Z>,
    row: &[T],
    adapters: &Vec<HostAdapter<T>>,
) -> (r: Vec<T>)
    requires
        x.wf(),
        forall|i: int|
            0 <= i < adapters@.len() ==> {
                let adapter = #[trigger] adapters@[i];
                adapter.shape.a@.len() >= 1 && adapter.shape.a@[0] * row@.len() <= adapter.a@.len()
                    && row@.len() * adapter.shape.a@[0] <= adapter.b@.len()
            },
    ensures
        r@.len() == row@.len(),
        forall|j: int|
            0 <= j < row@.len() ==> #[trigger] r@[j] == x.plus(
                row@[j],
                x.gathered(
                    x.zero(),
                    adapters@.len(),
                    |i: int| x.added_by(adapters@[i], row@, j),
                ),
            ),
{
    let n: usize = adapters.len();
    let vocab: usize = row.len();
    let mut parts: Vec<Vec<T>> = Vec::new();
    for i in 0..n
        invariant
            x.wf(),
            n == adapters@.len(),
            vocab == row@.len(),
            forall|i: int|
                0 <= i < adapters@.len() ==> {
                    let adapter = #[trigger] adapters@[i];
                    adapter.shape.a@.len() >= 1 && adapter.shape.a@[0] * row@.len()
                        <= adapter.a@.len() && row@.len() * adapter.shape.a@[0]
                        <= adapter.b@.len()
                },
            parts@.len() == i,
            forall|k: int|
                0 <= k < i ==> (#[trigger] parts@[k])@ == Seq::new(
                    vocab as nat,
                    |j: int| x.added_by(adapters@[k], row@, j),
                ),
    {
        let adapter = &adapters[i];
        let rank: usize = adapter.shape.a[0];
        let scale = x.over(adapter.alpha, x.number(rank));
        let part = adapter_row(
            x,
            row,
            adapter.a.as_slice(),
            adapter.b.as_slice(),
            rank,
            scale,
            vocab,
        );
        assert(part@ =~= Seq::new(vocab as nat, |j: int| x.added_by(adapters@[i as int], row@, j)));
        parts.push(part);
    }
    let ghost entry = |j: int|
        x.plus(
            row@[j],
            x.gathered(x.zero(), adapters@.len(), |i: int| x.added_by(adapters@[i], row@, j)),
        );
    fill_row(
        vocab,
        |j: usize| -> (o: T)
            requires
                j < vocab,
            ensures
                o == entry(j as int)
            {
                let ghost term = |i: int| x.added_by(adapters@[i], row@, j as int);
                let total = x.gather(
                    x.zero(),
                    n,
                    |i: usize| -> (o: T)
                        requires
                            i < n,
                        ensures
                            o == term(i as int)
                        {
                            assert(parts@[i as int]@.len() == vocab);
                            parts[i][j]
                        },
                    Ghost(term),
                );
                x.plus(row[j], total)
            },
        Ghost(entry),
    )
}

/// Applies adapters on the host. Every adapter reads the untouched row of
/// logits, and all that they add is summed before it is added to the row.
pub fn apply_adapters_to_logits<
    T: Copy,
    F: Fn(ScalarOp, T, T) -> T,
    C: Fn(Number) -> T,
    Z: Fn(Relation, T, T) -> bool,
>(
    x: &Scalars<T, F, C, Z>,
    logits: &HostTensor<T>,
    adapters: &Vec<HostAdapter<T>>,
    hidden_size: usize,
) -> (result: Result<HostTensor<T>, Error>)
    requires
        x.wf(),
        logits.wf(),
        adapters@.len() > 0 && logits.dims@.len() != 2 && logits.dims@.len() > 0
            ==> logits.dims@.last() > 0,
        first_refusal(
            shapes_of(adapters@),
            hidden_size,
            as_matrix(logits.dims@).1 as usize,
            true,
            adapters@.len() as int,
        ) is None ==> forall|i: int|
            0 <= i < adapters@.len() ==> {
                let adapter = #[trigger] adapters@[i];
                let vocab = as_matrix(logits.dims@).1;
                adapter.shape.a@[0] * vocab <= adapter.a@.len() && vocab * adapter.shape.a@[0]
                    <= adapter.b@.len()
            },
    ensures
        adapters@.len() == 0 ==> (result matches Ok(out) && out.data@ == logits.data@ && out.dims@
            == logits.dims@),
        adapters@.len() > 0 ==> {
            let (seq_len, vocab) = as_matrix(logits.dims@);
            match first_refusal(
                shapes_of(adapters@),
                hidden_size,
                vocab as usize,
                true,
                adapters@.len() as int,
            ) {
                Some(e) => result == Err::<HostTensor<T>, Error>(e),
                None => result matches Ok(out) && out.dims@ == logits.dims@ && out.data@.len()
                    == logits.data@.len() && forall|t: int, j: int|
                    0 <= t < seq_len && 0 <= j < vocab ==> #[trigger] entry_at(out.data@, vocab, t, j)
                        == x.adapted_logit(logits.data@, vocab as nat, adapters@, t, j)
                    && out.data@ == x.adapted_rows(
                    logits.data@,
                    seq_len as nat,
                    vocab as nat,
                    adapters@,
                ),
            }
        },
{
    let n: usize = adapters.len();
    let elements: usize = logits.data.len();
    let dims = copy_range(logits.dims.as_slice(), 0, logits.dims.len());
    assert(dims@ =~= logits.dims@);
    if n == 0 {
        let data = copy_range(logits.data.as_slice(), 0, elements);
        assert(data@ =~= logits.data@);
        return Ok(HostTensor { data, dims });
    }
    let (seq_len, vocab) = matrix_of(logits);
    for i in 0..n
        invariant
            n == adapters@.len(),
            first_refusal(shapes_of(adapters@), hidden_size, vocab, true, i as int) is None,
            forall|k: int| 0 <= k < i ==> (#[trigger] adapters@[k]).shape.a@.len() >= 2,
            n > 0,
            as_matrix(logits.dims@) == (seq_len as int, vocab as int),
    {
        assert(shapes_of(adapters@)[i as int] == adapters@[i as int].shape);
        match check_adapter(&adapters[i].shape, hidden_size, vocab, true) {
            Ok(_) => {},
            Err(e) => {
                proof {
                    assert(first_refusal(shapes_of(adapters@), hidden_size, vocab, true, i + 1)
                        == Some(e));
                    lemma_refusal_stays(
                        shapes_of(adapters@),
                        hidden_size,
                        vocab,
                        true,
                        i + 1,
                        n as int,
                    );
                }
                return Err(e);
            },
        }
    }
    let mut data: Vec<T> = Vec::new();
    assert(0 * vocab == 0);
    for t in 0..seq_len
        invariant
            x.wf(),
            elements == logits.data@.len(),
            elements == seq_len * vocab,
            forall|i: int|
                0 <= i < adapters@.len() ==> {
                    let adapter = #[trigger] adapters@[i];
                    adapter.shape.a@.len() >= 1 && adapter.shape.a@[0] * vocab <= adapter.a@.len()
                        && vocab * adapter.shape.a@[0] <= adapter.b@.len()
                },
            data@.len() == t * vocab,
            forall|s: int, j: int|
                0 <= s < t && 0 <= j < vocab ==> #[trigger] entry_at(data@, vocab as int, s, j)
                    == x.adapted_logit(logits.data@, vocab as nat, adapters@, s, j),
    {
        proof {
            lemma_row_bounds(t as int, seq_len as int, vocab as int);
            assert((t + 1) * vocab == t * vocab + vocab) by (nonlinear_arith);
        }
        let row = copy_range(logits.data.as_slice(), t * vocab, vocab);
        assert(row@ =~= logits.data@.subrange(t * vocab, t * vocab + vocab));
        let ghost before = data@;
        let out = adapt_row(x, row.as_slice(), adapters);
        append_all(&mut data, out.as_slice());
        proof {
            assert forall|s: int, j: int|
                0 <= s < t + 1 && 0 <= j < vocab implies #[trigger] entry_at(
                data@,
                vocab as int,
                s,
                j,
            ) == x.adapted_logit(logits.data@, vocab as nat, adapters@, s, j) by {
                if s < t {
                    lemma_row_bounds(s, t as int, vocab as int);
                    assert(entry_at(before, vocab as int, s, j) == x.adapted_logit(
                        logits.data@,
                        vocab as nat,
                        adapters@,
                        s,
                        j,
                    ));
                } else {
                    assert(data@[t * vocab + j] == out@[j]);
                }
            }
        }
    }
    proof {
        let want = x.adapted_rows(logits.data@, seq_len as nat, vocab as nat, adapters@);
        assert forall|p: int| 0 <= p < data@.len() implies data@[p] == want[p] by {
            lemma_flat_index(p, seq_len as int, vocab as int);
            let (t, j) = (p / vocab as int, p % vocab as int);
            assert(entry_at(data@, vocab as int, t, j) == x.adapted_logit(
                logits.data@,
                vocab as nat,
                adapters@,
                t,
                j,
            ));
        }
        assert(data@ =~= want);
    }
    Ok(HostTensor { data, dims })
}

proof fn lemma_one_term_out<
    T: Copy,
    F: Fn(ScalarOp, T, T) -> T,
    C: Fn(Number) -> T,
    Z: Fn(Relation, T, T) -> bool,
>(x: &Scalars<T, F, C, Z>, n: nat, f: spec_fn(int) -> T, g: spec_fn(int) -> T, i: int)
    requires
        x.ring(),
        0 <= i < n,
        forall|k: int| 0 <= k < i ==> #[trigger] g(k) == f(k),
        forall|k: int| i <= k < n - 1 ==> #[trigger] g(k) == f(k + 1),
    ensures
        x.gathered(x.zero(), n, f) == x.plus(x.gathered(x.zero(), (n - 1) as nat, g), f(i)),
    decreases n,
{
    if i == n - 1 {
        x.lemma_gathered_same(x.zero(), (n - 1) as nat, f, g);
    } else {
        lemma_one_term_out(x, (n - 1) as nat, f, g, i);
        let rest = x.gathered(x.zero(), (n - 2) as nat, g);
        assert(g(n - 2) == f(n - 1));
        x.plus_assoc(rest, f(i), f(n - 1));
        x.plus_comm(f(i), f(n - 1));
        x.plus_assoc(rest, f(n - 1), f(i));
    }
}

/// What adapters add to a logit does not depend on their order.
pub proof fn law_adapters_in_any_order<
    T: Copy,
    F: Fn(ScalarOp, T, T) -> T,
    C: Fn(Number) -> T,
    Z: Fn(Relation, T, T) -> bool,
>(
    x: &Scalars<T, F, C, Z>,
    logits: Seq<T>,
    vocab: nat,
    adapters: Seq<HostAdapter<T>>,
    other: Seq<HostAdapter<T>>,
    t: int,
    j: int,
)
    requires
        x.ring(),
        adapters.to_multiset() == other.to_multiset(),
    ensures
        x.adapted_logit(logits, vocab, adapters, t, j) == x.adapted_logit(
            logits,
            vocab,
            other,
            t,
            j,
        ),
    decreases adapters.len(),
{
    broadcast use vstd::seq_lib::group_to_multiset_ensures;

    let row = logits.subrange(t * vocab, t * vocab + vocab);
    let n = adapters.len();
    assert(adapters.to_multiset().len() == n && other.to_multiset().len() == other.len());
    assert(other.len() == n);
    let f = |i: int| x.added_by(adapters[i], row, j);
    let g = |i: int| x.added_by(other[i], row, j);
    if n > 0 {
        let last = adapters.last();
        assert(adapters.contains(last));
        assert(other.to_multiset().count(last) > 0);
        assert(other.contains(last));
        let at = choose|at: int| 0 <= at < other.len() && other[at] == last;
        let fewer = adapters.drop_last();
        let rest = other.remove(at);
        assert(fewer =~= adapters.remove(n - 1));
        assert(fewer.to_multiset() == adapters.to_multiset().remove(last));
        assert(rest.to_multiset() == other.to_multiset().remove(last));
        law_adapters_in_any_order(x, logits, vocab, fewer, rest, t, j);
        let f2 = |i: int| x.added_by(fewer[i], row, j);
        let g2 = |i: int| x.added_by(rest[i], row, j);
        let zero = x.zero();
        x.lemma_gathered_same(zero, (n - 1) as nat, f, f2);
        assert forall|k: int| 0 <= k < at implies #[trigger] g2(k) == g(k) by {
            assert(rest[k] == other[k]);
        }
        assert forall|k: int| at <= k < n - 1 implies #[trigger] g2(k) == g(k + 1) by {
            assert(rest[k] == other[k + 1]);
        }
        lemma_one_term_out(x, n, g, g2, at);
        let base = logits[t * vocab + j];
        let (sf, sg) = (
            x.gathered(zero, (n - 1) as nat, f2),
            x.gathered(zero, (n - 1) as nat, g2),
        );
        assert(x.plus(base, sf) == x.plus(base, sg));
        x.plus_assoc(base, sf, f(n - 1));
        x.plus_assoc(base, sg, g(at));
        assert(f(n - 1) == g(at));
    }
}

/// No adapter feeds another: one more adapter adds what it makes of the
/// untouched row, whatever the others add.
pub proof fn law_adapters_read_untouched_rows<
    T: Copy,
    F: Fn(ScalarOp, T, T) -> T,
    C: Fn(Number) -> T,
    Z: Fn(Relation, T, T) -> bool,
>(
    x: &Scalars<T, F, C, Z>,
    logits: Seq<T>,
    vocab: nat,
    adapters: Seq<HostAdapter<T>>,
    more: HostAdapter<T>,
    t: int,
    j: int,
)
    requires
        x.ring(),
    ensures
        x.adapted_logit(logits, vocab, adapters.push(more), t, j) == x.plus(
            x.adapted_logit(logits, vocab, adapters, t, j),
            x.added_by(more, logits.subrange(t * vocab, t * vocab + vocab), j),
        ),
{
    let row = logits.subrange(t * vocab, t * vocab + vocab);
    let all = adapters.push(more);
    let n = adapters.len();
    let f = |i: int| x.added_by(all[i], row, j);
    let g = |i: int| x.added_by(adapters[i], row, j);
    x.lemma_gathered_same(x.zero(), n, f, g);
    x.plus_assoc(logits[t * vocab + j], x.gathered(x.zero(), n, g), f(n as int));
}

} // verus!
