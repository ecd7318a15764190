//! The state-space part of a Falcon-H1 layer, one token of which is offered to the
//! device first.

use crate::block_program::Activation;
use crate::error::Error;
use crate::falcon_h1::{
    after_device_conv, after_device_scan, conv_rows, conv_state_for_device, gate_rows,
    lemma_scan_shape, rate_rows, ssm_runner, FalconH1Config, FalconH1LayerCache, SsmRunner,
};
use crate::kernels::{activate_row, step_size_of};
use crate::mamba::{
    convolve_on_host, law_token_by_token_matches_prefill, scan_rows_on_host, FalconH1Block,
};
use crate::rows::{copy_range, stacked, suffix, take_columns, transposed};
use crate::scalar::{fill_row, Number, Relation, ScalarOp, Scalars};
use vstd::prelude::*;

verus! {

/// How a kernel of the device ended.
#[derive(Debug)]
pub enum DeviceRun<R> {
    Done(R),
    /// The device cannot do it.
    Unimplemented,
    /// It failed.
    Failed,
}

/// What the convolution kernel reads: the raw row of a token, the taps and the
/// bias of every channel, and the kept rows, channel by channel.
pub struct ConvInputs<T> {
    pub row: Vec<T>,
    pub taps: Vec<T>,
    pub bias: Vec<T>,
    pub state: Vec<T>,
}

/// What the scan kernel reads of one token: the inputs of every channel, the
/// step size, decay and passage of every head, what opens and what reads the
/// cells, the cells, and how many heads there are, of how many cells and
/// channels each.
pub struct ScanInputs<T> {
    pub x: Vec<T>,
    pub dt: Vec<T>,
    pub a: Vec<T>,
    pub b: Vec<T>,
    pub c: Vec<T>,
    pub d: Vec<T>,
    pub state: Vec<T>,
    pub heads: usize,
    pub cells: usize,
    pub head_dim: usize,
}

/// What the scan kernel gives: a row, and the cells behind it.
pub struct ScanOutputs<T> {
    pub y: Vec<T>,
    pub state: Vec<T>,
}

/// The kernels of a device for one token: `conv` sums the taps of every channel,
/// `scan` runs one step of the scan.
pub struct SsmKernels<K, S> {
    pub conv: K,
    pub scan: S,
}

impl<T> ConvInputs<T> {
    /// These are the inputs of a token behind the rows that were kept.
    pub open spec fn of(
        &self,
        cfg: &FalconH1Config,
        w: &FalconH1Block<T>,
        kept: Seq<T>,
        ssm: Seq<T>,
    ) -> bool {
        &&& self.row@ == conv_rows(cfg, ssm, 1)
        &&& self.taps@ == w.ssm_conv_w@
        &&& self.bias@ == w.ssm_conv_b@
        &&& self.state@ == transposed(kept, (cfg.ssm_d_conv - 1) as nat, cfg.conv_dim() as nat)
    }
}

impl<T: Copy, F: Fn(ScalarOp, T, T) -> T, C: Fn(Number) -> T, Z: Fn(Relation, T, T) -> bool> Scalars<T, F, C, Z> {
    /// The step size of every head for a token.
    pub open spec fn step_sizes(
        &self,
        cfg: &FalconH1Config,
        w: &FalconH1Block<T>,
        ssm: Seq<T>,
    ) -> Seq<T> {
        Seq::new(
            cfg.ssm_dt_rank as nat,
            |h: int| self.step_size(rate_rows(cfg, ssm, 1)[h], w.ssm_dt_b@[h]),
        )
    }

    /// These are the inputs of a scan of one token.
    pub open spec fn scan_reads(
        &self,
        cfg: &FalconH1Config,
        w: &FalconH1Block<T>,
        xbc: Seq<T>,
        ssm: Seq<T>,
        state: Seq<T>,
        i: ScanInputs<T>,
    ) -> bool {
        let inner = cfg.ssm_d_inner as int;
        let cells = cfg.ssm_d_state as int;
        &&& i.x@ == xbc.subrange(0, inner)
        &&& i.dt@ == self.step_sizes(cfg, w, ssm)
        &&& i.a@ == w.ssm_a@
        &&& i.b@ == xbc.subrange(inner, inner + cells)
        &&& i.c@ == xbc.subrange(inner + cells, inner + 2 * cells)
        &&& i.d@ == w.ssm_d@
        &&& i.state@ == state
        &&& i.heads == cfg.ssm_dt_rank
        &&& i.cells == cfg.ssm_d_state
        &&& i.head_dim == cfg.scan_shape().head_dim
    }

    /// The sums of every channel, activated.
    pub open spec fn activated_sums(&self, cfg: &FalconH1Config, sums: Seq<T>) -> Seq<T> {
        Seq::new(cfg.conv_dim() as nat, |i: int| self.silu_of(sums[i]))
    }
}

/// Activates the sums of the convolution kernel, which may come with more behind
/// them.
pub fn activate_sums<
    T: Copy,
    F: Fn(ScalarOp, T, T) -> T,
    C: Fn(Number) -> T,
    Z: Fn(Relation, T, T) -> bool,
>(x: &Scalars<T, F, C, Z>, cfg: &FalconH1Config, sums: &[T]) -> (row: Vec<T>)
    requires
        x.wf(),
        cfg.scans(),
        cfg.conv_dim() <= sums@.len(),
    ensures
        row@ == x.activated_sums(cfg, sums@),
{
    proof {
        lemma_scan_shape(cfg);
    }
    let own = copy_range(sums, 0, cfg.ssm_conv_dim());
    let row = activate_row(x, Activation::Silu, own.as_slice());
    assert(row@ =~= x.activated_sums(cfg, sums@));
    row
}

/// The inputs of a scan of one token on the device.
pub fn scan_inputs<
    T: Copy,
    F: Fn(ScalarOp, T, T) -> T,
    C: Fn(Number) -> T,
    Z: Fn(Relation, T, T) -> bool,
>(
    x: &Scalars<T, F, C, Z>,
    cfg: &FalconH1Config,
    w: &FalconH1Block<T>,
    xbc_row: &[T],
    ssm_row: &[T],
    state: &[T],
) -> (r: ScanInputs<T>)
    requires
        x.wf(),
        cfg.scans(),
        w.wf(cfg),
        xbc_row@.len() == cfg.conv_dim(),
        ssm_row@.len() == cfg.in_dim(),
    ensures
        x.scan_reads(cfg, w, xbc_row@, ssm_row@, state@, r),
{
    proof {
        lemma_scan_shape(cfg);
        assert(1 * cfg.in_dim() == cfg.in_dim());
    }
    let d: usize = cfg.ssm_d_inner;
    let s: usize = cfg.ssm_d_state;
    let heads: usize = cfg.ssm_dt_rank;
    let rates = take_columns(
        ssm_row,
        1,
        cfg.ssm_in_dim(),
        cfg.ssm_d_inner + cfg.ssm_conv_dim(),
        heads,
    );
    assert(rates@ == rate_rows(cfg, ssm_row@, 1));
    assert(rates@.len() == heads);
    let ghost cell = |h: int| x.step_size(rates@[h], w.ssm_dt_b@[h]);
    let dt = fill_row(
        heads,
        |h: usize| -> (o: T)
            requires
                h < heads,
            ensures
                o == cell(h as int)
            { step_size_of(x, rates[h], w.ssm_dt_b[h]) },
        Ghost(cell),
    );
    assert(dt@ =~= x.step_sizes(cfg, w, ssm_row@));
    let r = ScanInputs {
        x: copy_range(xbc_row, 0, d),
        dt,
        a: copy_range(w.ssm_a.as_slice(), 0, w.ssm_a.len()),
        b: copy_range(xbc_row, d, s),
        c: copy_range(xbc_row, d + s, s),
        d: copy_range(w.ssm_d.as_slice(), 0, w.ssm_d.len()),
        state: copy_range(state, 0, state.len()),
        heads,
        cells: s,
        head_dim: d / heads,
    };
    assert(r.a@ =~= w.ssm_a@);
    assert(r.d@ =~= w.ssm_d@);
    assert(r.state@ =~= state@);
    r
}

/// What a kernel that ended gave.
pub open spec fn rows_given<T>(run: DeviceRun<Vec<T>>) -> DeviceRun<Seq<T>> {
    match run {
        DeviceRun::Done(rows) => DeviceRun::Done(rows@),
        DeviceRun::Unimplemented => DeviceRun::Unimplemented,
        DeviceRun::Failed => DeviceRun::Failed,
    }
}

/// What a scan that ended gave: a row and cells.
pub open spec fn scan_given<T>(run: DeviceRun<ScanOutputs<T>>) -> DeviceRun<(Seq<T>, Seq<T>)> {
    match run {
        DeviceRun::Done(o) => DeviceRun::Done((o.y@, o.state@)),
        DeviceRun::Unimplemented => DeviceRun::Unimplemented,
        DeviceRun::Failed => DeviceRun::Failed,
    }
}

impl<K, S> SsmKernels<K, S> {
    /// The convolution of a token behind the rows that were kept ended so.
    pub open spec fn convolved<T>(
        &self,
        cfg: &FalconH1Config,
        w: &FalconH1Block<T>,
        kept: Seq<T>,
        ssm: Seq<T>,
        outcome: DeviceRun<Seq<T>>,
    ) -> bool where K: Fn(ConvInputs<T>) -> DeviceRun<Vec<T>> {
        exists|i: ConvInputs<T>, o: DeviceRun<Vec<T>>|
            i.of(cfg, w, kept, ssm) && outcome == rows_given(o) && #[trigger] call_ensures(
                self.conv,
                (i,),
                o,
            )
    }

    /// The scan of a token ended so.
    pub open spec fn scanned<
        T: Copy,
        F: Fn(ScalarOp, T, T) -> T,
        C: Fn(Number) -> T,
        Z: Fn(Relation, T, T) -> bool,
    >(
        &self,
        x: &Scalars<T, F, C, Z>,
        cfg: &FalconH1Config,
        w: &FalconH1Block<T>,
        xbc: Seq<T>,
        ssm: Seq<T>,
        state: Seq<T>,
        outcome: DeviceRun<(Seq<T>, Seq<T>)>,
    ) -> bool where S: Fn(ScanInputs<T>) -> DeviceRun<ScanOutputs<T>> {
        exists|i: ScanInputs<T>, o: DeviceRun<ScanOutputs<T>>|
            x.scan_reads(cfg, w, xbc, ssm, state, i) && outcome == scan_given(o)
                && #[trigger] call_ensures(self.scan, (i,), o)
    }

    /// The kernels run on a token of the layer, and give all its elements; one
    /// that convolves has rows to keep.
    pub open spec fn serve<T>(&self, cfg: &FalconH1Config) -> bool where
        K: Fn(ConvInputs<T>) -> DeviceRun<Vec<T>>,
        S: Fn(ScanInputs<T>) -> DeviceRun<ScanOutputs<T>>,
     {
        &&& forall|i: ConvInputs<T>|
            i.row@.len() == cfg.conv_dim() && i.state@.len() == (cfg.ssm_d_conv - 1)
                * cfg.conv_dim() ==> #[trigger] call_requires(self.conv, (i,))
        &&& forall|i: ConvInputs<T>, o: Vec<T>| #[trigger]
            call_ensures(self.conv, (i,), DeviceRun::Done(o)) && i.row@.len() == cfg.conv_dim()
                ==> o@.len() >= cfg.conv_dim() && cfg.ssm_d_conv >= 2
        &&& forall|i: ScanInputs<T>|
            i.x@.len() == cfg.ssm_d_inner && i.state@.len() == cfg.ssm_d_inner * cfg.ssm_d_state
                ==> #[trigger] call_requires(self.scan, (i,))
        &&& forall|i: ScanInputs<T>, o: ScanOutputs<T>| #[trigger]
            call_ensures(self.scan, (i,), DeviceRun::Done(o)) && i.x@.len() == cfg.ssm_d_inner
                ==> o.y@.len() >= cfg.ssm_d_inner && o.state@.len() >= cfg.ssm_d_inner
                * cfg.ssm_d_state
    }
}

impl<T: Copy, F: Fn(ScalarOp, T, T) -> T, C: Fn(Number) -> T, Z: Fn(Relation, T, T) -> bool> Scalars<T, F, C, Z> {
    /// The rows of a call were convolved to `xbc`: one token by the device, its
    /// sums activated, where it can; else by the host.
    pub open spec fn conv_ran<K, S>(
        &self,
        kernels: &SsmKernels<K, S>,
        cfg: &FalconH1Config,
        w: &FalconH1Block<T>,
        kept: Seq<T>,
        ssm: Seq<T>,
        tokens: nat,
        xbc: Seq<T>,
    ) -> bool where K: Fn(ConvInputs<T>) -> DeviceRun<Vec<T>> {
        ||| tokens == 1 && exists|sums: Seq<T>| #[trigger]
            kernels.convolved(cfg, w, kept, ssm, DeviceRun::Done(sums)) && xbc
                == self.activated_sums(cfg, sums)
        ||| (tokens == 1 ==> kernels.convolved(cfg, w, kept, ssm, DeviceRun::Unimplemented)) && xbc
            == self.convolved_rows(cfg, w, kept + conv_rows(cfg, ssm, tokens), tokens)
    }

    /// Convolved rows were scanned to `y`, and the cells to `after`: one token by
    /// the device where it can, else by the host.
    pub open spec fn scan_ran<K, S>(
        &self,
        kernels: &SsmKernels<K, S>,
        cfg: &FalconH1Config,
        w: &FalconH1Block<T>,
        xbc: Seq<T>,
        ssm: Seq<T>,
        tokens: nat,
        state: Seq<T>,
        after: Seq<T>,
        y: Seq<T>,
    ) -> bool where S: Fn(ScanInputs<T>) -> DeviceRun<ScanOutputs<T>> {
        let rates = rate_rows(cfg, ssm, tokens);
        ||| tokens == 1 && exists|o: (Seq<T>, Seq<T>)| #[trigger]
            kernels.scanned(self, cfg, w, xbc, ssm, state, DeviceRun::Done(o)) && y == o.0.take(
                cfg.ssm_d_inner as int,
            ) && after == o.1.take(cfg.ssm_d_inner * cfg.ssm_d_state)
        ||| (tokens == 1 ==> kernels.scanned(
            self,
            cfg,
            w,
            xbc,
            ssm,
            state,
            DeviceRun::Unimplemented,
        )) && y == self.scanned_rows(&cfg.scan_shape(), w, xbc, rates, state, tokens) && after
            == self.scanned_state(&cfg.scan_shape(), w, xbc, rates, state, tokens)
    }

    /// How the state-space part of a call ended: what was kept and the cells,
    /// before and behind it, and the gated rows. A kernel that fails ends it; what
    /// was convolved by then stays kept.
    pub open spec fn ssm_ended<K, S>(
        &self,
        kernels: &SsmKernels<K, S>,
        cfg: &FalconH1Config,
        w: &FalconH1Block<T>,
        kept: Seq<T>,
        state: Seq<T>,
        ssm: Seq<T>,
        tokens: nat,
        kept_after: Seq<T>,
        state_after: Seq<T>,
        out: Option<Seq<T>>,
    ) -> bool where
        K: Fn(ConvInputs<T>) -> DeviceRun<Vec<T>>,
        S: Fn(ScanInputs<T>) -> DeviceRun<ScanOutputs<T>>,
     {
        let slid = suffix(kept + conv_rows(cfg, ssm, tokens), kept.len());
        match out {
            Some(out) => kept_after == slid && exists|xbc: Seq<T>, y: Seq<T>|
                {
                    &&& #[trigger] self.conv_ran(kernels, cfg, w, kept, ssm, tokens, xbc)
                    &&& #[trigger] self.scan_ran(
                        kernels,
                        cfg,
                        w,
                        xbc,
                        ssm,
                        tokens,
                        state,
                        state_after,
                        y,
                    )
                    &&& out == self.gated_rows(cfg, ssm, y, tokens)
                },
            None => tokens == 1 && state_after == state && {
                ||| kernels.convolved(cfg, w, kept, ssm, DeviceRun::Failed) && kept_after == kept
                ||| kept_after == slid && exists|xbc: Seq<T>| #[trigger]
                    self.conv_ran(kernels, cfg, w, kept, ssm, tokens, xbc) && kernels.scanned(
                        self,
                        cfg,
                        w,
                        xbc,
                        ssm,
                        state,
                        DeviceRun::Failed,
                    )
            },
        }
    }
}

/// Offers the convolution of a token to the device: its sums come back
/// activated, and the kept inputs slide.
pub fn ssm_conv_step_device<
    T: Copy,
    F: Fn(ScalarOp, T, T) -> T,
    C: Fn(Number) -> T,
    Z: Fn(Relation, T, T) -> bool,
    K: Fn(ConvInputs<T>) -> DeviceRun<Vec<T>>,
    S: Fn(ScanInputs<T>) -> DeviceRun<ScanOutputs<T>>,
>(
    x: &Scalars<T, F, C, Z>,
    kernels: &SsmKernels<K, S>,
    cfg: &FalconH1Config,
    w: &FalconH1Block<T>,
    cache: &mut FalconH1LayerCache<T>,
    ssm_row: &[T],
) -> (r: DeviceRun<Vec<T>>)
    requires
        x.wf(),
        cfg.scans(),
        kernels.serve::<T>(cfg),
        old(cache).wf(cfg),
        ssm_row@.len() == cfg.in_dim(),
        cfg.ssm_d_conv * cfg.conv_dim() <= usize::MAX,
    ensures
        exists|outcome: DeviceRun<Seq<T>>|
            {
                &&& #[trigger] kernels.convolved(
                    cfg,
                    w,
                    old(cache).conv_state@,
                    ssm_row@,
                    outcome,
                )
                &&& rows_given(r) == (match outcome {
                    DeviceRun::Done(sums) => DeviceRun::Done(x.activated_sums(cfg, sums)),
                    other => other,
                })
            },
        r is Done ==> final(cache).conv_state@ == suffix(
            old(cache).conv_state@ + conv_rows(cfg, ssm_row@, 1),
            old(cache).conv_state@.len(),
        ),
        r !is Done ==> *final(cache) == *old(cache),
        final(cache).wf(cfg),
        final(cache).ssm_state == old(cache).ssm_state,
        final(cache).k_cache == old(cache).k_cache,
        final(cache).v_cache == old(cache).v_cache,
        final(cache).k_device == old(cache).k_device,
        final(cache).v_device == old(cache).v_device,
        final(cache).current_pos == old(cache).current_pos,
{
    proof {
        lemma_scan_shape(cfg);
        assert(1 * cfg.in_dim() == cfg.in_dim());
        assert(1 * cfg.conv_dim() == cfg.conv_dim());
    }
    let i = ConvInputs {
        row: take_columns(ssm_row, 1, cfg.ssm_in_dim(), cfg.ssm_d_inner, cfg.ssm_conv_dim()),
        taps: copy_range(w.ssm_conv_w.as_slice(), 0, w.ssm_conv_w.len()),
        bias: copy_range(w.ssm_conv_b.as_slice(), 0, w.ssm_conv_b.len()),
        state: conv_state_for_device(cfg, cache),
    };
    let ghost given = i;
    assert(given.taps@ =~= w.ssm_conv_w@);
    assert(given.bias@ =~= w.ssm_conv_b@);
    assert(given.of(cfg, w, cache.conv_state@, ssm_row@));
    let outcome = (kernels.conv)(i);
    assert(call_ensures(kernels.conv, (given,), outcome));
    assert(kernels.convolved(cfg, w, cache.conv_state@, ssm_row@, rows_given(outcome)));
    match outcome {
        DeviceRun::Done(sums) => {
            let row = activate_sums(x, cfg, sums.as_slice());
            after_device_conv(cfg, cache, ssm_row);
            DeviceRun::Done(row)
        },
        DeviceRun::Unimplemented => DeviceRun::Unimplemented,
        DeviceRun::Failed => DeviceRun::Failed,
    }
}

/// Offers the scan of a token to the device, and takes over the cells that it
/// left.
pub fn ssm_scan_step_device<
    T: Copy,
    F: Fn(ScalarOp, T, T) -> T,
    C: Fn(Number) -> T,
    Z: Fn(Relation, T, T) -> bool,
    K: Fn(ConvInputs<T>) -> DeviceRun<Vec<T>>,
    S: Fn(ScanInputs<T>) -> DeviceRun<ScanOutputs<T>>,
>(
    x: &Scalars<T, F, C, Z>,
    kernels: &SsmKernels<K, S>,
    cfg: &FalconH1Config,
    w: &FalconH1Block<T>,
    cache: &mut FalconH1LayerCache<T>,
    xbc_row: &[T],
    ssm_row: &[T],
) -> (r: DeviceRun<Vec<T>>)
    requires
        x.wf(),
        cfg.scans(),
        w.wf(cfg),
        kernels.serve::<T>(cfg),
        old(cache).wf(cfg),
        xbc_row@.len() == cfg.conv_dim(),
        ssm_row@.len() == cfg.in_dim(),
    ensures
        exists|outcome: DeviceRun<(Seq<T>, Seq<T>)>|
            {
                &&& #[trigger] kernels.scanned(
                    x,
                    cfg,
                    w,
                    xbc_row@,
                    ssm_row@,
                    old(cache).ssm_state@,
                    outcome,
                )
                &&& match outcome {
                    DeviceRun::Done(o) => rows_given(r) == DeviceRun::Done(
                        o.0.take(cfg.ssm_d_inner as int),
                    ) && final(cache).ssm_state@ == o.1.take(cfg.ssm_d_inner * cfg.ssm_d_state),
                    DeviceRun::Unimplemented => r is Unimplemented,
                    DeviceRun::Failed => r is Failed,
                }
            },
        r is Done ==> rows_given(r)->Done_0.len() == cfg.ssm_d_inner,
        r !is Done ==> *final(cache) == *old(cache),
        final(cache).wf(cfg),
        final(cache).conv_state == old(cache).conv_state,
        final(cache).k_cache == old(cache).k_cache,
        final(cache).v_cache == old(cache).v_cache,
        final(cache).k_device == old(cache).k_device,
        final(cache).v_device == old(cache).v_device,
        final(cache).current_pos == old(cache).current_pos,
{
    let i = scan_inputs(x, cfg, w, xbc_row, ssm_row, cache.ssm_state.as_slice());
    let ghost given = i;
    proof {
        lemma_scan_shape(cfg);
    }
    let outcome = (kernels.scan)(i);
    assert(call_ensures(kernels.scan, (given,), outcome));
    assert(kernels.scanned(
        x,
        cfg,
        w,
        xbc_row@,
        ssm_row@,
        cache.ssm_state@,
        scan_given(outcome),
    ));
    match outcome {
        DeviceRun::Done(o) => {
            after_device_scan(cfg, cache, o.state.as_slice());
            let y = copy_range(o.y.as_slice(), 0, cfg.ssm_d_inner);
            assert(y@ =~= o.y@.take(cfg.ssm_d_inner as int));
            DeviceRun::Done(y)
        },
        DeviceRun::Unimplemented => DeviceRun::Unimplemented,
        DeviceRun::Failed => DeviceRun::Failed,
    }
}

/// Runs the state-space part of a layer on the projected rows of a call: the
/// middle part of every row is convolved, scanned with the rates of its last
/// part, and gated by its first part. What the layer keeps moves on. One token
/// is offered to the device first.
pub fn mamba2_layer_cpu<
    T: Copy,
    F: Fn(ScalarOp, T, T) -> T,
    C: Fn(Number) -> T,
    Z: Fn(Relation, T, T) -> bool,
    K: Fn(ConvInputs<T>) -> DeviceRun<Vec<T>>,
    S: Fn(ScanInputs<T>) -> DeviceRun<ScanOutputs<T>>,
>(
    x: &Scalars<T, F, C, Z>,
    kernels: &SsmKernels<K, S>,
    cfg: &FalconH1Config,
    w: &FalconH1Block<T>,
    cache: &mut FalconH1LayerCache<T>,
    ssm: &[T],
    tokens: usize,
) -> (result: Result<Vec<T>, Error>)
    requires
        x.wf(),
        cfg.scans(),
        w.wf(cfg),
        kernels.serve::<T>(cfg),
        old(cache).wf(cfg),
        ssm@.len() == tokens * cfg.in_dim(),
        (cfg.ssm_d_conv - 1 + tokens) * cfg.conv_dim() <= usize::MAX,
        tokens * cfg.ssm_d_inner <= usize::MAX,
    ensures
        x.ssm_ended(
            kernels,
            cfg,
            w,
            old(cache).conv_state@,
            old(cache).ssm_state@,
            ssm@,
            tokens as nat,
            final(cache).conv_state@,
            final(cache).ssm_state@,
            (match result {
                Ok(out) => Some(out@),
                Err(_) => None,
            }),
        ),
        result matches Ok(out) ==> out@.len() == tokens * cfg.ssm_d_inner,
        result matches Err(e) ==> e == Error::KernelLost,
        final(cache).wf(cfg),
        final(cache).k_cache == old(cache).k_cache,
        final(cache).v_cache == old(cache).v_cache,
        final(cache).k_device == old(cache).k_device,
        final(cache).v_device == old(cache).v_device,
        final(cache).current_pos == old(cache).current_pos,
{
    proof {
        lemma_scan_shape(cfg);
        assert(1 * cfg.in_dim() == cfg.in_dim());
        assert(1 * cfg.conv_dim() == cfg.conv_dim());
        assert(tokens == 1 ==> (cfg.ssm_d_conv - 1 + tokens) * cfg.conv_dim() == cfg.ssm_d_conv
            * cfg.conv_dim());
    }
    let ghost kept = cache.conv_state@;
    let ghost state = cache.ssm_state@;
    let ghost n = tokens as nat;
    let one: bool = match ssm_runner(tokens) {
        SsmRunner::DeviceFirst => true,
        SsmRunner::Host => false,
    };
    let tried = if one {
        ssm_conv_step_device(x, kernels, cfg, w, cache, ssm)
    } else {
        DeviceRun::Unimplemented
    };
    let xbc = match tried {
        DeviceRun::Done(row) => row,
        DeviceRun::Unimplemented => convolve_on_host(x, cfg, w, cache, ssm, tokens),
        DeviceRun::Failed => {
            return Err(Error::KernelLost);
        },
    };
    assert(x.conv_ran(kernels, cfg, w, kept, ssm@, n, xbc@));
    assert(xbc@.len() == tokens * cfg.conv_dim());
    let tried = if one {
        ssm_scan_step_device(x, kernels, cfg, w, cache, xbc.as_slice(), ssm)
    } else {
        DeviceRun::Unimplemented
    };
    let y = match tried {
        DeviceRun::Done(row) => row,
        DeviceRun::Unimplemented => scan_rows_on_host(x, cfg, w, cache, &xbc, ssm, tokens),
        DeviceRun::Failed => {
            return Err(Error::KernelLost);
        },
    };
    assert(x.scan_ran(kernels, cfg, w, xbc@, ssm@, n, state, cache.ssm_state@, y@));
    assert(y@.len() == tokens * cfg.ssm_d_inner);
    Ok(gate_rows(x, cfg, ssm, y.as_slice(), tokens))
}

impl<K, S> SsmKernels<K, S> {
    /// The kernels compute what the host computes: activated, the sums of a
    /// token are its convolved row, and the scan of a token gives its row and
    /// leaves its cells.
    pub open spec fn agree<
        T: Copy,
        F: Fn(ScalarOp, T, T) -> T,
        C: Fn(Number) -> T,
        Z: Fn(Relation, T, T) -> bool,
    >(&self, x: &Scalars<T, F, C, Z>, cfg: &FalconH1Config, w: &FalconH1Block<T>) -> bool where
        K: Fn(ConvInputs<T>) -> DeviceRun<Vec<T>>,
        S: Fn(ScanInputs<T>) -> DeviceRun<ScanOutputs<T>>,
     {
        &&& forall|kept: Seq<T>, ssm: Seq<T>, sums: Seq<T>| #[trigger]
            self.convolved(cfg, w, kept, ssm, DeviceRun::Done(sums)) && ssm.len() == cfg.in_dim()
                && kept.len() == (cfg.ssm_d_conv - 1) * cfg.conv_dim() ==> x.activated_sums(
                cfg,
                sums,
            ) == x.convolved_rows(cfg, w, kept + conv_rows(cfg, ssm, 1), 1)
        &&& forall|xbc: Seq<T>, ssm: Seq<T>, state: Seq<T>, o: (Seq<T>, Seq<T>)| #[trigger]
            self.scanned(x, cfg, w, xbc, ssm, state, DeviceRun::Done(o)) && xbc.len()
                == cfg.conv_dim() && ssm.len() == cfg.in_dim() && state.len() == cfg.ssm_d_inner
                * cfg.ssm_d_state ==> {
                let rates = rate_rows(cfg, ssm, 1);
                let shape = cfg.scan_shape();
                &&& o.0.take(cfg.ssm_d_inner as int) == x.scanned_rows(
                    &shape,
                    w,
                    xbc,
                    rates,
                    state,
                    1,
                )
                &&& o.1.take(cfg.ssm_d_inner * cfg.ssm_d_state) == x.scanned_state(
                    &shape,
                    w,
                    xbc,
                    rates,
                    state,
                    1,
                )
            }
    }
}

/// Where a token runs does not matter: with kernels that compute what the host
/// computes, the state-space part gives the rows, and leaves the cells, that the
/// host gives and leaves for the call.
pub proof fn law_device_matches_host<
    T: Copy,
    F: Fn(ScalarOp, T, T) -> T,
    C: Fn(Number) -> T,
    Z: Fn(Relation, T, T) -> bool,
    K: Fn(ConvInputs<T>) -> DeviceRun<Vec<T>>,
    S: Fn(ScanInputs<T>) -> DeviceRun<ScanOutputs<T>>,
>(
    x: &Scalars<T, F, C, Z>,
    kernels: &SsmKernels<K, S>,
    cfg: &FalconH1Config,
    w: &FalconH1Block<T>,
    kept: Seq<T>,
    state: Seq<T>,
    ssm: Seq<T>,
    tokens: nat,
    kept_after: Seq<T>,
    state_after: Seq<T>,
    out: Seq<T>,
)
    requires
        cfg.scans(),
        kernels.agree(x, cfg, w),
        kept.len() == (cfg.ssm_d_conv - 1) * cfg.conv_dim(),
        state.len() == cfg.ssm_d_inner * cfg.ssm_d_state,
        ssm.len() == tokens * cfg.in_dim(),
        x.ssm_ended(
            kernels,
            cfg,
            w,
            kept,
            state,
            ssm,
            tokens,
            kept_after,
            state_after,
            Some(out),
        ),
    ensures
        out == x.layer_rows(cfg, w, kept, state, ssm, tokens),
        state_after == x.layer_state(cfg, w, kept, state, ssm, tokens),
        kept_after == suffix(kept + conv_rows(cfg, ssm, tokens), kept.len()),
{
    lemma_scan_shape(cfg);
    assert(1 * cfg.in_dim() == cfg.in_dim());
    assert(1 * cfg.conv_dim() == cfg.conv_dim());
    let (xbc, y) = choose|xbc: Seq<T>, y: Seq<T>|
        {
            &&& #[trigger] x.conv_ran(kernels, cfg, w, kept, ssm, tokens, xbc)
            &&& #[trigger] x.scan_ran(kernels, cfg, w, xbc, ssm, tokens, state, state_after, y)
            &&& out == x.gated_rows(cfg, ssm, y, tokens)
        };
    assert(xbc == x.convolved_rows(cfg, w, kept + conv_rows(cfg, ssm, tokens), tokens));
}

/// A call of the state-space part: the projected rows it takes, the rows it keeps
/// and the cells it leaves, and the rows it gives.
pub struct SsmCall<T> {
    pub ssm: Seq<T>,
    pub kept: Seq<T>,
    pub cells: Seq<T>,
    pub out: Seq<T>,
}

/// The projected rows that calls take, each for itself.
pub open spec fn rows_taken<T>(calls: Seq<SsmCall<T>>) -> Seq<Seq<T>> {
    Seq::new(calls.len(), |k: int| calls[k].ssm)
}

/// The rows that calls give, each for itself.
pub open spec fn rows_made<T>(calls: Seq<SsmCall<T>>) -> Seq<Seq<T>> {
    Seq::new(calls.len(), |k: int| calls[k].out)
}

impl<T: Copy, F: Fn(ScalarOp, T, T) -> T, C: Fn(Number) -> T, Z: Fn(Relation, T, T) -> bool> Scalars<T, F, C, Z> {
    /// A call of `tokens` tokens ran through, behind the rows that were kept and
    /// the cells.
    pub open spec fn ssm_called<K, S>(
        &self,
        kernels: &SsmKernels<K, S>,
        cfg: &FalconH1Config,
        w: &FalconH1Block<T>,
        kept: Seq<T>,
        cells: Seq<T>,
        tokens: nat,
        call: SsmCall<T>,
    ) -> bool where
        K: Fn(ConvInputs<T>) -> DeviceRun<Vec<T>>,
        S: Fn(ScanInputs<T>) -> DeviceRun<ScanOutputs<T>>,
     {
        &&& call.ssm.len() == tokens * cfg.in_dim()
        &&& self.ssm_ended(
            kernels,
            cfg,
            w,
            kept,
            cells,
            call.ssm,
            tokens,
            call.kept,
            call.cells,
            Some(call.out),
        )
    }

    /// One call for every token, each behind what the one before it left.
    pub open spec fn ssm_decoded<K, S>(
        &self,
        kernels: &SsmKernels<K, S>,
        cfg: &FalconH1Config,
        w: &FalconH1Block<T>,
        kept: Seq<T>,
        cells: Seq<T>,
        calls: Seq<SsmCall<T>>,
    ) -> bool where
        K: Fn(ConvInputs<T>) -> DeviceRun<Vec<T>>,
        S: Fn(ScanInputs<T>) -> DeviceRun<ScanOutputs<T>>,
     {
        forall|k: int|
            0 <= k < calls.len() ==> self.ssm_called(
                kernels,
                cfg,
                w,
                if k == 0 {
                    kept
                } else {
                    calls[k - 1].kept
                },
                if k == 0 {
                    cells
                } else {
                    calls[k - 1].cells
                },
                1,
                #[trigger] calls[k],
            )
    }
}

/// Calls of one token each do what the host does token by token.
proof fn lemma_calls_token_by_token<
    T: Copy,
    F: Fn(ScalarOp, T, T) -> T,
    C: Fn(Number) -> T,
    Z: Fn(Relation, T, T) -> bool,
    K: Fn(ConvInputs<T>) -> DeviceRun<Vec<T>>,
    S: Fn(ScanInputs<T>) -> DeviceRun<ScanOutputs<T>>,
>(
    x: &Scalars<T, F, C, Z>,
    kernels: &SsmKernels<K, S>,
    cfg: &FalconH1Config,
    w: &FalconH1Block<T>,
    kept: Seq<T>,
    cells: Seq<T>,
    calls: Seq<SsmCall<T>>,
)
    requires
        cfg.scans(),
        kernels.agree(x, cfg, w),
        kept.len() == (cfg.ssm_d_conv - 1) * cfg.conv_dim(),
        cells.len() == cfg.ssm_d_inner * cfg.ssm_d_state,
        calls.len() >= 1,
        x.ssm_decoded(kernels, cfg, w, kept, cells, calls),
    ensures
        x.token_by_token(cfg, w, kept, cells, rows_taken(calls)) == (
            stacked(rows_made(calls)),
            calls.last().kept,
            calls.last().cells,
        ),
        calls.last().kept.len() == kept.len(),
        calls.last().cells.len() == cells.len(),
    decreases calls.len(),
{
    let n = calls.len();
    let last = calls.last();
    assert(last == calls[n - 1]);
    let fewer = calls.drop_last();
    assert(rows_taken(calls).drop_last() =~= rows_taken(fewer));
    assert(rows_made(calls).drop_last() =~= rows_made(fewer));
    let (kept_by, cells_by) = if n == 1 {
        (kept, cells)
    } else {
        (calls[n - 2].kept, calls[n - 2].cells)
    };
    if n == 1 {
        assert(rows_taken(fewer) =~= Seq::empty());
        assert(rows_made(fewer) =~= Seq::empty());
    } else {
        assert forall|k: int| 0 <= k < fewer.len() implies x.ssm_called(
            kernels,
            cfg,
            w,
            if k == 0 {
                kept
            } else {
                fewer[k - 1].kept
            },
            if k == 0 {
                cells
            } else {
                fewer[k - 1].cells
            },
            1,
            #[trigger] fewer[k],
        ) by {
            assert(fewer[k] == calls[k]);
        }
        lemma_calls_token_by_token(x, kernels, cfg, w, kept, cells, fewer);
        assert(fewer.last() == calls[n - 2]);
    }
    assert(x.ssm_called(kernels, cfg, w, kept_by, cells_by, 1, calls[n - 1]));
    law_device_matches_host(
        x,
        kernels,
        cfg,
        w,
        kept_by,
        cells_by,
        last.ssm,
        1,
        last.kept,
        last.cells,
        last.out,
    );
    let taken = rows_taken(calls);
    let before = x.token_by_token(cfg, w, kept, cells, rows_taken(fewer));
    assert(before == (stacked(rows_made(fewer)), kept_by, cells_by));
    assert(taken.len() == n && taken.last() == last.ssm);
    let (all, kept_all, cells_all) = x.token_by_token(cfg, w, kept, cells, taken);
    assert(all == before.0 + last.out);
    assert(kept_all == last.kept);
    assert(cells_all == last.cells);
    assert(rows_made(calls).last() == last.out);
}

/// Decoding matches prefill: calls of one token each, whichever of them the
/// device ran, give the rows that one call on all of their tokens gives, and
/// keep and leave the same.
pub proof fn law_ssm_decode_matches_prefill<
    T: Copy,
    F: Fn(ScalarOp, T, T) -> T,
    C: Fn(Number) -> T,
    Z: Fn(Relation, T, T) -> bool,
    K: Fn(ConvInputs<T>) -> DeviceRun<Vec<T>>,
    S: Fn(ScanInputs<T>) -> DeviceRun<ScanOutputs<T>>,
>(
    x: &Scalars<T, F, C, Z>,
    kernels: &SsmKernels<K, S>,
    cfg: &FalconH1Config,
    w: &FalconH1Block<T>,
    kept: Seq<T>,
    cells: Seq<T>,
    calls: Seq<SsmCall<T>>,
    prefill: SsmCall<T>,
)
    requires
        cfg.scans(),
        kernels.agree(x, cfg, w),
        kept.len() == (cfg.ssm_d_conv - 1) * cfg.conv_dim(),
        cells.len() == cfg.ssm_d_inner * cfg.ssm_d_state,
        calls.len() >= 1,
        x.ssm_decoded(kernels, cfg, w, kept, cells, calls),
        prefill.ssm == stacked(rows_taken(calls)),
        x.ssm_called(kernels, cfg, w, kept, cells, calls.len(), prefill),
    ensures
        prefill.out == stacked(rows_made(calls)),
        prefill.kept == calls.last().kept,
        prefill.cells == calls.last().cells,
{
    lemma_calls_token_by_token(x, kernels, cfg, w, kept, cells, calls);
    assert forall|k: int| 0 <= k < calls.len() implies (#[trigger] rows_taken(calls)[k]).len()
        == cfg.in_dim() by {
        assert(calls[k].ssm.len() == 1 * cfg.in_dim());
    }
    law_token_by_token_matches_prefill(x, cfg, w, kept, cells, rows_taken(calls));
    law_device_matches_host(
        x,
        kernels,
        cfg,
        w,
        kept,
        cells,
        prefill.ssm,
        calls.len(),
        prefill.kept,
        prefill.cells,
        prefill.out,
    );
}

} // verus!
