//! Decoding token by token and prefilling in one call give a Falcon-H1 layer the
//! same rows, whether its history lies on the device or on the host.

use crate::device::DeviceBuffer;
use crate::falcon_block::{
    law_block_in_two_calls, Arena, ArenaRows, FalconH1Part, FalconH1Rows, FalconH1State,
};
use crate::falcon_h1::{first_rows, ArenaAppend, FalconH1Config, FalconH1LayerCache};
use crate::mamba::FalconH1Block;
use crate::mamba_device::{
    law_device_matches_host, ConvInputs, DeviceRun, ScanInputs, ScanOutputs, SsmKernels,
};
use crate::rows::stacked;
use crate::scalar::{Number, Relation, ScalarOp, Scalars};
use crate::surroundings::{HeadShape, Surroundings};
use vstd::prelude::*;

verus! {

/// A call of a layer: the rows it takes and their positions, what its parts give
/// on the way, the rows it gives, and what it leaves to look back on.
pub struct FalconH1Call<T> {
    pub positions: Seq<u32>,
    pub input: Seq<T>,
    pub rows: FalconH1Rows<T>,
    pub out: Seq<T>,
    pub after: FalconH1State<T>,
}

impl<T: Copy, F: Fn(ScalarOp, T, T) -> T, C: Fn(Number) -> T, Z: Fn(Relation, T, T) -> bool> Scalars<T, F, C, Z> {
    /// A call ran on `tokens` tokens.
    pub open spec fn layer_called<G, R, H>(
        &self,
        outside: &Surroundings<G, R, H>,
        cfg: &FalconH1Config,
        w: &FalconH1Block<T>,
        tokens: nat,
        before: FalconH1State<T>,
        call: FalconH1Call<T>,
    ) -> bool where
        G: Fn(FalconH1Part, Vec<T>) -> Vec<T>,
        R: Fn(Vec<T>, Vec<u32>) -> Vec<T>,
        H: Fn(HeadShape, Vec<T>, Vec<T>, Vec<T>) -> Vec<T>,
     {
        &&& call.positions.len() == tokens
        &&& call.input.len() == tokens * cfg.hidden_size
        &&& self.layer_ran(
            outside,
            cfg,
            w,
            call.positions,
            before,
            call.after,
            call.input,
            call.rows,
            call.out,
        )
    }

    /// One call for every token: each takes one row, and starts from what the
    /// one before it left.
    pub open spec fn layer_decoded<G, R, H>(
        &self,
        outside: &Surroundings<G, R, H>,
        cfg: &FalconH1Config,
        w: &FalconH1Block<T>,
        before: FalconH1State<T>,
        calls: Seq<FalconH1Call<T>>,
    ) -> bool where
        G: Fn(FalconH1Part, Vec<T>) -> Vec<T>,
        R: Fn(Vec<T>, Vec<u32>) -> Vec<T>,
        H: Fn(HeadShape, Vec<T>, Vec<T>, Vec<T>) -> Vec<T>,
     {
        forall|k: int|
            0 <= k < calls.len() ==> self.layer_called(
                outside,
                cfg,
                w,
                1,
                if k == 0 {
                    before
                } else {
                    calls[k - 1].after
                },
                #[trigger] calls[k],
            )
    }
}

/// The positions of calls, one after the other.
pub open spec fn positions_of<T>(calls: Seq<FalconH1Call<T>>) -> Seq<u32> {
    stacked(Seq::new(calls.len(), |k: int| calls[k].positions))
}

/// The rows that calls take, one after the other.
pub open spec fn inputs_of<T>(calls: Seq<FalconH1Call<T>>) -> Seq<T> {
    stacked(Seq::new(calls.len(), |k: int| calls[k].input))
}

/// The rows that calls give, one after the other.
pub open spec fn outs_of<T>(calls: Seq<FalconH1Call<T>>) -> Seq<T> {
    stacked(Seq::new(calls.len(), |k: int| calls[k].out))
}

proof fn lemma_calls_unfold<T>(calls: Seq<FalconH1Call<T>>)
    requires
        calls.len() > 0,
    ensures
        positions_of(calls) == positions_of(calls.drop_last()) + calls.last().positions,
        inputs_of(calls) == inputs_of(calls.drop_last()) + calls.last().input,
        outs_of(calls) == outs_of(calls.drop_last()) + calls.last().out,
{
    let n = calls.len();
    let positions = Seq::new(n, |k: int| calls[k].positions);
    let inputs = Seq::new(n, |k: int| calls[k].input);
    let outs = Seq::new(n, |k: int| calls[k].out);
    let fewer = calls.drop_last();
    assert(positions.drop_last() =~= Seq::new(fewer.len(), |k: int| fewer[k].positions));
    assert(inputs.drop_last() =~= Seq::new(fewer.len(), |k: int| fewer[k].input));
    assert(outs.drop_last() =~= Seq::new(fewer.len(), |k: int| fewer[k].out));
}

/// Decoding token by token is prefilling: calls of one row each, sharing a
/// cache, give the rows that one call on all of them gives, and leave the same
/// to look back on. `prefills` are the calls on the first token, on the first
/// two, and so on.
pub proof fn law_layer_decode_matches_prefill<
    T: Copy,
    F: Fn(ScalarOp, T, T) -> T,
    C: Fn(Number) -> T,
    Z: Fn(Relation, T, T) -> bool,
    G: Fn(FalconH1Part, Vec<T>) -> Vec<T>,
    R: Fn(Vec<T>, Vec<u32>) -> Vec<T>,
    H: Fn(HeadShape, Vec<T>, Vec<T>, Vec<T>) -> Vec<T>,
>(
    x: &Scalars<T, F, C, Z>,
    outside: &Surroundings<G, R, H>,
    cfg: &FalconH1Config,
    w: &FalconH1Block<T>,
    held: nat,
    before: FalconH1State<T>,
    calls: Seq<FalconH1Call<T>>,
    prefills: Seq<FalconH1Call<T>>,
)
    requires
        calls.len() >= 1,
        prefills.len() == calls.len(),
        forall|k: nat| 1 <= k < calls.len() ==> #[trigger] cfg.by_rows::<T, G, R, H, G, R, H, G, R, H>(
            outside,
            outside,
            outside,
            held,
            k,
            1,
        ),
        cfg.scans(),
        cfg.q_width() == cfg.hidden_size,
        cfg.starts(held, before),
        x.layer_decoded(outside, cfg, w, before, calls),
        forall|k: int|
            0 <= k < calls.len() ==> {
                &&& x.layer_called(
                    outside,
                    cfg,
                    w,
                    (k + 1) as nat,
                    before,
                    #[trigger] prefills[k],
                )
                &&& prefills[k].input == inputs_of(calls.take(k + 1))
                &&& prefills[k].positions == positions_of(calls.take(k + 1))
            },
        prefills[0] == calls[0],
    ensures
        prefills.last().out == outs_of(calls),
        prefills.last().after == calls.last().after,
    decreases calls.len(),
{
    let n = calls.len();
    let last = n - 1;
    assert(calls.take(n as int) =~= calls);
    lemma_calls_unfold(calls);
    if n == 1 {
        assert(calls.drop_last().len() == 0);
        assert(outs_of(calls) =~= calls[0].out);
    } else {
        let fewer = calls.drop_last();
        let shorter = prefills.drop_last();
        assert forall|k: int| 0 <= k < fewer.len() implies x.layer_called(
            outside,
            cfg,
            w,
            1,
            if k == 0 {
                before
            } else {
                fewer[k - 1].after
            },
            #[trigger] fewer[k],
        ) by {
            assert(fewer[k] == calls[k]);
        }
        assert forall|k: int| 0 <= k < fewer.len() implies {
            &&& x.layer_called(outside, cfg, w, (k + 1) as nat, before, #[trigger] shorter[k])
            &&& shorter[k].input == inputs_of(fewer.take(k + 1))
            &&& shorter[k].positions == positions_of(fewer.take(k + 1))
        } by {
            assert(shorter[k] == prefills[k]);
            assert(fewer.take(k + 1) =~= calls.take(k + 1));
        }
        law_layer_decode_matches_prefill(x, outside, cfg, w, held, before, fewer, shorter);
        assert(shorter.last() == prefills[last - 1]);
        assert(fewer.last() == calls[last - 1]);
        assert(calls.take(last) =~= fewer);
        assert(calls[last] == calls.last());
        assert(prefills[last] == prefills.last());
        law_block_in_two_calls(
            x,
            outside,
            outside,
            outside,
            cfg,
            w,
            held,
            prefills[last - 1].positions,
            calls[last].positions,
            before,
            calls[last - 1].after,
            calls[last].after,
            prefills[last].after,
            prefills[last - 1].input,
            calls[last].input,
            prefills[last - 1].rows,
            calls[last].rows,
            prefills[last].rows,
            prefills[last - 1].out,
            calls[last].out,
            prefills[last].out,
        );
    }
}

/// A call whose device keeps no history runs over the host's: with kernels that
/// compute what the host computes, it is a call of the layer on what the cache
/// holds.
pub proof fn law_mirrored_call_runs<
    T: Copy,
    F: Fn(ScalarOp, T, T) -> T,
    C: Fn(Number) -> T,
    Z: Fn(Relation, T, T) -> bool,
    A: Fn(ArenaRows<T>) -> ArenaAppend,
    D: Fn(HeadShape, Vec<T>, DeviceBuffer, DeviceBuffer, usize, usize) -> Option<Vec<T>>,
    E: Fn(DeviceBuffer, DeviceBuffer) -> Option<(Vec<T>, Vec<T>)>,
    G: Fn(FalconH1Part, Vec<T>) -> Vec<T>,
    R: Fn(Vec<T>, Vec<u32>) -> Vec<T>,
    H: Fn(HeadShape, Vec<T>, Vec<T>, Vec<T>) -> Vec<T>,
    K: Fn(ConvInputs<T>) -> DeviceRun<Vec<T>>,
    S: Fn(ScanInputs<T>) -> DeviceRun<ScanOutputs<T>>,
>(
    x: &Scalars<T, F, C, Z>,
    arena: &Arena<A, D, E>,
    outside: &Surroundings<G, R, H>,
    kernels: &SsmKernels<K, S>,
    cfg: &FalconH1Config,
    w: &FalconH1Block<T>,
    positions: Seq<u32>,
    h: Seq<T>,
    rows: FalconH1Rows<T>,
    before: FalconH1LayerCache<T>,
    after: FalconH1LayerCache<T>,
    out: Seq<T>,
)
    requires
        cfg.scans(),
        kernels.agree(x, cfg, w),
        before.wf(cfg),
        x.layer_ended(
            arena,
            outside,
            kernels,
            cfg,
            w,
            positions,
            h,
            rows,
            ArenaAppend::Unimplemented,
            before,
            after,
            Ok(out),
        ),
    ensures
        x.layer_ran(
            outside,
            cfg,
            w,
            positions,
            before.held(),
            after.held(),
            h,
            rows,
            out,
        ),
{
    law_device_matches_host(
        x,
        kernels,
        cfg,
        w,
        before.conv_state@,
        before.ssm_state@,
        rows.ssm,
        positions.len(),
        after.conv_state@,
        after.ssm_state@,
        rows.gated,
    );
}

impl<A, D, E> Arena<A, D, E> {
    /// The buffers hold a history in their first rows: fetched, they give it,
    /// and attention on the device gives what attention over it gives.
    pub open spec fn holds<T, G, R, H>(
        &self,
        outside: &Surroundings<G, R, H>,
        heads: HeadShape,
        k: DeviceBuffer,
        v: DeviceBuffer,
        total: usize,
        tokens: nat,
        row: nat,
        keys: Seq<T>,
        values: Seq<T>,
    ) -> bool where
        H: Fn(HeadShape, Vec<T>, Vec<T>, Vec<T>) -> Vec<T>,
        D: Fn(HeadShape, Vec<T>, DeviceBuffer, DeviceBuffer, usize, usize) -> Option<Vec<T>>,
        E: Fn(DeviceBuffer, DeviceBuffer) -> Option<(Vec<T>, Vec<T>)>,
     {
        let offset = (total - tokens) as usize;
        &&& forall|q: Seq<T>, r: Seq<T>, o: Seq<T>|
            #![trigger self.answered(heads, q, k, v, total, offset, Some(r)), outside.attended(heads, q, keys, values, o)]
            self.answered(heads, q, k, v, total, offset, Some(r)) && outside.attended(
                heads,
                q,
                keys,
                values,
                o,
            ) ==> r == o
        &&& forall|a: Seq<T>, b: Seq<T>| #[trigger]
            self.fetched(k, v, Some((a, b))) ==> first_rows(a, (total * row) as nat) == keys
                && first_rows(b, (total * row) as nat) == values
    }
}

/// The device history does what host rows do: where the buffers hold the keys
/// and values so far and those of the call, a call that the device took gives
/// the rows of a call over that history on the host, and leaves the same to look
/// back on. So it is with kernels that compute what the host computes.
pub proof fn law_arena_matches_mirrors<
    T: Copy,
    F: Fn(ScalarOp, T, T) -> T,
    C: Fn(Number) -> T,
    Z: Fn(Relation, T, T) -> bool,
    A: Fn(ArenaRows<T>) -> ArenaAppend,
    D: Fn(HeadShape, Vec<T>, DeviceBuffer, DeviceBuffer, usize, usize) -> Option<Vec<T>>,
    E: Fn(DeviceBuffer, DeviceBuffer) -> Option<(Vec<T>, Vec<T>)>,
    G: Fn(FalconH1Part, Vec<T>) -> Vec<T>,
    R: Fn(Vec<T>, Vec<u32>) -> Vec<T>,
    H: Fn(HeadShape, Vec<T>, Vec<T>, Vec<T>) -> Vec<T>,
    K: Fn(ConvInputs<T>) -> DeviceRun<Vec<T>>,
    S: Fn(ScanInputs<T>) -> DeviceRun<ScanOutputs<T>>,
>(
    x: &Scalars<T, F, C, Z>,
    arena: &Arena<A, D, E>,
    outside: &Surroundings<G, R, H>,
    kernels: &SsmKernels<K, S>,
    cfg: &FalconH1Config,
    w: &FalconH1Block<T>,
    h: Seq<T>,
    rows: FalconH1Rows<T>,
    before: FalconH1LayerCache<T>,
    after: FalconH1LayerCache<T>,
    out: Seq<T>,
    k: DeviceBuffer,
    v: DeviceBuffer,
    total: usize,
    keys: Seq<T>,
    values: Seq<T>,
    call: FalconH1Call<T>,
)
    requires
        outside.gives_once::<FalconH1Part, T>(),
        cfg.scans(),
        kernels.agree(x, cfg, w),
        before.wf(cfg),
        x.layer_ended(
            arena,
            outside,
            kernels,
            cfg,
            w,
            call.positions,
            h,
            rows,
            (ArenaAppend::Done { k, v, total }),
            before,
            after,
            Ok(out),
        ),
        arena.holds(
            outside,
            cfg.head_shape(),
            k,
            v,
            total,
            call.positions.len(),
            cfg.kv_width(),
            call.after.k,
            call.after.v,
        ),
        call.input == h,
        x.layer_ran(
            outside,
            cfg,
            w,
            call.positions,
            (FalconH1State { k: keys, v: values, ..before.held() }),
            call.after,
            call.input,
            call.rows,
            call.out,
        ),
    ensures
        out == call.out,
        after.held().kept == call.after.kept,
        after.held().cells == call.after.cells,
        call.after.k == keys + rows.k_rot,
        call.after.v == values + rows.v,
{
    let host = call.rows;
    assert(rows.normed == host.normed);
    assert(rows.q == host.q && rows.k == host.k && rows.v == host.v);
    assert(rows.q_rot == host.q_rot && rows.k_rot == host.k_rot);
    assert(rows.ssm == host.ssm);
    law_device_matches_host(
        x,
        kernels,
        cfg,
        w,
        before.conv_state@,
        before.ssm_state@,
        rows.ssm,
        call.positions.len(),
        after.conv_state@,
        after.ssm_state@,
        rows.gated,
    );
    assert(rows.gated == host.gated && rows.ssm_out == host.ssm_out);
    let offset = (total - call.positions.len()) as usize;
    assert(outside.attended(
        cfg.head_shape(),
        host.q_rot,
        call.after.k,
        call.after.v,
        host.attended,
    ));
    if arena.answered(cfg.head_shape(), rows.q_rot, k, v, total, offset, Some(rows.attended)) {
        assert(rows.attended == host.attended);
    } else {
        let found = choose|found: Option<(Seq<T>, Seq<T>)>| #[trigger]
            arena.fetched(k, v, found) && match found {
                Some((a, b)) => outside.attended(
                    cfg.head_shape(),
                    rows.q_rot,
                    first_rows(a, (total * cfg.kv_width()) as nat),
                    first_rows(b, (total * cfg.kv_width()) as nat),
                    rows.attended,
                ),
                None => false,
            };
        let (a, b) = found->0;
        assert(arena.fetched(k, v, Some((a, b))));
        assert(rows.attended == host.attended);
    }
    assert(rows.ffn_normed == host.ffn_normed);
    assert(rows.gate == host.gate && rows.up == host.up);
    assert(rows.down == host.down);
}

} // verus!
