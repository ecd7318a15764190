//! Per-layer caches of an LFM2 session.

use crate::device::DeviceBuffer;
use crate::error::Error;
use crate::lfm2::{Lfm2Block, LFM2_FUSED_KV_CACHE_LEN};
use crate::numeric::Real;
use crate::rows::{append_all, copy_range, filled};
use vstd::prelude::*;

verus! {

/// Key and value history of an attention layer, on the host and on a device.
#[derive(Debug)]
pub struct AttentionCache<T> {
    pub k: Vec<T>,
    pub v: Vec<T>,
    /// Device arenas that mirror the history.
    pub k_dev: Option<DeviceBuffer>,
    pub v_dev: Option<DeviceBuffer>,
    /// The position that rotations on the device start from.
    pub pos_base_dev: Option<DeviceBuffer>,
    /// The number of past tokens, counted on the device.
    pub past_dev: Option<DeviceBuffer>,
    /// Buffers that every replay of one capture writes to.
    pub q_rot_dev: Option<DeviceBuffer>,
    pub k_rot_dev: Option<DeviceBuffer>,
    pub attn_out_dev: Option<DeviceBuffer>,
}

/// What one layer keeps between steps.
#[derive(Debug)]
pub enum Lfm2LayerCache<T> {
    /// The rows that a short convolution looks back on.
    ShortConv(Vec<T>),
    /// An attention history.
    Attention(AttentionCache<T>),
    /// The state of a gated recurrence.
    Gdl { dev_state: Option<DeviceBuffer> },
}

/// The cache is an attention history.
pub open spec fn is_attention<T>(cache: Lfm2LayerCache<T>) -> bool {
    cache is Attention
}

impl<T> AttentionCache<T> {
    /// The history is made of whole rows, as many of values as of keys.
    pub open spec fn whole(self, stride: int) -> bool {
        &&& self.k@.len() as int % stride == 0
        &&& self.v@.len() == self.k@.len()
    }

    /// No device buffer is made.
    pub open spec fn unmade(self) -> bool {
        &&& self.k_dev is None
        &&& self.v_dev is None
        &&& self.pos_base_dev is None
        &&& self.past_dev is None
        &&& self.q_rot_dev is None
        &&& self.k_rot_dev is None
        &&& self.attn_out_dev is None
    }

    /// An empty history without device buffers.
    pub open spec fn blank(self) -> bool {
        &&& self.k@ == Seq::<T>::empty()
        &&& self.v@ == Seq::<T>::empty()
        &&& self.unmade()
    }

    /// The device handles of two caches are the same.
    pub open spec fn same_handles(self, other: Self) -> bool {
        &&& self.k_dev == other.k_dev
        &&& self.v_dev == other.v_dev
        &&& self.pos_base_dev == other.pos_base_dev
        &&& self.past_dev == other.past_dev
        &&& self.q_rot_dev == other.q_rot_dev
        &&& self.k_rot_dev == other.k_rot_dev
        &&& self.attn_out_dev == other.attn_out_dev
    }

    /// A history without rows.
    pub fn empty() -> (cache: Self)
        ensures
            cache.blank(),
    {
        AttentionCache {
            k: Vec::new(),
            v: Vec::new(),
            k_dev: None,
            v_dev: None,
            pos_base_dev: None,
            past_dev: None,
            q_rot_dev: None,
            k_rot_dev: None,
            attn_out_dev: None,
        }
    }
}

impl<T: Copy> Clone for Lfm2LayerCache<T> {
    /// Copies the history and its arenas. The buffers of a capture belong to
    /// that capture and are left behind.
    fn clone(&self) -> (copy: Self)
        ensures
            match *self {
                Lfm2LayerCache::ShortConv(state) => copy matches Lfm2LayerCache::ShortConv(s)
                    && s@ == state@,
                Lfm2LayerCache::Attention(a) => {
                    &&& copy matches Lfm2LayerCache::Attention(c)
                    &&& c.k@ == a.k@
                    &&& c.v@ == a.v@
                    &&& c.k_dev == a.k_dev
                    &&& c.v_dev == a.v_dev
                    &&& c.pos_base_dev == a.pos_base_dev
                    &&& c.past_dev == a.past_dev
                    &&& c.q_rot_dev is None
                    &&& c.k_rot_dev is None
                    &&& c.attn_out_dev is None
                },
                Lfm2LayerCache::Gdl { dev_state } => copy == (Lfm2LayerCache::<T>::Gdl {
                    dev_state,
                }),
            },
    {
        match self {
            Lfm2LayerCache::ShortConv(state) => Lfm2LayerCache::ShortConv(
                copy_range(state.as_slice(), 0, state.len()),
            ),
            Lfm2LayerCache::Attention(a) => Lfm2LayerCache::Attention(
                AttentionCache {
                    k: copy_range(a.k.as_slice(), 0, a.k.len()),
                    v: copy_range(a.v.as_slice(), 0, a.v.len()),
                    k_dev: a.k_dev,
                    v_dev: a.v_dev,
                    pos_base_dev: a.pos_base_dev,
                    past_dev: a.past_dev,
                    q_rot_dev: None,
                    k_rot_dev: None,
                    attn_out_dev: None,
                },
            ),
            Lfm2LayerCache::Gdl { dev_state } => Lfm2LayerCache::Gdl { dev_state: *dev_state },
        }
    }
}

impl<T> Lfm2LayerCache<T> {
    /// Tells whether the device counter of an attention history is still to be
    /// made.
    pub fn past_dev_needs_init(&self) -> (r: bool)
        ensures
            r == (*self matches Lfm2LayerCache::Attention(a) && a.past_dev is None),
    {
        match self {
            Lfm2LayerCache::Attention(a) => a.past_dev.is_none(),
            _ => false,
        }
    }
}

/// The number of tokens in an attention history of `stride` elements per
/// token; none where there is no attention history.
pub open spec fn cached_rows<T>(cache: Option<Lfm2LayerCache<T>>, stride: int) -> int {
    match cache {
        Some(Lfm2LayerCache::Attention(a)) => a.k@.len() as int / stride,
        _ => 0,
    }
}

/// Counts the cached tokens.
pub fn cache_offset<T>(cache: &Option<Lfm2LayerCache<T>>, stride: usize) -> (rows: usize)
    requires
        stride > 0,
    ensures
        rows == cached_rows(*cache, stride as int),
{
    match cache {
        Some(Lfm2LayerCache::Attention(a)) => a.k.len() / stride,
        _ => 0,
    }
}

/// Makes an empty attention history where the layer has no cache yet.
pub fn ensure_attention<T>(cache: &mut Option<Lfm2LayerCache<T>>)
    ensures
        *old(cache) is Some ==> *final(cache) == *old(cache),
        *old(cache) is None ==> (*final(cache) matches Some(Lfm2LayerCache::Attention(a))
            && a.blank()),
{
    if cache.is_none() {
        *cache = Some(Lfm2LayerCache::Attention(AttentionCache::empty()));
    }
}

/// Makes zeroed kept rows where the layer has no cache yet, and refuses a
/// cache of another kind.
pub fn ensure_shortconv<T: Copy>(
    cache: &mut Option<Lfm2LayerCache<T>>,
    h_dim: usize,
    taps: usize,
    zero: T,
) -> (result: Result<(), Error>)
    requires
        taps >= 1,
        h_dim * (taps - 1) <= usize::MAX,
    ensures
        match *old(cache) {
            None => result is Ok && (*final(cache) matches Some(Lfm2LayerCache::ShortConv(s))
                && s@ == Seq::new((h_dim * (taps - 1)) as nat, |i: int| zero)),
            Some(Lfm2LayerCache::ShortConv(_)) => result is Ok && *final(cache) == *old(cache),
            Some(_) => result == Err::<(), Error>(Error::ShortConvCache) && *final(cache) == *old(
                cache,
            ),
        },
{
    if cache.is_none() {
        *cache = Some(Lfm2LayerCache::ShortConv(filled(zero, h_dim * (taps - 1))));
        return Ok(());
    }
    match cache {
        Some(Lfm2LayerCache::ShortConv(_)) => Ok(()),
        _ => Err(Error::ShortConvCache),
    }
}

/// Where the rows of one step go.
#[derive(Debug, Clone, Copy, PartialEq, Eq, Structural)]
pub struct AppendedRows {
    /// Tokens in the history before the step.
    pub past: usize,
    /// The device arenas are still to be made.
    pub allocate: bool,
    /// First element that the step fills in each arena.
    pub offset: usize,
    /// Number of elements that the step fills in each arena.
    pub count: usize,
}

/// Appends the rotated keys and the values of `steps` tokens to the host
/// history and says where they go in the device arenas.
pub fn append_history<T: Copy>(
    cache: &mut Option<Lfm2LayerCache<T>>,
    k_rot: &[T],
    v_new: &[T],
    kv_stride: usize,
    steps: usize,
) -> (result: Result<AppendedRows, Error>)
    requires
        kv_stride > 0,
        steps * kv_stride <= usize::MAX,
    ensures
        match *old(cache) {
            None => {
                &&& result == Ok::<AppendedRows, Error>(
                    AppendedRows {
                        past: 0,
                        allocate: true,
                        offset: 0,
                        count: (steps * kv_stride) as usize,
                    },
                )
                &&& *final(cache) matches Some(Lfm2LayerCache::Attention(a))
                &&& a.k@ == k_rot@
                &&& a.v@ == v_new@
                &&& a.unmade()
            },
            Some(Lfm2LayerCache::Attention(before)) => {
                &&& result matches Ok(rows)
                &&& rows.past == before.k@.len() as int / kv_stride as int
                &&& rows.allocate == (before.k_dev is None)
                &&& rows.offset == rows.past * kv_stride
                &&& rows.count == steps * kv_stride
                &&& *final(cache) matches Some(Lfm2LayerCache::Attention(after))
                &&& after.k@ == before.k@ + k_rot@
                &&& after.v@ == before.v@ + v_new@
                &&& after.same_handles(before)
            },
            Some(_) => result == Err::<AppendedRows, Error>(Error::AttentionCache) && *final(cache)
                == *old(cache),
        },
{
    ensure_attention(cache);
    match cache {
        Some(Lfm2LayerCache::Attention(a)) => {
            let held: usize = a.k.len();
            let past: usize = held / kv_stride;
            proof {
                vstd::arithmetic::div_mod::lemma_fundamental_div_mod(
                    held as int,
                    kv_stride as int,
                );
                assert(past * kv_stride == kv_stride * past) by (nonlinear_arith);
                vstd::arithmetic::div_mod::lemma_mod_bound(held as int, kv_stride as int);
                if held == 0 {
                    assert(past == 0) by (nonlinear_arith)
                        requires
                            past == 0int / kv_stride as int,
                            kv_stride > 0,
                    ;
                }
            }
            append_all(&mut a.k, k_rot);
            append_all(&mut a.v, v_new);
            Ok(
                AppendedRows {
                    past,
                    allocate: a.k_dev.is_none(),
                    offset: past * kv_stride,
                    count: steps * kv_stride,
                },
            )
        },
        _ => Err(Error::AttentionCache),
    }
}

/// The arenas hold the whole history: both mirrors of the step succeeded and
/// arenas are in use.
pub fn arena_total(
    past: usize,
    steps: usize,
    keys_copied: bool,
    values_copied: bool,
    arena_enabled: bool,
) -> (total: Option<usize>)
    requires
        past + steps <= usize::MAX,
    ensures
        total == (if keys_copied && values_copied && arena_enabled {
            Some((past + steps) as usize)
        } else {
            None
        }),
{
    if keys_copied && values_copied && arena_enabled {
        Some(past + steps)
    } else {
        None
    }
}

/// Records the arenas that were made for an attention history.
pub fn install_arenas<T>(
    cache: &mut Option<Lfm2LayerCache<T>>,
    k: DeviceBuffer,
    v: DeviceBuffer,
) -> (result: Result<(), Error>)
    ensures
        match *old(cache) {
            Some(Lfm2LayerCache::Attention(before)) => {
                &&& result is Ok
                &&& *final(cache) == Some(
                    Lfm2LayerCache::Attention(
                        AttentionCache { k_dev: Some(k), v_dev: Some(v), ..before },
                    ),
                )
            },
            _ => result == Err::<(), Error>(Error::AttentionCache) && *final(cache) == *old(cache),
        },
{
    match cache {
        Some(Lfm2LayerCache::Attention(a)) => {
            a.k_dev = Some(k);
            a.v_dev = Some(v);
            Ok(())
        },
        _ => Err(Error::AttentionCache),
    }
}

/// What a capturing step does to its counter before it rotates.
#[derive(Debug, Clone, Copy, PartialEq, Eq, Structural)]
pub enum CounterSeed {
    /// The counter is there, or the layer keeps none.
    Ready,
    /// A counter is to be made and set to this value.
    Seed(u32),
}

/// Makes sure that a capturing step has a cache, and says whether its counter
/// is still to be made.
pub fn prepare_counter<T>(cache: &mut Option<Lfm2LayerCache<T>>, kv_stride: usize) -> (seed:
    CounterSeed)
    requires
        kv_stride > 0,
    ensures
        *old(cache) is Some ==> *final(cache) == *old(cache),
        *old(cache) is None ==> (*final(cache) matches Some(Lfm2LayerCache::Attention(a))
            && a.blank()),
        seed == (match *old(cache) {
            None => CounterSeed::Seed(0),
            Some(Lfm2LayerCache::Attention(a)) => if a.past_dev is None {
                CounterSeed::Seed(cached_rows(*old(cache), kv_stride as int) as u32)
            } else {
                CounterSeed::Ready
            },
            Some(_) => CounterSeed::Ready,
        }),
{
    let offset: usize = cache_offset(cache, kv_stride);
    ensure_attention(cache);
    match cache {
        Some(c) => if c.past_dev_needs_init() {
            CounterSeed::Seed(offset as u32)
        } else {
            CounterSeed::Ready
        },
        None => CounterSeed::Ready,
    }
}

/// Records a counter that a step made. The base of rotations and the count of
/// past tokens are one buffer from then on.
pub fn install_counter<T>(cache: &mut Option<Lfm2LayerCache<T>>, counter: DeviceBuffer)
    ensures
        match *old(cache) {
            Some(Lfm2LayerCache::Attention(before)) => *final(cache) == Some(
                Lfm2LayerCache::Attention(
                    AttentionCache {
                        pos_base_dev: Some(counter),
                        past_dev: Some(counter),
                        ..before
                    },
                ),
            ),
            _ => *final(cache) == *old(cache),
        },
{
    match cache {
        Some(Lfm2LayerCache::Attention(a)) => {
            a.pos_base_dev = Some(counter);
            a.past_dev = Some(counter);
        },
        _ => {},
    }
}

/// The launches of device-side attention.
#[derive(Debug, Clone, Copy, PartialEq, Eq, Structural)]
pub enum DeviceLaunch {
    /// Append the step's rotated keys at the device counter.
    AppendKeys { kv_stride: usize, steps: usize },
    /// Append the step's values at the device counter.
    AppendValues { kv_stride: usize, steps: usize },
    /// Attend over the counted tokens and the step's own.
    Attend { heads: usize, kv_heads: usize, head_dim: usize, steps: usize },
    /// Advance the counter by the step.
    AdvanceCounter { steps: usize },
}

/// What device-side attention needs and runs.
#[derive(Debug)]
pub struct DeviceAttention {
    /// The counter is still to be made, at zero.
    pub make_counter: bool,
    /// The arenas are still to be made, with this many rows.
    pub make_arenas: Option<usize>,
    pub launches: Vec<DeviceLaunch>,
    /// The width of the attention output, which has a row for each token.
    pub width: usize,
}

impl Lfm2Block {
    /// The launches of a step of device-side attention. The counter moves last,
    /// so that the next step appends behind this one.
    pub open spec fn device_launches(&self, kv_stride: usize, steps: usize) -> Seq<DeviceLaunch> {
        seq![
            DeviceLaunch::AppendKeys { kv_stride, steps },
            DeviceLaunch::AppendValues { kv_stride, steps },
            DeviceLaunch::Attend {
                heads: self.num_heads,
                kv_heads: self.num_kv_heads,
                head_dim: self.head_dim,
                steps,
            },
            DeviceLaunch::AdvanceCounter { steps },
        ]
    }

    /// Plans attention that stays on the device.
    pub fn decode_attention_device<T>(
        &self,
        cache: &mut Option<Lfm2LayerCache<T>>,
        kv_stride: usize,
        steps: usize,
    ) -> (result: Result<DeviceAttention, Error>)
        requires
            self.num_heads * self.head_dim <= usize::MAX,
        ensures
            *old(cache) is Some ==> *final(cache) == *old(cache),
            *old(cache) is None ==> (*final(cache) matches Some(Lfm2LayerCache::Attention(a))
                && a.blank()),
            match *final(cache) {
                Some(Lfm2LayerCache::Attention(a)) => {
                    &&& result matches Ok(plan)
                    &&& plan.make_counter == (a.past_dev is None)
                    &&& plan.make_arenas == (if a.k_dev is None {
                        Some(LFM2_FUSED_KV_CACHE_LEN)
                    } else {
                        None
                    })
                    &&& plan.launches@ == self.device_launches(kv_stride, steps)
                    &&& plan.width == self.num_heads * self.head_dim
                },
                _ => result == Err::<DeviceAttention, Error>(Error::AttentionCache),
            },
    {
        ensure_attention(cache);
        match cache {
            Some(Lfm2LayerCache::Attention(a)) => Ok(
                DeviceAttention {
                    make_counter: a.past_dev.is_none(),
                    make_arenas: if a.k_dev.is_none() {
                        Some(LFM2_FUSED_KV_CACHE_LEN)
                    } else {
                        None
                    },
                    launches: vec![
                        DeviceLaunch::AppendKeys { kv_stride, steps },
                        DeviceLaunch::AppendValues { kv_stride, steps },
                        DeviceLaunch::Attend {
                            heads: self.num_heads,
                            kv_heads: self.num_kv_heads,
                            head_dim: self.head_dim,
                            steps,
                        },
                        DeviceLaunch::AdvanceCounter { steps },
                    ],
                    width: self.num_heads * self.head_dim,
                },
            ),
            _ => Err(Error::AttentionCache),
        }
    }
}

/// The counter of device-side attention moves once, behind everything that reads
/// it.
pub proof fn law_counter_moves_last(block: &Lfm2Block, kv_stride: usize, steps: usize)
    ensures
        ({
            let launches = block.device_launches(kv_stride, steps);
            &&& launches.last() == (DeviceLaunch::AdvanceCounter { steps })
            &&& forall|i: int|
                0 <= i < launches.len() - 1 ==> !(#[trigger] launches[i] is AdvanceCounter)
        }),
{
}

/// What attention reads.
#[derive(Debug, Clone, Copy, PartialEq, Eq, Structural)]
pub enum AttentionSource {
    /// It was computed on the device already.
    Computed,
    /// The device arenas, with this many tokens.
    Arenas(usize),
    /// The host history.
    HostHistory,
}

/// Picks what attention reads: the device's own result first, then the arenas,
/// then the host history.
pub fn attention_source<T>(
    cache: &Option<Lfm2LayerCache<T>>,
    computed: bool,
    arenas: Option<usize>,
) -> (source: Result<AttentionSource, Error>)
    ensures
        source == (if computed {
            Ok::<AttentionSource, Error>(AttentionSource::Computed)
        } else if !(*cache matches Some(c) && is_attention(c)) {
            Err(Error::AttentionCache)
        } else {
            match arenas {
                Some(total) => Ok(AttentionSource::Arenas(total)),
                None => Ok(AttentionSource::HostHistory),
            }
        }),
{
    if computed {
        return Ok(AttentionSource::Computed);
    }
    match cache {
        Some(Lfm2LayerCache::Attention(_)) => match arenas {
            Some(total) => Ok(AttentionSource::Arenas(total)),
            None => Ok(AttentionSource::HostHistory),
        },
        _ => Err(Error::AttentionCache),
    }
}

/// The arguments of the fused projection kernel. It rotates whole heads.
#[derive(Debug, Clone, Copy, PartialEq, Eq, Structural)]
pub struct FusedQkvLaunch {
    pub steps: usize,
    pub hidden: usize,
    pub heads: usize,
    pub kv_heads: usize,
    pub head_dim: usize,
    pub rope_theta: Real,
    pub eps: Real,
    /// The sequence limit.
    pub max_seq: usize,
}

/// One step of the fused projection kernel.
#[derive(Debug)]
pub struct FusedQkvStep {
    /// Tokens in the history before the step.
    pub cache_offset: usize,
    /// The position of each token of the step.
    pub positions: Vec<u32>,
    /// Both arenas are rebuilt with this many rows, keeping what they hold.
    pub grow_to: Option<usize>,
    /// Both arenas are made, zeroed, with this many rows.
    pub make: Option<usize>,
    /// The width of the queries that come out, one row for each token.
    pub query_width: usize,
    pub launch: FusedQkvLaunch,
}

/// The capacity that an arena of `rows` rows gets where a step needs more.
pub open spec fn grown_rows(rows: int, needed: int) -> Option<usize> {
    if rows < needed {
        Some(
            if needed <= 2 * LFM2_FUSED_KV_CACHE_LEN {
                (2 * LFM2_FUSED_KV_CACHE_LEN) as usize
            } else {
                needed as usize
            },
        )
    } else {
        None
    }
}

/// The rows of a device arena; none where it is not made yet.
pub open spec fn arena_rows(arena: Option<DeviceBuffer>) -> int {
    match arena {
        Some(buffer) => buffer.rows as int,
        None => 0,
    }
}

impl Lfm2Block {
    /// Plans one step of the fused projection kernel on an attention history.
    pub fn fused_qkv<T>(
        &self,
        cache: &mut Option<Lfm2LayerCache<T>>,
        steps: usize,
        hidden: usize,
    ) -> (result: Result<FusedQkvStep, Error>)
        requires
            self.num_heads * self.head_dim <= usize::MAX,
            0 < self.num_kv_heads * self.head_dim <= usize::MAX,
            cached_rows(*old(cache), self.num_kv_heads * self.head_dim) + steps <= usize::MAX,
        ensures
            *old(cache) is Some ==> *final(cache) == *old(cache),
            *old(cache) is None ==> (*final(cache) matches Some(Lfm2LayerCache::Attention(a))
                && a.blank()),
            match *final(cache) {
                Some(Lfm2LayerCache::Attention(a)) => {
                    let offset = cached_rows(*old(cache), self.num_kv_heads * self.head_dim);
                    let grown = grown_rows(arena_rows(a.k_dev), offset + steps);
                    &&& result matches Ok(step)
                    &&& step.cache_offset == offset
                    &&& step.positions@ == Seq::new(steps as nat, |t: int| (offset + t) as u32)
                    &&& step.grow_to == grown
                    &&& step.make == (if a.k_dev is None && grown is None {
                        Some(LFM2_FUSED_KV_CACHE_LEN)
                    } else {
                        None
                    })
                    &&& step.query_width == self.num_heads * self.head_dim
                    &&& step.launch == (FusedQkvLaunch {
                        steps,
                        hidden,
                        heads: self.num_heads,
                        kv_heads: self.num_kv_heads,
                        head_dim: self.head_dim,
                        rope_theta: self.rope_theta,
                        eps: self.eps,
                        max_seq: match (grown, a.k_dev) {
                            (Some(rows), _) => rows,
                            (None, Some(arena)) => arena.rows,
                            (None, None) => LFM2_FUSED_KV_CACHE_LEN,
                        },
                    })
                    &&& offset + steps <= step.launch.max_seq
                },
                _ => result == Err::<FusedQkvStep, Error>(Error::AttentionCache),
            },
    {
        let n_k: usize = self.num_kv_heads * self.head_dim;
        let offset: usize = cache_offset(cache, n_k);
        let mut positions: Vec<u32> = Vec::new();
        let mut t: usize = 0;
        while t < steps
            invariant
                t <= steps,
                offset + steps <= usize::MAX,
                positions@ == Seq::new(t as nat, |t: int| (offset + t) as u32),
            decreases steps - t,
        {
            positions.push((offset + t) as u32);
            t = t + 1;
        }
        ensure_attention(cache);
        match cache {
            Some(Lfm2LayerCache::Attention(a)) => {
                let held: usize = match a.k_dev {
                    Some(buffer) => buffer.rows,
                    None => 0,
                };
                let needed: usize = offset + steps;
                let grow_to: Option<usize> = if held < needed {
                    if needed <= 2 * LFM2_FUSED_KV_CACHE_LEN {
                        Some(2 * LFM2_FUSED_KV_CACHE_LEN)
                    } else {
                        Some(needed)
                    }
                } else {
                    None
                };
                let max_seq: usize = match (grow_to, a.k_dev) {
                    (Some(rows), _) => rows,
                    (None, Some(arena)) => arena.rows,
                    (None, None) => LFM2_FUSED_KV_CACHE_LEN,
                };
                let make: Option<usize> = if a.k_dev.is_none() && grow_to.is_none() {
                    Some(LFM2_FUSED_KV_CACHE_LEN)
                } else {
                    None
                };
                let launch = FusedQkvLaunch {
                    steps,
                    hidden,
                    heads: self.num_heads,
                    kv_heads: self.num_kv_heads,
                    head_dim: self.head_dim,
                    rope_theta: self.rope_theta,
                    eps: self.eps,
                    max_seq,
                };
                Ok(
                    FusedQkvStep {
                        cache_offset: offset,
                        positions,
                        grow_to,
                        make,
                        query_width: self.num_heads * self.head_dim,
                        launch,
                    },
                )
            },
            _ => Err(Error::AttentionCache),
        }
    }
}

/// After a step's growth every row that the step writes lies in the arena.
pub proof fn law_grown_arena_holds_the_step(rows: int, needed: int)
    requires
        0 <= rows,
        0 <= needed <= usize::MAX,
    ensures
        match grown_rows(rows, needed) {
            Some(grown) => grown >= needed && grown > rows,
            None => rows >= needed,
        },
{
}

/// What a grown arena holds: the old rows first, zeros behind them.
pub open spec fn grown_contents<T>(old_rows: Seq<T>, len: nat, zero: T) -> Seq<T> {
    Seq::new(
        len,
        |i: int|
            if i < old_rows.len() {
                old_rows[i]
            } else {
                zero
            },
    )
}

/// Fills a grown arena.
pub fn grow_arena<T: Copy>(held: &[T], rows: usize, row_len: usize, zero: T) -> (data: Vec<T>)
    requires
        rows * row_len <= usize::MAX,
    ensures
        data@ == grown_contents(held@, (rows * row_len) as nat, zero),
{
    let len: usize = rows * row_len;
    let keep: usize = if held.len() <= len {
        held.len()
    } else {
        len
    };
    let mut data = copy_range(held, 0, keep);
    let rest = filled(zero, len - keep);
    append_all(&mut data, rest.as_slice());
    assert(data@ =~= grown_contents(held@, len as nat, zero));
    data
}

/// How a copy on the device ended.
#[derive(Debug, Clone, Copy, PartialEq, Eq, Structural)]
pub enum CopyOutcome {
    Done,
    Unimplemented,
    Failed,
}

/// Where the new rows of a fused step are read back from.
#[derive(Debug, Clone, Copy, PartialEq, Eq, Structural)]
pub enum MirrorSource {
    /// The staged copies of just the new rows.
    Staged,
    /// The arenas themselves.
    WholeArenas,
    /// The copy of the keys failed.
    KeysFailed,
    /// The copy of the values failed.
    ValuesFailed,
}

/// Picks where new rows are read back from: the staged copies where both are
/// there, the arenas where the device cannot copy ranges, and a failure
/// otherwise.
pub fn mirror_source(keys: CopyOutcome, values: CopyOutcome) -> (source: MirrorSource)
    ensures
        source == (if keys is Done && values is Done {
            MirrorSource::Staged
        } else if keys is Unimplemented || values is Unimplemented {
            MirrorSource::WholeArenas
        } else if keys is Failed {
            MirrorSource::KeysFailed
        } else {
            MirrorSource::ValuesFailed
        }),
{
    match (keys, values) {
        (CopyOutcome::Done, CopyOutcome::Done) => MirrorSource::Staged,
        (CopyOutcome::Unimplemented, _) => MirrorSource::WholeArenas,
        (_, CopyOutcome::Unimplemented) => MirrorSource::WholeArenas,
        (CopyOutcome::Failed, _) => MirrorSource::KeysFailed,
        _ => MirrorSource::ValuesFailed,
    }
}

/// The rows that a step wrote, cut from an arena read back whole.
pub fn new_rows_of_arena<T: Copy>(
    arena: &[T],
    cache_offset: usize,
    steps: usize,
    row_len: usize,
) -> (new_rows: Vec<T>)
    requires
        (cache_offset + steps) * row_len <= arena@.len(),
    ensures
        new_rows@ == arena@.subrange(
            cache_offset * row_len,
            cache_offset * row_len + steps * row_len,
        ),
{
    let available: usize = arena.len();
    proof {
        assert((cache_offset + steps) * row_len == cache_offset * row_len + steps * row_len)
            by (nonlinear_arith);
        assert(0 <= cache_offset * row_len && 0 <= steps * row_len) by (nonlinear_arith)
            requires
                0 <= cache_offset,
                0 <= steps,
                0 <= row_len,
        ;
    }
    copy_range(arena, cache_offset * row_len, steps * row_len)
}

/// Extends the host history by the rows of a fused step.
pub fn mirror_rows<T: Copy>(
    cache: &mut Option<Lfm2LayerCache<T>>,
    k_rows: &[T],
    v_rows: &[T],
) -> (result: Result<(), Error>)
    ensures
        match *old(cache) {
            Some(Lfm2LayerCache::Attention(before)) => {
                &&& result is Ok
                &&& *final(cache) matches Some(Lfm2LayerCache::Attention(after))
                &&& after.k@ == before.k@ + k_rows@
                &&& after.v@ == before.v@ + v_rows@
                &&& after.same_handles(before)
            },
            _ => result == Err::<(), Error>(Error::AttentionCache) && *final(cache) == *old(cache),
        },
{
    match cache {
        Some(Lfm2LayerCache::Attention(a)) => {
            append_all(&mut a.k, k_rows);
            append_all(&mut a.v, v_rows);
            Ok(())
        },
        _ => Err(Error::AttentionCache),
    }
}

/// A step of `steps` tokens adds exactly `steps` to the count of cached tokens.
pub proof fn law_step_grows_history<T>(history: Seq<T>, new_rows: Seq<T>, stride: int, past: int, steps: int)
    requires
        stride > 0,
        past >= 0,
        steps >= 0,
        history.len() == past * stride,
        new_rows.len() == steps * stride,
    ensures
        (history + new_rows).len() as int / stride == past + steps,
{
    assert((history + new_rows).len() == (past + steps) * stride) by {
        assert((past + steps) * stride == past * stride + steps * stride) by (nonlinear_arith);
    }
    vstd::arithmetic::div_mod::lemma_div_by_multiple(past + steps, stride);
}

} // verus!
