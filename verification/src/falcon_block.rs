//! A Falcon-H1 layer on rows held by the host: attention and the state-space
//! part side by side, then a gated feed-forward part.

use crate::block_program::Activation;
use crate::block_run::add_rows;
use crate::device::DeviceBuffer;
use crate::error::Error;
use crate::falcon_h1::{
    after_append, arena_rows, conv_rows, expand_positions, expanded, first_rows, law_expanded_joins,
    ArenaAppend, FalconH1Config, FalconH1LayerCache,
};
use crate::kernels::activate_gated;
use crate::mamba::{law_layer_in_two_calls, FalconH1Block};
use crate::mamba_device::{
    mamba2_layer_cpu, ConvInputs, DeviceRun, ScanInputs, ScanOutputs, SsmKernels,
};
use crate::rows::{copy_range, lemma_widths_add, suffix};
use crate::scalar::{Number, Relation, ScalarOp, Scalars};
use crate::surroundings::{looks_causally, part_by_rows, turns_by_rows, HeadShape, Surroundings};
use vstd::prelude::*;

verus! {

/// A part of a layer that its surroundings run, each row for itself.
#[derive(Debug, Clone, Copy, PartialEq, Eq, Structural)]
pub enum FalconH1Part {
    AttnNorm,
    Query,
    Key,
    Value,
    SsmIn,
    SsmOut,
    FfnNorm,
    Gate,
    Up,
    Down,
}

/// What the parts of a layer give.
pub struct FalconH1Rows<T> {
    pub normed: Seq<T>,
    pub q: Seq<T>,
    pub k: Seq<T>,
    pub v: Seq<T>,
    pub q_rot: Seq<T>,
    pub k_rot: Seq<T>,
    pub attended: Seq<T>,
    pub ssm: Seq<T>,
    pub gated: Seq<T>,
    pub ssm_out: Seq<T>,
    pub ffn_normed: Seq<T>,
    pub gate: Seq<T>,
    pub up: Seq<T>,
    pub down: Seq<T>,
}

/// What a layer looks back on.
#[verifier::ext_equal]
pub struct FalconH1State<T> {
    /// Rows kept for the convolution.
    pub kept: Seq<T>,
    /// The cells of the scan.
    pub cells: Seq<T>,
    /// The keys so far.
    pub k: Seq<T>,
    /// The values so far.
    pub v: Seq<T>,
}

impl<T> FalconH1LayerCache<T> {
    /// What the layer looks back on.
    pub open spec fn held(&self) -> FalconH1State<T> {
        FalconH1State {
            kept: self.conv_state@,
            cells: self.ssm_state@,
            k: self.k_cache@,
            v: self.v_cache@,
        }
    }
}

impl FalconH1Config {
    /// Elements of one token's queries.
    pub open spec fn q_width(&self) -> nat {
        (self.num_heads * self.head_dim) as nat
    }

    /// Elements of one token's keys.
    pub open spec fn kv_width(&self) -> nat {
        (self.num_kv_heads * self.head_dim) as nat
    }

    /// The width of what a part gives.
    pub open spec fn part_width(&self, part: FalconH1Part) -> int {
        match part {
            FalconH1Part::Query => self.q_width() as int,
            FalconH1Part::Key | FalconH1Part::Value => self.kv_width() as int,
            FalconH1Part::SsmIn => self.in_dim(),
            FalconH1Part::Gate | FalconH1Part::Up => self.intermediate_size as int,
            _ => self.hidden_size as int,
        }
    }

    /// The width of what a part takes.
    pub open spec fn part_takes(&self, part: FalconH1Part) -> nat {
        match part {
            FalconH1Part::SsmOut => self.ssm_d_inner as nat,
            FalconH1Part::Down => self.intermediate_size as nat,
            _ => self.hidden_size as nat,
        }
    }

    /// The parts run on `tokens` rows of the width that each takes, and give
    /// rows of the width that is asked for; so do rotations, and attention over
    /// `held` tokens and those of the call.
    pub open spec fn served_by<T, G, R, H>(
        &self,
        outside: &Surroundings<G, R, H>,
        tokens: nat,
        held: nat,
    ) -> bool where
        G: Fn(FalconH1Part, Vec<T>) -> Vec<T>,
        R: Fn(Vec<T>, Vec<u32>) -> Vec<T>,
        H: Fn(HeadShape, Vec<T>, Vec<T>, Vec<T>) -> Vec<T>,
     {
        &&& forall|p: FalconH1Part|
            outside.part_fits::<FalconH1Part, T>(
                p,
                tokens,
                #[trigger] self.part_takes(p),
                self.part_width(p) as nat,
            )
        &&& outside.turn_fits::<T>(self.head_dim as nat)
        &&& outside.look_fits::<T>(
            self.head_shape(),
            tokens,
            held + tokens,
            self.q_width(),
            self.kv_width(),
        )
    }

    fn ask<
        T: Copy,
        G: Fn(FalconH1Part, Vec<T>) -> Vec<T>,
        R: Fn(Vec<T>, Vec<u32>) -> Vec<T>,
        H: Fn(HeadShape, Vec<T>, Vec<T>, Vec<T>) -> Vec<T>,
    >(
        &self,
        outside: &Surroundings<G, R, H>,
        part: FalconH1Part,
        rows: &Vec<T>,
        Ghost(tokens): Ghost<nat>,
        Ghost(held): Ghost<nat>,
    ) -> (r: Vec<T>)
        requires
            self.served_by::<T, G, R, H>(outside, tokens, held),
            rows@.len() == tokens * self.part_takes(part),
        ensures
            outside.part_ran(part, rows@, r@),
            r@.len() == tokens * self.part_width(part),
    {
        proof {
            let (d, g, n) = (
                self.ssm_d_inner as int,
                self.ssm_n_group as int,
                self.ssm_d_state as int,
            );
            assert(0 <= 2 * g * n) by (nonlinear_arith)
                requires
                    0 <= g,
                    0 <= n,
            ;
            assert(0 <= self.part_width(part));
            assert(outside.part_fits::<FalconH1Part, T>(
                part,
                tokens,
                self.part_takes(part),
                self.part_width(part) as nat,
            ));
        }
        outside.run(part, rows)
    }
}

impl<T> FalconH1LayerCache<T> {
    /// The host rows are whole, as many of values as of keys.
    pub open spec fn mirrors(&self, cfg: &FalconH1Config) -> bool {
        &&& cfg.kv_width() > 0
        &&& self.k_cache@.len() as int % cfg.kv_width() as int == 0
        &&& self.v_cache@.len() == self.k_cache@.len()
    }

    /// Tokens that the host rows hold.
    pub open spec fn mirrored(&self, cfg: &FalconH1Config) -> nat {
        (self.k_cache@.len() as int / cfg.kv_width() as int) as nat
    }
}

/// The rows of a call for a device history: the buffers that hold it so far,
/// where there are any, its new keys and values, how many tokens it has, how
/// many are new, and the elements of one.
pub struct ArenaRows<T> {
    pub k_held: Option<DeviceBuffer>,
    pub v_held: Option<DeviceBuffer>,
    pub k: Vec<T>,
    pub v: Vec<T>,
    pub pos: usize,
    pub tokens: usize,
    pub row: usize,
}

impl<T> ArenaRows<T> {
    /// The rows of a call behind what a cache holds.
    pub open spec fn behind(
        &self,
        cfg: &FalconH1Config,
        cache: FalconH1LayerCache<T>,
        tokens: nat,
    ) -> bool {
        &&& self.k_held == cache.k_device
        &&& self.v_held == cache.v_device
        &&& self.pos == cache.current_pos
        &&& self.tokens == tokens
        &&& self.row == cfg.kv_width()
    }
}

/// The history of keys and values that a device holds. `append` puts the rows
/// of a call behind those that are there, `attend` runs attention of some heads
/// over the first rows of the history where the device can, and `fetch` brings
/// the history to the host, with whatever lies behind its valid rows.
pub struct Arena<A, D, E> {
    pub append: A,
    pub attend: D,
    pub fetch: E,
}

impl<A, D, E> Arena<A, D, E> {
    /// `outcome` is how appending the rows of a call behind what `cache` holds
    /// ended.
    pub open spec fn appended<T>(
        &self,
        cfg: &FalconH1Config,
        cache: FalconH1LayerCache<T>,
        k: Seq<T>,
        v: Seq<T>,
        tokens: nat,
        outcome: ArenaAppend,
    ) -> bool where A: Fn(ArenaRows<T>) -> ArenaAppend {
        exists|rows: ArenaRows<T>|
            rows.behind(cfg, cache, tokens) && rows.k@ == k && rows.v@ == v
                && #[trigger] call_ensures(self.append, (rows,), outcome)
    }

    /// Attention on the device over the first `total` rows gave `answer`.
    pub open spec fn answered<T>(
        &self,
        heads: HeadShape,
        q: Seq<T>,
        k: DeviceBuffer,
        v: DeviceBuffer,
        total: usize,
        offset: usize,
        answer: Option<Seq<T>>,
    ) -> bool where
        D: Fn(HeadShape, Vec<T>, DeviceBuffer, DeviceBuffer, usize, usize) -> Option<Vec<T>>,
     {
        exists|a: Vec<T>, r: Option<Vec<T>>|
            a@ == q && answer == (match r {
                Some(r) => Some(r@),
                None => None,
            }) && #[trigger] call_ensures(self.attend, (heads, a, k, v, total, offset), r)
    }

    /// The history came to the host as `found`.
    pub open spec fn fetched<T>(
        &self,
        k: DeviceBuffer,
        v: DeviceBuffer,
        found: Option<(Seq<T>, Seq<T>)>,
    ) -> bool where E: Fn(DeviceBuffer, DeviceBuffer) -> Option<(Vec<T>, Vec<T>)> {
        exists|r: Option<(Vec<T>, Vec<T>)>|
            found == (match r {
                Some((a, b)) => Some((a@, b@)),
                None => None,
            }) && #[trigger] call_ensures(self.fetch, (k, v), r)
    }

    /// Attention over the first `total` rows of the history gave `out`: on the
    /// device, or where that fails on the host over those rows of what was
    /// fetched; nothing where they cannot be fetched.
    pub open spec fn looked<T, G, R, H>(
        &self,
        outside: &Surroundings<G, R, H>,
        heads: HeadShape,
        q: Seq<T>,
        k: DeviceBuffer,
        v: DeviceBuffer,
        total: usize,
        tokens: nat,
        row: nat,
        out: Option<Seq<T>>,
    ) -> bool where
        H: Fn(HeadShape, Vec<T>, Vec<T>, Vec<T>) -> Vec<T>,
        D: Fn(HeadShape, Vec<T>, DeviceBuffer, DeviceBuffer, usize, usize) -> Option<Vec<T>>,
        E: Fn(DeviceBuffer, DeviceBuffer) -> Option<(Vec<T>, Vec<T>)>,
     {
        let offset = (total - tokens) as usize;
        ||| out is Some && self.answered(heads, q, k, v, total, offset, out)
        ||| self.answered(heads, q, k, v, total, offset, None::<Seq<T>>) && exists|
            found: Option<(Seq<T>, Seq<T>)>,
        | #[trigger]
            self.fetched(k, v, found) && match found {
                Some((a, b)) => out matches Some(o) && outside.attended(
                    heads,
                    q,
                    first_rows(a, (total * row) as nat),
                    first_rows(b, (total * row) as nat),
                    o,
                ),
                None => out is None,
            }
    }
}

impl FalconH1Config {
    /// The history takes the rows of a call, and attention runs over what it
    /// then holds.
    pub open spec fn kept_by<T, A, D, E, G, R, H>(
        &self,
        arena: &Arena<A, D, E>,
        outside: &Surroundings<G, R, H>,
        cache: FalconH1LayerCache<T>,
        tokens: usize,
    ) -> bool where
        A: Fn(ArenaRows<T>) -> ArenaAppend,
        D: Fn(HeadShape, Vec<T>, DeviceBuffer, DeviceBuffer, usize, usize) -> Option<Vec<T>>,
        E: Fn(DeviceBuffer, DeviceBuffer) -> Option<(Vec<T>, Vec<T>)>,
        G: Fn(FalconH1Part, Vec<T>) -> Vec<T>,
        R: Fn(Vec<T>, Vec<u32>) -> Vec<T>,
        H: Fn(HeadShape, Vec<T>, Vec<T>, Vec<T>) -> Vec<T>,
     {
        &&& forall|rows: ArenaRows<T>|
            rows.behind(self, cache, tokens as nat) && rows.k@.len() == tokens * self.kv_width()
                && rows.v@.len() == rows.k@.len() ==> #[trigger] call_requires(
                arena.append,
                (rows,),
            )
        &&& forall|rows: ArenaRows<T>, k: DeviceBuffer, v: DeviceBuffer, total: usize| #[trigger]
            call_ensures(arena.append, (rows,), ArenaAppend::Done { k, v, total }) && rows.behind(
                self,
                cache,
                tokens as nat,
            ) && rows.k@.len() == tokens * self.kv_width() && rows.v@.len() == rows.k@.len()
                ==> self.looked_after::<T, A, D, E, G, R, H>(arena, outside, k, v, total, tokens)
    }

    /// Attention for `tokens` tokens runs over the first `total` rows that two
    /// buffers hold.
    pub open spec fn looked_after<T, A, D, E, G, R, H>(
        &self,
        arena: &Arena<A, D, E>,
        outside: &Surroundings<G, R, H>,
        k: DeviceBuffer,
        v: DeviceBuffer,
        total: usize,
        tokens: usize,
    ) -> bool where
        A: Fn(ArenaRows<T>) -> ArenaAppend,
        D: Fn(HeadShape, Vec<T>, DeviceBuffer, DeviceBuffer, usize, usize) -> Option<Vec<T>>,
        E: Fn(DeviceBuffer, DeviceBuffer) -> Option<(Vec<T>, Vec<T>)>,
        G: Fn(FalconH1Part, Vec<T>) -> Vec<T>,
        R: Fn(Vec<T>, Vec<u32>) -> Vec<T>,
        H: Fn(HeadShape, Vec<T>, Vec<T>, Vec<T>) -> Vec<T>,
     {
        let offset = (total - tokens) as usize;
        &&& tokens <= total
        &&& total * self.kv_width() <= usize::MAX
        &&& outside.look_fits::<T>(
            self.head_shape(),
            tokens as nat,
            total as nat,
            self.q_width(),
            self.kv_width(),
        )
        &&& forall|q: Vec<T>|
            q@.len() == tokens * self.q_width() ==> #[trigger] call_requires(
                arena.attend,
                (self.head_shape(), q, k, v, total, offset),
            )
        &&& forall|q: Vec<T>, r: Vec<T>| #[trigger]
            call_ensures(arena.attend, (self.head_shape(), q, k, v, total, offset), Some(r))
                && q@.len() == tokens * self.q_width() ==> r@.len() == q@.len()
        &&& call_requires(arena.fetch, (k, v))
        &&& forall|a: Vec<T>, b: Vec<T>| #[trigger]
            call_ensures(arena.fetch, (k, v), Some((a, b))) ==> a@.len() >= total
                * self.kv_width() && b@.len() >= total * self.kv_width()
    }
}

impl<T> FalconH1Rows<T> {
    /// Every part gave rows of its width.
    pub open spec fn sized(&self, cfg: &FalconH1Config, tokens: nat) -> bool {
        &&& self.normed.len() == tokens * cfg.hidden_size
        &&& self.q.len() == tokens * cfg.q_width()
        &&& self.q_rot.len() == tokens * cfg.q_width()
        &&& self.attended.len() == tokens * cfg.q_width()
        &&& self.k.len() == tokens * cfg.kv_width()
        &&& self.k_rot.len() == tokens * cfg.kv_width()
        &&& self.v.len() == tokens * cfg.kv_width()
        &&& self.ssm.len() == tokens * cfg.in_dim()
        &&& self.gated.len() == tokens * cfg.ssm_d_inner
        &&& self.ssm_out.len() == tokens * cfg.hidden_size
        &&& self.ffn_normed.len() == tokens * cfg.hidden_size
        &&& self.gate.len() == tokens * cfg.intermediate_size
        &&& self.up.len() == tokens * cfg.intermediate_size
        &&& self.down.len() == tokens * cfg.hidden_size
    }
}

impl<T: Copy, F: Fn(ScalarOp, T, T) -> T, C: Fn(Number) -> T, Z: Fn(Relation, T, T) -> bool> Scalars<T, F, C, Z> {
    /// The layer's input with attention and the state-space part added. The
    /// attention rows are taken as they lie, without an output projection.
    pub open spec fn mixers_added(&self, h: Seq<T>, attended: Seq<T>, ssm: Seq<T>) -> Seq<T> {
        self.residual(h, self.residual(attended.take(h.len() as int), ssm, None), None)
    }

    /// A call turns `h` into `out`, whatever attention and the state-space part
    /// gave: its parts run one after the other. `rows` are what they give on the
    /// way.
    pub open spec fn layer_mixed<G, R, H>(
        &self,
        outside: &Surroundings<G, R, H>,
        cfg: &FalconH1Config,
        positions: Seq<u32>,
        h: Seq<T>,
        rows: FalconH1Rows<T>,
        out: Seq<T>,
    ) -> bool where
        G: Fn(FalconH1Part, Vec<T>) -> Vec<T>,
        R: Fn(Vec<T>, Vec<u32>) -> Vec<T>,
        H: Fn(HeadShape, Vec<T>, Vec<T>, Vec<T>) -> Vec<T>,
     {
        let mixed = self.mixers_added(h, rows.attended, rows.ssm_out);
        &&& outside.part_ran(FalconH1Part::AttnNorm, h, rows.normed)
        &&& outside.part_ran(FalconH1Part::Query, rows.normed, rows.q)
        &&& outside.part_ran(FalconH1Part::Key, rows.normed, rows.k)
        &&& outside.part_ran(FalconH1Part::Value, rows.normed, rows.v)
        &&& outside.rotated(rows.q, expanded(positions, cfg.num_heads as nat), rows.q_rot)
        &&& outside.rotated(rows.k, expanded(positions, cfg.num_kv_heads as nat), rows.k_rot)
        &&& outside.part_ran(FalconH1Part::SsmIn, rows.normed, rows.ssm)
        &&& outside.part_ran(FalconH1Part::SsmOut, rows.gated, rows.ssm_out)
        &&& outside.part_ran(FalconH1Part::FfnNorm, mixed, rows.ffn_normed)
        &&& outside.part_ran(FalconH1Part::Gate, rows.ffn_normed, rows.gate)
        &&& outside.part_ran(FalconH1Part::Up, rows.ffn_normed, rows.up)
        &&& outside.part_ran(FalconH1Part::Down, self.gated(rows.gate, rows.up), rows.down)
        &&& out == self.residual(mixed, rows.down, None)
        &&& rows.sized(cfg, positions.len())
    }

    /// A call turns `h` into `out`, whatever attention gave, and what the
    /// state-space part looks back on turns into what it looks back on next.
    pub open spec fn layer_around<G, R, H>(
        &self,
        outside: &Surroundings<G, R, H>,
        cfg: &FalconH1Config,
        w: &FalconH1Block<T>,
        positions: Seq<u32>,
        before: FalconH1State<T>,
        after: FalconH1State<T>,
        h: Seq<T>,
        rows: FalconH1Rows<T>,
        out: Seq<T>,
    ) -> bool where
        G: Fn(FalconH1Part, Vec<T>) -> Vec<T>,
        R: Fn(Vec<T>, Vec<u32>) -> Vec<T>,
        H: Fn(HeadShape, Vec<T>, Vec<T>, Vec<T>) -> Vec<T>,
     {
        let tokens = positions.len();
        &&& self.layer_mixed(outside, cfg, positions, h, rows, out)
        &&& rows.gated == self.layer_rows(cfg, w, before.kept, before.cells, rows.ssm, tokens)
        &&& after.kept == suffix(
            before.kept + conv_rows(cfg, rows.ssm, tokens),
            before.kept.len(),
        )
        &&& after.cells == self.layer_state(cfg, w, before.kept, before.cells, rows.ssm, tokens)
    }

    /// A call turns `h` into `out`, and what the layer looks back on into what
    /// it looks back on next: keys and values join those before them, and
    /// attention runs over all of them.
    pub open spec fn layer_ran<G, R, H>(
        &self,
        outside: &Surroundings<G, R, H>,
        cfg: &FalconH1Config,
        w: &FalconH1Block<T>,
        positions: Seq<u32>,
        before: FalconH1State<T>,
        after: FalconH1State<T>,
        h: Seq<T>,
        rows: FalconH1Rows<T>,
        out: Seq<T>,
    ) -> bool where
        G: Fn(FalconH1Part, Vec<T>) -> Vec<T>,
        R: Fn(Vec<T>, Vec<u32>) -> Vec<T>,
        H: Fn(HeadShape, Vec<T>, Vec<T>, Vec<T>) -> Vec<T>,
     {
        &&& self.layer_around(outside, cfg, w, positions, before, after, h, rows, out)
        &&& after.k == before.k + rows.k_rot
        &&& after.v == before.v + rows.v
        &&& outside.attended(cfg.head_shape(), rows.q_rot, after.k, after.v, rows.attended)
    }
}

/// What attention makes of the normed rows of a call on its way.
#[verifier::ext_equal]
pub struct GqaRows<T> {
    pub q: Seq<T>,
    pub k: Seq<T>,
    pub v: Seq<T>,
    pub q_rot: Seq<T>,
    pub k_rot: Seq<T>,
}

impl<T> GqaRows<T> {
    /// The normed rows were projected and rotated.
    pub open spec fn ran<G, R, H>(
        &self,
        outside: &Surroundings<G, R, H>,
        cfg: &FalconH1Config,
        positions: Seq<u32>,
        normed: Seq<T>,
    ) -> bool where
        G: Fn(FalconH1Part, Vec<T>) -> Vec<T>,
        R: Fn(Vec<T>, Vec<u32>) -> Vec<T>,
     {
        &&& outside.part_ran(FalconH1Part::Query, normed, self.q)
        &&& outside.part_ran(FalconH1Part::Key, normed, self.k)
        &&& outside.part_ran(FalconH1Part::Value, normed, self.v)
        &&& outside.rotated(self.q, expanded(positions, cfg.num_heads as nat), self.q_rot)
        &&& outside.rotated(self.k, expanded(positions, cfg.num_kv_heads as nat), self.k_rot)
        &&& self.q.len() == positions.len() * cfg.q_width()
        &&& self.q_rot.len() == self.q.len()
        &&& self.k.len() == positions.len() * cfg.kv_width()
        &&& self.k_rot.len() == self.k.len()
        &&& self.v.len() == self.k.len()
    }
}

/// What a call leaves of a cache and gives, by how appending to the device
/// history ended: where the device took the rows, it holds the history, and
/// attention runs over its first rows; where it cannot, the host rows grow,
/// and attention runs over them.
pub open spec fn gqa_ended<
    T,
    A: Fn(ArenaRows<T>) -> ArenaAppend,
    D: Fn(HeadShape, Vec<T>, DeviceBuffer, DeviceBuffer, usize, usize) -> Option<Vec<T>>,
    E: Fn(DeviceBuffer, DeviceBuffer) -> Option<(Vec<T>, Vec<T>)>,
    G: Fn(FalconH1Part, Vec<T>) -> Vec<T>,
    R: Fn(Vec<T>, Vec<u32>) -> Vec<T>,
    H: Fn(HeadShape, Vec<T>, Vec<T>, Vec<T>) -> Vec<T>,
>(
    arena: &Arena<A, D, E>,
    outside: &Surroundings<G, R, H>,
    cfg: &FalconH1Config,
    tokens: nat,
    rows: GqaRows<T>,
    outcome: ArenaAppend,
    before: FalconH1LayerCache<T>,
    after: FalconH1LayerCache<T>,
    attended: Option<Seq<T>>,
) -> bool {
    &&& after.conv_state == before.conv_state
    &&& after.ssm_state == before.ssm_state
    &&& match outcome {
        ArenaAppend::Done { k, v, total } => {
            &&& after.k_device == Some(k)
            &&& after.v_device == Some(v)
            &&& after.k_cache == before.k_cache
            &&& after.v_cache == before.v_cache
            &&& after.current_pos == total
            &&& arena.looked(
                outside,
                cfg.head_shape(),
                rows.q_rot,
                k,
                v,
                total,
                tokens,
                cfg.kv_width(),
                attended,
            )
        },
        ArenaAppend::Unimplemented => {
            &&& after.k_device == before.k_device
            &&& after.v_device == before.v_device
            &&& after.k_cache@ == before.k_cache@ + rows.k_rot
            &&& after.v_cache@ == before.v_cache@ + rows.v
            &&& after.current_pos == before.current_pos + tokens
            &&& attended matches Some(out)
            &&& outside.attended(
                cfg.head_shape(),
                rows.q_rot,
                after.k_cache@,
                after.v_cache@,
                out,
            )
        },
        ArenaAppend::Failed => attended is None && after == before,
    }
}

proof fn lemma_whole_rows(held: int, tokens: int, width: int)
    requires
        0 <= held,
        0 <= tokens,
        0 < width,
        held % width == 0,
    ensures
        held + tokens * width == (held / width + tokens) * width,
        (held + tokens * width) % width == 0,
{
    vstd::arithmetic::div_mod::lemma_fundamental_div_mod(held, width);
    let q = held / width;
    assert(held + tokens * width == (q + tokens) * width) by (nonlinear_arith)
        requires
            held == width * q,
    ;
    vstd::arithmetic::div_mod::lemma_mod_multiples_basic(q + tokens, width);
}

/// The rows that a result holds.
pub open spec fn rows_of<T>(result: Result<Vec<T>, Error>) -> Option<Seq<T>> {
    match result {
        Ok(rows) => Some(rows@),
        Err(_) => None,
    }
}

/// How a call ended: with rows, or an error.
pub open spec fn ended_with<T>(result: Result<Vec<T>, Error>) -> Result<Seq<T>, Error> {
    match result {
        Ok(rows) => Ok(rows@),
        Err(e) => Err(e),
    }
}

/// Attends over the first rows of the device history.
fn look_in_arena<
    T: Copy,
    A: Fn(ArenaRows<T>) -> ArenaAppend,
    D: Fn(HeadShape, Vec<T>, DeviceBuffer, DeviceBuffer, usize, usize) -> Option<Vec<T>>,
    E: Fn(DeviceBuffer, DeviceBuffer) -> Option<(Vec<T>, Vec<T>)>,
    G: Fn(FalconH1Part, Vec<T>) -> Vec<T>,
    R: Fn(Vec<T>, Vec<u32>) -> Vec<T>,
    H: Fn(HeadShape, Vec<T>, Vec<T>, Vec<T>) -> Vec<T>,
>(
    cfg: &FalconH1Config,
    arena: &Arena<A, D, E>,
    outside: &Surroundings<G, R, H>,
    q_rot: &Vec<T>,
    k: DeviceBuffer,
    v: DeviceBuffer,
    total: usize,
    tokens: usize,
) -> (attended: Result<Vec<T>, Error>)
    requires
        cfg.looked_after::<T, A, D, E, G, R, H>(arena, outside, k, v, total, tokens),
        q_rot@.len() == tokens * cfg.q_width(),
        cfg.num_kv_heads * cfg.head_dim <= usize::MAX,
    ensures
        arena.looked(
            outside,
            cfg.head_shape(),
            q_rot@,
            k,
            v,
            total,
            tokens as nat,
            cfg.kv_width(),
            rows_of(attended),
        ),
        attended matches Ok(rows) ==> rows@.len() == q_rot@.len(),
        attended matches Err(e) ==> e == Error::ArenaLost,
{
    let row: usize = cfg.num_kv_heads * cfg.head_dim;
    assert(row == cfg.kv_width());
    let own = copy_range(q_rot.as_slice(), 0, q_rot.len());
    assert(own@ =~= q_rot@);
    let heads: HeadShape = cfg.head_shape();
    let ghost given = (heads, own, k, v, total, (total - tokens) as usize);
    let answer = (arena.attend)(heads, own, k, v, total, total - tokens);
    assert(call_ensures(arena.attend, given, answer));
    match answer {
        Some(rows) => {
            assert(arena.answered(
                heads,
                q_rot@,
                k,
                v,
                total,
                (total - tokens) as usize,
                Some(rows@),
            ));
            Ok(rows)
        },
        None => {
            assert(arena.answered(
                heads,
                q_rot@,
                k,
                v,
                total,
                (total - tokens) as usize,
                None::<Seq<T>>,
            ));
            let found = (arena.fetch)(k, v);
            assert(call_ensures(arena.fetch, (k, v), found));
            match found {
                Some((a, b)) => {
                    assert(arena.fetched(k, v, Some((a@, b@))));
                    let keys = arena_rows(a.as_slice(), total, row);
                    let values = arena_rows(b.as_slice(), total, row);
                    Ok(outside.look(cfg.head_shape(), q_rot, &keys, &values))
                },
                None => {
                    assert(arena.fetched(k, v, None::<(Seq<T>, Seq<T>)>));
                    Err(Error::ArenaLost)
                },
            }
        },
    }
}

/// Attends the normed rows of a call: projects and rotates them, appends keys
/// and values to the device history, and attends over that. Where the device
/// cannot hold it, the rows join the host's.
pub fn gqa_attn_with_cache<
    T: Copy,
    A: Fn(ArenaRows<T>) -> ArenaAppend,
    D: Fn(HeadShape, Vec<T>, DeviceBuffer, DeviceBuffer, usize, usize) -> Option<Vec<T>>,
    E: Fn(DeviceBuffer, DeviceBuffer) -> Option<(Vec<T>, Vec<T>)>,
    G: Fn(FalconH1Part, Vec<T>) -> Vec<T>,
    R: Fn(Vec<T>, Vec<u32>) -> Vec<T>,
    H: Fn(HeadShape, Vec<T>, Vec<T>, Vec<T>) -> Vec<T>,
>(
    cfg: &FalconH1Config,
    arena: &Arena<A, D, E>,
    outside: &Surroundings<G, R, H>,
    cache: &mut FalconH1LayerCache<T>,
    normed: &Vec<T>,
    positions: &[u32],
) -> (attended: Result<Vec<T>, Error>)
    requires
        cfg.served_by::<T, G, R, H>(outside, positions@.len(), old(cache).mirrored(cfg)),
        cfg.kept_by::<T, A, D, E, G, R, H>(
            arena,
            outside,
            *old(cache),
            positions@.len() as usize,
        ),
        old(cache).mirrors(cfg),
        normed@.len() == positions@.len() * cfg.hidden_size,
        old(cache).current_pos + positions@.len() <= usize::MAX,
        positions@.len() * cfg.num_heads <= usize::MAX,
        positions@.len() * cfg.num_kv_heads <= usize::MAX,
        cfg.num_kv_heads * cfg.head_dim <= usize::MAX,
    ensures
        exists|rows: GqaRows<T>, outcome: ArenaAppend|
            {
                &&& #[trigger] rows.ran(outside, cfg, positions@, normed@)
                &&& #[trigger] arena.appended(
                    cfg,
                    *old(cache),
                    rows.k_rot,
                    rows.v,
                    positions@.len(),
                    outcome,
                )
                &&& gqa_ended(
                    arena,
                    outside,
                    cfg,
                    positions@.len(),
                    rows,
                    outcome,
                    *old(cache),
                    *final(cache),
                    rows_of(attended),
                )
            },
        attended matches Ok(rows) ==> rows@.len() == positions@.len() * cfg.q_width(),
        attended matches Err(e) ==> e == Error::ArenaLost,
        final(cache).mirrors(cfg),
{
    let tokens: usize = positions.len();
    let ghost held = cache.mirrored(cfg);
    let ghost n = positions@.len();
    let q = cfg.ask(outside, FalconH1Part::Query, normed, Ghost(n), Ghost(held));
    let k = cfg.ask(outside, FalconH1Part::Key, normed, Ghost(n), Ghost(held));
    let v = cfg.ask(outside, FalconH1Part::Value, normed, Ghost(n), Ghost(held));
    proof {
        let (t, d) = (tokens as int, cfg.head_dim as int);
        let (h, g) = (cfg.num_heads as int, cfg.num_kv_heads as int);
        assert((t * h) * d == t * (h * d) && (t * g) * d == t * (g * d)) by (nonlinear_arith);
        assert(0 <= h * d && 0 <= g * d) by (nonlinear_arith)
            requires
                0 <= h,
                0 <= g,
                0 <= d,
        ;
    }
    let q_rot = outside.turn(&q, expand_positions(positions, cfg.num_heads));
    let k_rot = outside.turn(&k, expand_positions(positions, cfg.num_kv_heads));
    let ghost rows = GqaRows { q: q@, k: k@, v: v@, q_rot: q_rot@, k_rot: k_rot@ };
    assert(rows.ran(outside, cfg, positions@, normed@));
    let own_k = copy_range(k_rot.as_slice(), 0, k_rot.len());
    let own_v = copy_range(v.as_slice(), 0, v.len());
    assert(own_k@ =~= k_rot@);
    assert(own_v@ =~= v@);
    let call = ArenaRows {
        k_held: cache.k_device,
        v_held: cache.v_device,
        k: own_k,
        v: own_v,
        pos: cache.current_pos,
        tokens,
        row: cfg.num_kv_heads * cfg.head_dim,
    };
    let ghost given = (call,);
    let outcome = (arena.append)(call);
    assert(call_ensures(arena.append, given, outcome));
    assert(given.0.behind(cfg, *cache, n));
    assert(arena.appended(cfg, *cache, rows.k_rot, rows.v, n, outcome));
    let ghost before = *cache;
    match outcome {
        ArenaAppend::Done { k, v, total } => {
            assert(call_ensures(arena.append, given, ArenaAppend::Done { k, v, total }));
        },
        _ => {},
    }
    after_append(cache, outcome, k_rot.as_slice(), v.as_slice(), tokens);
    proof {
        lemma_whole_rows(
            before.k_cache@.len() as int,
            tokens as int,
            cfg.kv_width() as int,
        );
    }
    let attended = match outcome {
        ArenaAppend::Done { k, v, total } => look_in_arena(
            cfg,
            arena,
            outside,
            &q_rot,
            k,
            v,
            total,
            tokens,
        ),
        ArenaAppend::Unimplemented => Ok(
            outside.look(cfg.head_shape(), &q_rot, &cache.k_cache, &cache.v_cache),
        ),
        ArenaAppend::Failed => Err(Error::ArenaLost),
    };
    assert(gqa_ended(
        arena,
        outside,
        cfg,
        positions@.len(),
        rows,
        outcome,
        before,
        *cache,
        rows_of(attended),
    ));
    attended
}

/// Runs a layer on one row per position. A device history that is lost, or a
/// kernel that fails, ends the call.
#[verifier::spinoff_prover]
#[verifier::rlimit(60)]
pub fn forward_block_cpu<
    T: Copy,
    F: Fn(ScalarOp, T, T) -> T,
    C: Fn(Number) -> T,
    Z: Fn(Relation, T, T) -> bool,
    A: Fn(ArenaRows<T>) -> ArenaAppend,
    D: Fn(HeadShape, Vec<T>, DeviceBuffer, DeviceBuffer, usize, usize) -> Option<Vec<T>>,
    E: Fn(DeviceBuffer, DeviceBuffer) -> Option<(Vec<T>, Vec<T>)>,
    G: Fn(FalconH1Part, Vec<T>) -> Vec<T>,
    R: Fn(Vec<T>, Vec<u32>) -> Vec<T>,
    H: Fn(HeadShape, Vec<T>, Vec<T>, Vec<T>) -> Vec<T>,
    K: Fn(ConvInputs<T>) -> DeviceRun<Vec<T>>,
    S: Fn(ScanInputs<T>) -> DeviceRun<ScanOutputs<T>>,
>(
    x: &Scalars<T, F, C, Z>,
    cfg: &FalconH1Config,
    w: &FalconH1Block<T>,
    arena: &Arena<A, D, E>,
    outside: &Surroundings<G, R, H>,
    kernels: &SsmKernels<K, S>,
    cache: &mut FalconH1LayerCache<T>,
    h: &Vec<T>,
    positions: &[u32],
) -> (result: Result<Vec<T>, Error>)
    requires
        x.wf(),
        cfg.scans(),
        w.wf(cfg),
        kernels.serve::<T>(cfg),
        old(cache).wf(cfg),
        old(cache).mirrors(cfg),
        h@.len() == positions@.len() * cfg.hidden_size,
        cfg.hidden_size <= cfg.q_width(),
        (cfg.ssm_d_conv - 1 + positions@.len()) * cfg.conv_dim() <= usize::MAX,
        positions@.len() * cfg.ssm_d_inner <= usize::MAX,
        positions@.len() * cfg.num_heads <= usize::MAX,
        positions@.len() * cfg.num_kv_heads <= usize::MAX,
        cfg.num_kv_heads * cfg.head_dim <= usize::MAX,
        old(cache).current_pos + positions@.len() <= usize::MAX,
        cfg.served_by::<T, G, R, H>(outside, positions@.len(), old(cache).mirrored(cfg)),
        cfg.kept_by::<T, A, D, E, G, R, H>(
            arena,
            outside,
            *old(cache),
            positions@.len() as usize,
        ),
    ensures
        exists|rows: FalconH1Rows<T>, outcome: ArenaAppend|
            {
                &&& outside.part_ran(FalconH1Part::AttnNorm, h@, rows.normed)
                &&& rows.gqa().ran(outside, cfg, positions@, rows.normed)
                &&& #[trigger] arena.appended(
                    cfg,
                    *old(cache),
                    rows.k_rot,
                    rows.v,
                    positions@.len(),
                    outcome,
                )
                &&& #[trigger] x.layer_ended(
                    arena,
                    outside,
                    kernels,
                    cfg,
                    w,
                    positions@,
                    h@,
                    rows,
                    outcome,
                    *old(cache),
                    *final(cache),
                    ended_with(result),
                )
            },
        result matches Ok(out) ==> out@.len() == positions@.len() * cfg.hidden_size,
        final(cache).wf(cfg),
        final(cache).mirrors(cfg),
{
    let tokens: usize = positions.len();
    let ghost start = *cache;
    let ghost before = cache.held();
    let ghost mirrored = cache.mirrored(cfg);
    let ghost n = positions@.len();
    let normed = cfg.ask(outside, FalconH1Part::AttnNorm, h, Ghost(n), Ghost(mirrored));
    let tried = gqa_attn_with_cache(cfg, arena, outside, cache, &normed, positions);
    let ghost (gqa, outcome) = choose|rows: GqaRows<T>, outcome: ArenaAppend|
        {
            &&& #[trigger] rows.ran(outside, cfg, positions@, normed@)
            &&& #[trigger] arena.appended(cfg, start, rows.k_rot, rows.v, n, outcome)
            &&& gqa_ended(
                arena,
                outside,
                cfg,
                positions@.len(),
                rows,
                outcome,
                start,
                *cache,
                rows_of(tried),
            )
        };
    let ghost mut rows = FalconH1Rows {
        normed: normed@,
        q: gqa.q,
        k: gqa.k,
        v: gqa.v,
        q_rot: gqa.q_rot,
        k_rot: gqa.k_rot,
        attended: Seq::empty(),
        ssm: Seq::empty(),
        gated: Seq::empty(),
        ssm_out: Seq::empty(),
        ffn_normed: Seq::empty(),
        gate: Seq::empty(),
        up: Seq::empty(),
        down: Seq::empty(),
    };
    assert(rows.gqa() =~= gqa);
    let attended = match tried {
        Ok(rows) => rows,
        Err(e) => {
            assert(x.layer_ended(
                arena,
                outside,
                kernels,
                cfg,
                w,
                positions@,
                h@,
                rows,
                outcome,
                start,
                *cache,
                Err(e),
            ));
            return Err(e);
        },
    };
    let ghost between = *cache;
    let ssm = cfg.ask(outside, FalconH1Part::SsmIn, &normed, Ghost(n), Ghost(mirrored));
    proof {
        rows = FalconH1Rows { attended: attended@, ssm: ssm@, ..rows };
        assert(rows.gqa() =~= gqa);
    }
    let scanned = match mamba2_layer_cpu(x, kernels, cfg, w, cache, ssm.as_slice(), tokens) {
        Ok(rows) => rows,
        Err(e) => {
            assert(x.layer_ended(
                arena,
                outside,
                kernels,
                cfg,
                w,
                positions@,
                h@,
                rows,
                outcome,
                start,
                *cache,
                Err(e),
            ));
            return Err(e);
        },
    };
    let ssm_out = cfg.ask(outside, FalconH1Part::SsmOut, &scanned, Ghost(n), Ghost(mirrored));
    let len: usize = h.len();
    proof {
        let (hidden, q_width) = (cfg.hidden_size as int, cfg.q_width() as int);
        assert(tokens * hidden <= tokens * q_width) by (nonlinear_arith)
            requires
                hidden <= q_width,
                tokens >= 0,
        ;
    }
    let own = copy_range(attended.as_slice(), 0, len);
    assert(own@ =~= attended@.take(len as int));
    let both = add_rows(x, own.as_slice(), ssm_out.as_slice(), None);
    let mixed = add_rows(x, h.as_slice(), both.as_slice(), None);
    let ffn_normed = cfg.ask(outside, FalconH1Part::FfnNorm, &mixed, Ghost(n), Ghost(mirrored));
    let gate = cfg.ask(outside, FalconH1Part::Gate, &ffn_normed, Ghost(n), Ghost(mirrored));
    let up = cfg.ask(outside, FalconH1Part::Up, &ffn_normed, Ghost(n), Ghost(mirrored));
    let active = activate_gated(x, Activation::Silu, gate.as_slice(), up.as_slice());
    assert(active@ =~= x.gated(gate@, up@));
    let down = cfg.ask(outside, FalconH1Part::Down, &active, Ghost(n), Ghost(mirrored));
    let out = add_rows(x, mixed.as_slice(), down.as_slice(), None);
    proof {
        rows = FalconH1Rows {
            gated: scanned@,
            ssm_out: ssm_out@,
            ffn_normed: ffn_normed@,
            gate: gate@,
            up: up@,
            down: down@,
            ..rows
        };
        assert(rows.gqa() =~= gqa);
        assert(x.layer_mixed(outside, cfg, positions@, h@, rows, out@));
        assert(x.layer_ended(
            arena,
            outside,
            kernels,
            cfg,
            w,
            positions@,
            h@,
            rows,
            outcome,
            start,
            *cache,
            Ok(out@),
        ));
    }
    Ok(out)
}

impl<T> FalconH1Rows<T> {
    /// What attention makes of the normed rows on its way.
    pub open spec fn gqa(&self) -> GqaRows<T> {
        GqaRows { q: self.q, k: self.k, v: self.v, q_rot: self.q_rot, k_rot: self.k_rot }
    }
}

impl<T: Copy, F: Fn(ScalarOp, T, T) -> T, C: Fn(Number) -> T, Z: Fn(Relation, T, T) -> bool> Scalars<T, F, C, Z> {
    /// What a call leaves of a cache and how it ends, by how appending to the
    /// device history ended. Where attention gave no rows, the call stops behind
    /// it; where a kernel of the state-space part failed, behind that.
    pub open spec fn layer_ended<A, D, E, G, R, H, K, S>(
        &self,
        arena: &Arena<A, D, E>,
        outside: &Surroundings<G, R, H>,
        kernels: &SsmKernels<K, S>,
        cfg: &FalconH1Config,
        w: &FalconH1Block<T>,
        positions: Seq<u32>,
        h: Seq<T>,
        rows: FalconH1Rows<T>,
        outcome: ArenaAppend,
        before: FalconH1LayerCache<T>,
        after: FalconH1LayerCache<T>,
        ended: Result<Seq<T>, Error>,
    ) -> bool where
        A: Fn(ArenaRows<T>) -> ArenaAppend,
        D: Fn(HeadShape, Vec<T>, DeviceBuffer, DeviceBuffer, usize, usize) -> Option<Vec<T>>,
        E: Fn(DeviceBuffer, DeviceBuffer) -> Option<(Vec<T>, Vec<T>)>,
        G: Fn(FalconH1Part, Vec<T>) -> Vec<T>,
        R: Fn(Vec<T>, Vec<u32>) -> Vec<T>,
        H: Fn(HeadShape, Vec<T>, Vec<T>, Vec<T>) -> Vec<T>,
        K: Fn(ConvInputs<T>) -> DeviceRun<Vec<T>>,
        S: Fn(ScanInputs<T>) -> DeviceRun<ScanOutputs<T>>,
     {
        let lost = ended == Err::<Seq<T>, Error>(Error::ArenaLost);
        let gated = if ended is Ok {
            Some(rows.gated)
        } else {
            None
        };
        &&& gqa_ended(
            arena,
            outside,
            cfg,
            positions.len(),
            rows.gqa(),
            outcome,
            before,
            (FalconH1LayerCache {
                conv_state: before.conv_state,
                ssm_state: before.ssm_state,
                ..after
            }),
            if lost {
                None
            } else {
                Some(rows.attended)
            },
        )
        &&& lost ==> after.conv_state == before.conv_state && after.ssm_state == before.ssm_state
        &&& !lost ==> {
            &&& outside.part_ran(FalconH1Part::SsmIn, rows.normed, rows.ssm)
            &&& self.ssm_ended(
                kernels,
                cfg,
                w,
                before.conv_state@,
                before.ssm_state@,
                rows.ssm,
                positions.len(),
                after.conv_state@,
                after.ssm_state@,
                gated,
            )
        }
        &&& match ended {
            Ok(out) => self.layer_mixed(outside, cfg, positions, h, rows, out),
            Err(e) => e == Error::ArenaLost || e == Error::KernelLost,
        }
    }
}

impl FalconH1Config {
    /// The parts and rotations treat every row for itself, and attention is
    /// causal: for `a` tokens after `held` and the `b` tokens that follow,
    /// `both` gives what `some` gives for the ones and `other` for the others.
    pub open spec fn by_rows<T, G1, R1, H1, G2, R2, H2, G, R, H>(
        &self,
        some: &Surroundings<G1, R1, H1>,
        other: &Surroundings<G2, R2, H2>,
        both: &Surroundings<G, R, H>,
        held: nat,
        a: nat,
        b: nat,
    ) -> bool where
        G1: Fn(FalconH1Part, Vec<T>) -> Vec<T>,
        R1: Fn(Vec<T>, Vec<u32>) -> Vec<T>,
        H1: Fn(HeadShape, Vec<T>, Vec<T>, Vec<T>) -> Vec<T>,
        G2: Fn(FalconH1Part, Vec<T>) -> Vec<T>,
        R2: Fn(Vec<T>, Vec<u32>) -> Vec<T>,
        H2: Fn(HeadShape, Vec<T>, Vec<T>, Vec<T>) -> Vec<T>,
        G: Fn(FalconH1Part, Vec<T>) -> Vec<T>,
        R: Fn(Vec<T>, Vec<u32>) -> Vec<T>,
        H: Fn(HeadShape, Vec<T>, Vec<T>, Vec<T>) -> Vec<T>,
     {
        &&& forall|p: FalconH1Part|
            part_by_rows::<FalconH1Part, T, G1, R1, H1, G2, R2, H2, G, R, H>(
                some,
                other,
                both,
                p,
                a,
                b,
                #[trigger] self.part_takes(p),
            )
        &&& turns_by_rows::<T, G1, R1, H1, G2, R2, H2, G, R, H>(
            some,
            other,
            both,
            self.head_dim as nat,
        )
        &&& looks_causally::<T, G1, R1, H1, G2, R2, H2, G, R, H>(
            some,
            other,
            both,
            self.head_shape(),
            held,
            a,
            b,
            self.q_width(),
            self.kv_width(),
        )
    }

    /// What the layer looks back on has the sizes that the configuration asks
    /// for, with `held` rows of keys and of values.
    pub open spec fn starts<T>(&self, held: nat, before: FalconH1State<T>) -> bool {
        &&& before.kept.len() == (self.ssm_d_conv - 1) * self.conv_dim()
        &&& before.cells.len() == self.ssm_d_inner * self.ssm_d_state
        &&& before.k.len() == held * self.kv_width()
        &&& before.v.len() == before.k.len()
    }
}

proof fn lemma_by_part<
    T,
    G1: Fn(FalconH1Part, Vec<T>) -> Vec<T>,
    R1: Fn(Vec<T>, Vec<u32>) -> Vec<T>,
    H1: Fn(HeadShape, Vec<T>, Vec<T>, Vec<T>) -> Vec<T>,
    G2: Fn(FalconH1Part, Vec<T>) -> Vec<T>,
    R2: Fn(Vec<T>, Vec<u32>) -> Vec<T>,
    H2: Fn(HeadShape, Vec<T>, Vec<T>, Vec<T>) -> Vec<T>,
    G: Fn(FalconH1Part, Vec<T>) -> Vec<T>,
    R: Fn(Vec<T>, Vec<u32>) -> Vec<T>,
    H: Fn(HeadShape, Vec<T>, Vec<T>, Vec<T>) -> Vec<T>,
>(
    cfg: &FalconH1Config,
    some: &Surroundings<G1, R1, H1>,
    other: &Surroundings<G2, R2, H2>,
    both: &Surroundings<G, R, H>,
    held: nat,
    a: nat,
    b: nat,
)
    requires
        cfg.by_rows::<T, G1, R1, H1, G2, R2, H2, G, R, H>(some, other, both, held, a, b),
    ensures
        forall|p: FalconH1Part, s: Seq<T>, rs: Seq<T>, t: Seq<T>, rt: Seq<T>, r: Seq<T>|
            #![trigger some.part_ran(p, s, rs), other.part_ran(p, t, rt), both.part_ran(p, s + t, r)]
            some.part_ran(p, s, rs) && other.part_ran(p, t, rt) && both.part_ran(p, s + t, r)
                && s.len() == a * cfg.part_takes(p) && t.len() == b * cfg.part_takes(p) ==> r == rs
                + rt,
{
    assert forall|p: FalconH1Part, s: Seq<T>, rs: Seq<T>, t: Seq<T>, rt: Seq<T>, r: Seq<T>|
        #![trigger some.part_ran(p, s, rs), other.part_ran(p, t, rt), both.part_ran(p, s + t, r)]
        some.part_ran(p, s, rs) && other.part_ran(p, t, rt) && both.part_ran(p, s + t, r)
            && s.len() == a * cfg.part_takes(p) && t.len() == b * cfg.part_takes(p) implies r == rs
        + rt by {
        assert(part_by_rows::<FalconH1Part, T, G1, R1, H1, G2, R2, H2, G, R, H>(
            some,
            other,
            both,
            p,
            a,
            b,
            cfg.part_takes(p),
        ));
    }
}

/// Decoding matches prefill: running a layer on a stretch of tokens in one call
/// gives the rows of two calls, and leaves the same to look back on, where
/// attention gives rows as wide as the layer's.
///
/// `some` and `other` run the parts of the two calls, `both` those of the one.
#[verifier::spinoff_prover]
#[verifier::rlimit(60)]
pub proof fn law_block_in_two_calls<
    T: Copy,
    F: Fn(ScalarOp, T, T) -> T,
    C: Fn(Number) -> T,
    Z: Fn(Relation, T, T) -> bool,
    G1: Fn(FalconH1Part, Vec<T>) -> Vec<T>,
    R1: Fn(Vec<T>, Vec<u32>) -> Vec<T>,
    H1: Fn(HeadShape, Vec<T>, Vec<T>, Vec<T>) -> Vec<T>,
    G2: Fn(FalconH1Part, Vec<T>) -> Vec<T>,
    R2: Fn(Vec<T>, Vec<u32>) -> Vec<T>,
    H2: Fn(HeadShape, Vec<T>, Vec<T>, Vec<T>) -> Vec<T>,
    G: Fn(FalconH1Part, Vec<T>) -> Vec<T>,
    R: Fn(Vec<T>, Vec<u32>) -> Vec<T>,
    H: Fn(HeadShape, Vec<T>, Vec<T>, Vec<T>) -> Vec<T>,
>(
    x: &Scalars<T, F, C, Z>,
    some: &Surroundings<G1, R1, H1>,
    other: &Surroundings<G2, R2, H2>,
    both: &Surroundings<G, R, H>,
    cfg: &FalconH1Config,
    w: &FalconH1Block<T>,
    held: nat,
    positions: Seq<u32>,
    positions2: Seq<u32>,
    before: FalconH1State<T>,
    between: FalconH1State<T>,
    after: FalconH1State<T>,
    after_all: FalconH1State<T>,
    h: Seq<T>,
    h2: Seq<T>,
    rows: FalconH1Rows<T>,
    rows2: FalconH1Rows<T>,
    all: FalconH1Rows<T>,
    out: Seq<T>,
    out2: Seq<T>,
    out_all: Seq<T>,
)
    requires
        cfg.by_rows::<T, G1, R1, H1, G2, R2, H2, G, R, H>(
            some,
            other,
            both,
            held,
            positions.len(),
            positions2.len(),
        ),
        cfg.scans(),
        cfg.q_width() == cfg.hidden_size,
        cfg.starts(held, before),
        h.len() == positions.len() * cfg.hidden_size,
        h2.len() == positions2.len() * cfg.hidden_size,
        x.layer_ran(some, cfg, w, positions, before, between, h, rows, out),
        x.layer_ran(other, cfg, w, positions2, between, after, h2, rows2, out2),
        x.layer_ran(
            both,
            cfg,
            w,
            positions + positions2,
            before,
            after_all,
            h + h2,
            all,
            out_all,
        ),
    ensures
        out_all == out + out2,
        after_all == after,
{
    let (a, b) = (positions.len(), positions2.len());
    lemma_widths_add(a, b, cfg.hidden_size as nat);
    lemma_widths_add(a, b, cfg.q_width());
    lemma_widths_add(a, b, cfg.kv_width());
    lemma_widths_add(a, b, cfg.in_dim() as nat);
    lemma_widths_add(a, b, cfg.intermediate_size as nat);
    lemma_widths_add(a, b, cfg.ssm_d_inner as nat);
    law_expanded_joins(positions, positions2, cfg.num_heads as nat);
    law_expanded_joins(positions, positions2, cfg.num_kv_heads as nat);
    let (qw, kv) = (cfg.q_width(), cfg.kv_width());
    lemma_widths_add(held, a, kv);
    assert((a * cfg.num_heads) * cfg.head_dim == a * (cfg.num_heads * cfg.head_dim) && (b
        * cfg.num_heads) * cfg.head_dim == b * (cfg.num_heads * cfg.head_dim) && (a
        * cfg.num_kv_heads) * cfg.head_dim == a * (cfg.num_kv_heads * cfg.head_dim) && (b
        * cfg.num_kv_heads) * cfg.head_dim == b * (cfg.num_kv_heads * cfg.head_dim))
        by (nonlinear_arith);
    lemma_by_part(cfg, some, other, both, held, a, b);
    assert(all.normed == rows.normed + rows2.normed);
    assert(all.q == rows.q + rows2.q);
    assert(all.k == rows.k + rows2.k);
    assert(all.v == rows.v + rows2.v);
    assert(all.q_rot == rows.q_rot + rows2.q_rot);
    assert(all.k_rot == rows.k_rot + rows2.k_rot);
    assert(before.k + all.k_rot =~= between.k + rows2.k_rot);
    assert(before.v + all.v =~= between.v + rows2.v);
    assert(all.attended == rows.attended + rows2.attended);
    assert(all.ssm == rows.ssm + rows2.ssm);
    law_layer_in_two_calls(
        x,
        cfg,
        w,
        before.kept,
        before.cells,
        rows.ssm,
        rows2.ssm,
        a,
        b,
    );
    let scanned = x.layer_rows(cfg, w, before.kept, before.cells, rows.ssm, a);
    let scanned2 = x.layer_rows(cfg, w, between.kept, between.cells, rows2.ssm, b);
    assert(all.gated == scanned + scanned2);
    assert(all.ssm_out == rows.ssm_out + rows2.ssm_out);
    let mixed = x.mixers_added(h, rows.attended, rows.ssm_out);
    let mixed2 = x.mixers_added(h2, rows2.attended, rows2.ssm_out);
    assert(x.mixers_added(h + h2, all.attended, all.ssm_out) =~= mixed + mixed2);
    assert(all.ffn_normed == rows.ffn_normed + rows2.ffn_normed);
    assert(all.gate == rows.gate + rows2.gate);
    assert(all.up == rows.up + rows2.up);
    assert(x.gated(all.gate, all.up) =~= x.gated(rows.gate, rows.up) + x.gated(
        rows2.gate,
        rows2.up,
    ));
    assert(all.down == rows.down + rows2.down);
    assert(x.residual(mixed + mixed2, all.down, None) =~= out + out2);
    assert(after_all =~= after);
}

} // verus!
