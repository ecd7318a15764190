//! Running the operations of a block on rows held by the host.

use crate::block_program::{
    at_hand, fed, law_block_is_well_shaped, law_block_reads_what_was_written, reads, writes,
    AttentionDesign, BlockDesign, BlockOp, Ffn, FfnInput, Reg,
};
use crate::kernels::{activate_gated, activate_row};
use crate::kv_attention::RefKvCache;
use crate::numeric::Real;
use crate::rows::{append_all, columns, copy_range, split_qkv};
use crate::scalar::{fill_row, Number, Relation, ScalarOp, Scalars};
use vstd::prelude::*;

verus! {

/// How many values a block has.
pub const SLOTS: usize = 15;

/// Where a value is held.
pub open spec fn slot(reg: Reg) -> int {
    match reg {
        Reg::Input => 0,
        Reg::Normed => 1,
        Reg::Fused => 2,
        Reg::Query => 3,
        Reg::Key => 4,
        Reg::Value => 5,
        Reg::Attended => 6,
        Reg::Projected => 7,
        Reg::Residual => 8,
        Reg::FfnInput => 9,
        Reg::Gate => 10,
        Reg::Up => 11,
        Reg::Activated => 12,
        Reg::Mlp => 13,
        Reg::Output => 14,
    }
}

fn slot_of(reg: Reg) -> (i: usize)
    ensures
        i == slot(reg),
        i < SLOTS,
{
    match reg {
        Reg::Input => 0,
        Reg::Normed => 1,
        Reg::Fused => 2,
        Reg::Query => 3,
        Reg::Key => 4,
        Reg::Value => 5,
        Reg::Attended => 6,
        Reg::Projected => 7,
        Reg::Residual => 8,
        Reg::FfnInput => 9,
        Reg::Gate => 10,
        Reg::Up => 11,
        Reg::Activated => 12,
        Reg::Mlp => 13,
        Reg::Output => 14,
    }
}

proof fn slots_differ(a: Reg, b: Reg)
    ensures
        slot(a) == slot(b) ==> a == b,
        0 <= slot(a) < SLOTS,
{
}

/// The values of a block while it runs.
#[derive(Debug)]
pub struct Registers<T> {
    pub slots: Vec<Vec<T>>,
}

impl<T: Copy> Registers<T> {
    /// Every value has its place.
    pub open spec fn wf(&self) -> bool {
        self.slots@.len() == SLOTS
    }

    /// What a value holds.
    pub open spec fn at(&self, reg: Reg) -> Seq<T> {
        self.slots@[slot(reg)]@
    }

    /// What every value holds.
    pub open spec fn values(&self) -> Map<Reg, Seq<T>> {
        Map::new(|r: Reg| true, |r: Reg| self.at(r))
    }

    /// Only the input is there.
    fn started(input: Vec<T>) -> (regs: Self)
        ensures
            regs.wf(),
            regs.values() == input_only(input@),
    {
        let mut slots: Vec<Vec<T>> = Vec::new();
        slots.push(input);
        for i in 1..SLOTS
            invariant
                slots@.len() == i,
                slots@[0]@ == input@,
                forall|j: int| 1 <= j < i ==> (#[trigger] slots@[j])@ == Seq::<T>::empty(),
        {
            slots.push(Vec::new());
        }
        let regs = Registers { slots };
        proof {
            assert forall|r: Reg| regs.at(r) == input_only(input@)[r] by {
                slots_differ(r, Reg::Input);
            }
            assert(regs.values() =~= input_only(input@));
        }
        regs
    }

    pub(crate) fn read(&self, reg: Reg) -> (v: Vec<T>)
        requires
            self.wf(),
        ensures
            v@ == self.values()[reg],
    {
        let i: usize = slot_of(reg);
        proof {
            slots_differ(reg, reg);
        }
        let v = copy_range(self.slots[i].as_slice(), 0, self.slots[i].len());
        assert(v@ =~= self.at(reg));
        v
    }

    fn put(&mut self, reg: Reg, v: Vec<T>)
        requires
            old(self).wf(),
        ensures
            final(self).wf(),
            final(self).values() == old(self).values().insert(reg, v@),
    {
        let i: usize = slot_of(reg);
        let ghost before = self.values();
        self.slots.set(i, v);
        proof {
            assert forall|r: Reg| self.at(r) == before.insert(reg, v@)[r] by {
                slots_differ(r, reg);
            }
            assert(self.values() =~= before.insert(reg, v@));
        }
    }
}

/// The values before a block runs: its input alone.
pub open spec fn input_only<T>(input: Seq<T>) -> Map<Reg, Seq<T>> {
    Map::new(
        |r: Reg| true,
        |r: Reg|
            if r == Reg::Input {
                input
            } else {
                Seq::empty()
            },
    )
}

/// The values of a block and the history that it keeps.
#[verifier::ext_equal]
pub struct BlockValues<T> {
    pub regs: Map<Reg, Seq<T>>,
    pub k: Seq<T>,
    pub v: Seq<T>,
}

/// What a block leaves to its surroundings: `apply` runs projections, norms,
/// rotations and experts, `attend` runs attention.
pub struct Outside<G, H> {
    pub apply: G,
    pub attend: H,
}

/// The operation is one that `apply` runs.
pub open spec fn is_applied(op: BlockOp) -> bool {
    match op {
        BlockOp::Norm { .. } => true,
        BlockOp::Linear { .. } => true,
        BlockOp::HeadNorm { .. } => true,
        BlockOp::Rope { .. } => true,
        BlockOp::Experts { .. } => true,
        _ => false,
    }
}

/// What an applied operation reads.
pub open spec fn source_of(op: BlockOp) -> Reg {
    match op {
        BlockOp::Norm { src, .. } => src,
        BlockOp::Linear { src, .. } => src,
        BlockOp::HeadNorm { reg, .. } => reg,
        BlockOp::Rope { reg, .. } => reg,
        BlockOp::Experts { src, .. } => src,
        _ => Reg::Input,
    }
}

/// What an applied operation writes.
pub open spec fn target_of(op: BlockOp) -> Reg {
    match op {
        BlockOp::Norm { dst, .. } => dst,
        BlockOp::Linear { dst, .. } => dst,
        BlockOp::HeadNorm { reg, .. } => reg,
        BlockOp::Rope { reg, .. } => reg,
        BlockOp::Experts { .. } => Reg::Mlp,
        _ => Reg::Output,
    }
}

/// `apply` runs on the rows that it is handed, and gives rows of the width that
/// is asked for.
pub open spec fn serves_applied<T, G: Fn(BlockOp, Vec<T>) -> Vec<T>>(
    apply: G,
    design: &BlockDesign,
    tokens: nat,
) -> bool {
    &&& forall|op: BlockOp, a: Vec<T>|
        is_applied(op) && design.well_shaped(op) && a@.len() == tokens * design.width(
            source_of(op),
        ) ==> #[trigger] call_requires(apply, (op, a))
    &&& forall|op: BlockOp, a: Vec<T>, r: Vec<T>|
        is_applied(op) && design.well_shaped(op) && #[trigger] call_ensures(apply, (op, a), r)
            && a@.len() == tokens * design.width(source_of(op)) ==> r@.len() == tokens
            * design.width(target_of(op))
}

/// `dst` is what `apply` makes of `src`.
pub open spec fn applied<T, G: Fn(BlockOp, Vec<T>) -> Vec<T>>(
    apply: G,
    op: BlockOp,
    src: Seq<T>,
    dst: Seq<T>,
) -> bool {
    exists|a: Vec<T>, r: Vec<T>|
        a@ == src && r@ == dst && #[trigger] call_ensures(apply, (op, a), r)
}

/// How attention is done: whether the last of four row buffers is what queries,
/// keys and values give.
pub type Attends<T> = spec_fn(AttentionDesign, Seq<T>, Seq<T>, Seq<T>, Seq<T>) -> bool;

impl<G, H> Outside<G, H> {
    /// Both run on whatever rows a call of the block hands them, and give rows
    /// of the width that is asked for.
    pub open spec fn serves<T>(&self, design: &BlockDesign, tokens: nat, held: nat) -> bool where
        G: Fn(BlockOp, Vec<T>) -> Vec<T>,
        H: Fn(AttentionDesign, Vec<T>, Vec<T>, Vec<T>) -> Vec<T>,
     {
        &&& serves_applied(self.apply, design, tokens)
        &&& forall|q: Vec<T>, k: Vec<T>, v: Vec<T>|
            q@.len() == tokens * design.q_dim() && k@.len() == held * design.kv_dim() && v@.len()
                == held * design.kv_dim() ==> #[trigger] call_requires(
                self.attend,
                (design.attention, q, k, v),
            )
        &&& forall|q: Vec<T>, k: Vec<T>, v: Vec<T>, r: Vec<T>| #[trigger]
            call_ensures(self.attend, (design.attention, q, k, v), r) && q@.len() == tokens
                * design.q_dim() && k@.len() == held * design.kv_dim() && v@.len() == held
                * design.kv_dim() ==> r@.len() == tokens * design.q_dim()
    }

    /// `out` is what `attend` makes of the queries and the history.
    pub open spec fn attended<T>(
        &self,
        attention: AttentionDesign,
        q: Seq<T>,
        k: Seq<T>,
        v: Seq<T>,
        out: Seq<T>,
    ) -> bool where H: Fn(AttentionDesign, Vec<T>, Vec<T>, Vec<T>) -> Vec<T> {
        exists|a: Vec<T>, b: Vec<T>, c: Vec<T>, r: Vec<T>|
            a@ == q && b@ == k && c@ == v && r@ == out && #[trigger] call_ensures(
                self.attend,
                (attention, a, b, c),
                r,
            )
    }

    /// Attention as `attend` does it.
    pub open spec fn attending<T>(&self) -> Attends<T> where
        H: Fn(AttentionDesign, Vec<T>, Vec<T>, Vec<T>) -> Vec<T>,
     {
        |attention: AttentionDesign, q: Seq<T>, k: Seq<T>, v: Seq<T>, out: Seq<T>|
            self.attended(attention, q, k, v, out)
    }
}

impl<T: Copy, F: Fn(ScalarOp, T, T) -> T, C: Fn(Number) -> T, Z: Fn(Relation, T, T) -> bool> Scalars<T, F, C, Z> {
    /// A residual sum: `b`, scaled where a scale is given, is added to `a`.
    pub open spec fn residual(&self, a: Seq<T>, b: Seq<T>, scale: Option<Real>) -> Seq<T> {
        Seq::new(
            a.len(),
            |i: int|
                match scale {
                    Some(s) => self.plus(a[i], self.times(self.constant(s.bits), b[i])),
                    None => self.plus(a[i], b[i]),
                },
        )
    }

    /// The values after one operation of a block on `tokens` rows.
    pub open spec fn stepped<G>(
        &self,
        apply: G,
        attends: Attends<T>,
        op: BlockOp,
        tokens: nat,
        before: BlockValues<T>,
        after: BlockValues<T>,
    ) -> bool where G: Fn(BlockOp, Vec<T>) -> Vec<T> {
        let regs = before.regs;
        match op {
            BlockOp::SplitQkv { q_dim, kv_dim } => {
                let width = (q_dim + 2 * kv_dim) as nat;
                let fused = regs[Reg::Fused];
                let q = columns(fused, tokens, width, 0, q_dim as nat);
                let k = columns(fused, tokens, width, q_dim as nat, kv_dim as nat);
                let v = columns(fused, tokens, width, (q_dim + kv_dim) as nat, kv_dim as nat);
                after == (BlockValues {
                    regs: regs.insert(Reg::Query, q).insert(Reg::Key, k).insert(Reg::Value, v),
                    ..before
                })
            },
            BlockOp::AppendHistory { .. } => {
                let k = before.k + regs[Reg::Key];
                let v = before.v + regs[Reg::Value];
                after == (BlockValues {
                    regs: regs.insert(Reg::Key, k).insert(Reg::Value, v),
                    k,
                    v,
                })
            },
            BlockOp::Attend { attention } => {
                &&& attends(
                    attention,
                    regs[Reg::Query],
                    regs[Reg::Key],
                    regs[Reg::Value],
                    after.regs[Reg::Attended],
                )
                &&& after == (BlockValues {
                    regs: regs.insert(Reg::Attended, after.regs[Reg::Attended]),
                    ..before
                })
            },
            BlockOp::Activate { kind, gated, .. } => {
                let gate = regs[Reg::Gate];
                let up = regs[Reg::Up];
                let out = if gated {
                    Seq::new(
                        gate.len(),
                        |i: int| self.times(self.activated(kind, gate[i]), up[i]),
                    )
                } else {
                    Seq::new(gate.len(), |i: int| self.activated(kind, gate[i]))
                };
                after == (BlockValues { regs: regs.insert(Reg::Activated, out), ..before })
            },
            BlockOp::Add { a, b, dst, scale, .. } => after == (BlockValues {
                regs: regs.insert(dst, self.residual(regs[a], regs[b], scale)),
                ..before
            }),
            _ => {
                let dst = target_of(op);
                &&& applied(apply, op, regs[source_of(op)], after.regs[dst])
                &&& after == (BlockValues {
                    regs: regs.insert(dst, after.regs[dst]),
                    ..before
                })
            },
        }
    }

    /// `trace` holds the values before and after every operation of a block.
    pub open spec fn block_ran<G>(
        &self,
        apply: G,
        attends: Attends<T>,
        design: &BlockDesign,
        tokens: nat,
        trace: Seq<BlockValues<T>>,
    ) -> bool where G: Fn(BlockOp, Vec<T>) -> Vec<T> {
        &&& trace.len() == design.ops().len() + 1
        &&& forall|i: int|
            0 <= i < design.ops().len() ==> self.stepped(
                apply,
                attends,
                #[trigger] design.ops()[i],
                tokens,
                trace[i],
                trace[i + 1],
            )
    }

    /// The block turns `input` into `out`, and the history before it into the
    /// one after it, by running its operations in order.
    pub open spec fn block_done<G>(
        &self,
        apply: G,
        attends: Attends<T>,
        design: &BlockDesign,
        tokens: nat,
        input: Seq<T>,
        k: Seq<T>,
        v: Seq<T>,
        out: Seq<T>,
        k_after: Seq<T>,
        v_after: Seq<T>,
    ) -> bool where G: Fn(BlockOp, Vec<T>) -> Vec<T> {
        exists|trace: Seq<BlockValues<T>>| #[trigger]
            self.block_ran(apply, attends, design, tokens, trace) && trace[0] == (BlockValues {
                regs: input_only(input),
                k,
                v,
            }) && trace.last().regs[Reg::Output] == out && trace.last().k == k_after
                && trace.last().v == v_after
    }
}

/// The lengths that an operation finds its operands in: `tokens` rows each, and
/// `held` rows of keys and values where it attends.
spec fn ready<T>(
    design: &BlockDesign,
    op: BlockOp,
    tokens: nat,
    held: nat,
    regs: Map<Reg, Seq<T>>,
) -> bool {
    match op {
        BlockOp::Attend { .. } => regs[Reg::Query].len() == tokens * design.q_dim()
            && regs[Reg::Key].len() == held * design.kv_dim() && regs[Reg::Value].len() == held
            * design.kv_dim(),
        _ => forall|r: Reg|
            reads(op).contains(r) ==> (#[trigger] regs[r]).len() == tokens * design.width(r),
    }
}

/// Adds two buffers, the second scaled where a scale is given.
pub fn add_rows<T: Copy, F: Fn(ScalarOp, T, T) -> T, C: Fn(Number) -> T, Z: Fn(Relation, T, T) -> bool>(
    x: &Scalars<T, F, C, Z>,
    a: &[T],
    b: &[T],
    scale: Option<Real>,
) -> (r: Vec<T>)
    requires
        x.wf(),
        a@.len() == b@.len(),
    ensures
        r@ == x.residual(a@, b@, scale),
{
    let n: usize = a.len();
    let ghost cell = |i: int|
        match scale {
            Some(s) => x.plus(a@[i], x.times(x.constant(s.bits), b@[i])),
            None => x.plus(a@[i], b@[i]),
        };
    let r = fill_row(
        n,
        |i: usize| -> (o: T)
            requires
                i < n,
            ensures
                o == cell(i as int)
            {
                match scale {
                    Some(s) => x.plus(a[i], x.times(x.constant(s.bits), b[i])),
                    None => x.plus(a[i], b[i]),
                }
            },
        Ghost(cell),
    );
    assert(r@ =~= x.residual(a@, b@, scale));
    r
}

fn run_applied<T: Copy, G: Fn(BlockOp, Vec<T>) -> Vec<T>, H: Fn(AttentionDesign, Vec<T>, Vec<T>, Vec<T>) -> Vec<T>>(
    outside: &Outside<G, H>,
    design: &BlockDesign,
    op: BlockOp,
    src: Reg,
    dst: Reg,
    tokens: usize,
    Ghost(held): Ghost<nat>,
    regs: &mut Registers<T>,
)
    requires
        old(regs).wf(),
        outside.serves::<T>(design, tokens as nat, held),
        is_applied(op),
        design.well_shaped(op),
        src == source_of(op),
        dst == target_of(op),
        old(regs).values()[src].len() == tokens * design.width(src),
    ensures
        final(regs).wf(),
        applied(outside.apply, op, old(regs).values()[src], final(regs).values()[dst]),
        final(regs).values() == old(regs).values().insert(dst, final(regs).values()[dst]),
        final(regs).values()[dst].len() == tokens * design.width(dst),
{
    let a = regs.read(src);
    let ghost given = a;
    let r = (outside.apply)(op, a);
    assert(call_ensures(outside.apply, (op, given), r));
    regs.put(dst, r);
}

/// Runs one operation.
fn run_op<
    T: Copy,
    F: Fn(ScalarOp, T, T) -> T,
    C: Fn(Number) -> T,
    Z: Fn(Relation, T, T) -> bool,
    G: Fn(BlockOp, Vec<T>) -> Vec<T>,
    H: Fn(AttentionDesign, Vec<T>, Vec<T>, Vec<T>) -> Vec<T>,
>(
    x: &Scalars<T, F, C, Z>,
    outside: &Outside<G, H>,
    design: &BlockDesign,
    op: BlockOp,
    tokens: usize,
    Ghost(held): Ghost<nat>,
    regs: &mut Registers<T>,
    cache: &mut RefKvCache<T>,
)
    requires
        x.wf(),
        old(regs).wf(),
        design.fits(),
        design.well_shaped(op),
        outside.serves::<T>(design, tokens as nat, held),
        ready(design, op, tokens as nat, held, old(regs).values()),
        op matches BlockOp::Attend { attention } ==> attention == design.attention,
        op is AppendHistory ==> old(cache).past_len + tokens <= usize::MAX,
    ensures
        final(regs).wf(),
        x.stepped(
            outside.apply,
            outside.attending(),
            op,
            tokens as nat,
            (BlockValues { regs: old(regs).values(), k: old(cache).k@, v: old(cache).v@ }),
            (BlockValues { regs: final(regs).values(), k: final(cache).k@, v: final(cache).v@ }),
        ),
        op is AppendHistory ==> final(cache).past_len == old(cache).past_len + tokens,
        op !is AppendHistory ==> *final(cache) == *old(cache),
        op !is AppendHistory ==> forall|r: Reg| #[trigger]
            writes(op).contains(r) ==> final(regs).values()[r].len() == tokens * design.width(r),
{
    match op {
        BlockOp::Norm { src, dst, .. } => {
            run_applied(outside, design, op, src, dst, tokens, Ghost(held), regs);
        },
        BlockOp::Linear { src, dst, .. } => {
            run_applied(outside, design, op, src, dst, tokens, Ghost(held), regs);
        },
        BlockOp::HeadNorm { reg, .. } => {
            run_applied(outside, design, op, reg, reg, tokens, Ghost(held), regs);
        },
        BlockOp::Rope { reg, .. } => {
            run_applied(outside, design, op, reg, reg, tokens, Ghost(held), regs);
        },
        BlockOp::Experts { src, .. } => {
            run_applied(outside, design, op, src, Reg::Mlp, tokens, Ghost(held), regs);
        },
        BlockOp::SplitQkv { q_dim, kv_dim } => {
            let fused = regs.read(Reg::Fused);
            let parts = split_qkv(fused.as_slice(), tokens, q_dim, kv_dim);
            regs.put(Reg::Query, parts.q);
            regs.put(Reg::Key, parts.k);
            regs.put(Reg::Value, parts.v);
        },
        BlockOp::AppendHistory { .. } => {
            let k = regs.read(Reg::Key);
            let v = regs.read(Reg::Value);
            append_all(&mut cache.k, k.as_slice());
            append_all(&mut cache.v, v.as_slice());
            cache.past_len = cache.past_len + tokens;
            let k_all = copy_range(cache.k.as_slice(), 0, cache.k.len());
            let v_all = copy_range(cache.v.as_slice(), 0, cache.v.len());
            assert(k_all@ =~= cache.k@);
            assert(v_all@ =~= cache.v@);
            regs.put(Reg::Key, k_all);
            regs.put(Reg::Value, v_all);
        },
        BlockOp::Attend { attention } => {
            let q = regs.read(Reg::Query);
            let k = regs.read(Reg::Key);
            let v = regs.read(Reg::Value);
            let ghost given = (attention, q, k, v);
            let r = (outside.attend)(attention, q, k, v);
            assert(call_ensures(outside.attend, given, r));
            regs.put(Reg::Attended, r);
        },
        BlockOp::Activate { kind, gated, .. } => {
            let gate = regs.read(Reg::Gate);
            let r = if gated {
                let up = regs.read(Reg::Up);
                activate_gated(x, kind, gate.as_slice(), up.as_slice())
            } else {
                activate_row(x, kind, gate.as_slice())
            };
            regs.put(Reg::Activated, r);
        },
        BlockOp::Add { a, b, dst, scale, .. } => {
            let left = regs.read(a);
            let right = regs.read(b);
            let r = add_rows(x, left.as_slice(), right.as_slice(), scale);
            regs.put(dst, r);
        },
    }
}

/// Where in a block the operations lie that shape queries, keys and values:
/// the history is appended last of all before attention, and nothing after it
/// writes or rotates a key or a value.
pub proof fn lemma_where_history_is(design: &BlockDesign, i: int)
    requires
        0 <= i < design.ops().len(),
    ensures
        ({
            let front = design.project_ops().len() + design.shape_ops().len();
            let op = design.ops()[i];
            &&& op is AppendHistory <==> design.attention.cached && i == front - 1
            &&& op is Attend ==> i >= front && op->attention == design.attention
            &&& i >= front ==> !writes(op).contains(Reg::Key) && !writes(op).contains(Reg::Value)
            &&& i >= front && op !is Attend ==> !reads(op).contains(Reg::Key) && !reads(
                op,
            ).contains(Reg::Value)
        }),
{
    let a = design.project_ops();
    let b = design.shape_ops();
    let c = design.attend_ops();
    let d = design.tail_ops();
    let op = design.ops()[i];
    if i < a.len() {
        assert(op == a[i]);
    } else if i < a.len() + b.len() {
        assert(op == b[i - a.len()]);
    } else if i < a.len() + b.len() + c.len() {
        assert(op == c[i - a.len() - b.len()]);
    } else {
        let j = i - a.len() - b.len() - c.len();
        assert(op == d[j]);
        lemma_tail_leaves_history(design, j);
    }
}

/// A block attends once, right behind what shapes queries, keys and values.
pub proof fn lemma_attends_once(design: &BlockDesign, i: int)
    requires
        0 <= i < design.ops().len(),
    ensures
        design.ops()[i] is Attend <==> i == design.project_ops().len() + design.shape_ops().len(),
{
    let a = design.project_ops();
    let b = design.shape_ops();
    let c = design.attend_ops();
    let d = design.tail_ops();
    let op = design.ops()[i];
    if i < a.len() {
        assert(op == a[i]);
    } else if i < a.len() + b.len() {
        assert(op == b[i - a.len()]);
    } else if i < a.len() + b.len() + c.len() {
        assert(op == c[i - a.len() - b.len()]);
    } else {
        let j = i - a.len() - b.len() - c.len();
        assert(op == d[j]);
        lemma_tail_leaves_history(design, j);
    }
}

proof fn lemma_tail_leaves_history(design: &BlockDesign, j: int)
    requires
        0 <= j < design.tail_ops().len(),
    ensures
        ({
            let op = design.tail_ops()[j];
            &&& op !is AppendHistory
            &&& op !is Attend
            &&& !writes(op).contains(Reg::Key)
            &&& !writes(op).contains(Reg::Value)
            &&& !reads(op).contains(Reg::Key)
            &&& !reads(op).contains(Reg::Value)
        }),
{
    let lead: int = if design.ffn_input == FfnInput::NormedResidual {
        2
    } else {
        1
    };
    let ffn = design.ffn_ops();
    let op = design.tail_ops()[j];
    if lead <= j < lead + ffn.len() {
        assert(op == ffn[j - lead]);
        match design.ffn {
            Ffn::Gated(_) => {},
            Ffn::Plain(_) => {},
            Ffn::Experts => {},
        }
    }
}

/// When its turn comes, an operation finds what it reads at hand.
pub proof fn lemma_fed_at(ops: Seq<BlockOp>, start: Set<Reg>, i: int)
    requires
        fed(ops, start),
        0 <= i < ops.len(),
    ensures
        reads(ops[i]).subset_of(at_hand(ops.take(i), start)),
        at_hand(ops.take(i + 1), start) == at_hand(ops.take(i), start).union(writes(ops[i])),
    decreases ops.len(),
{
    assert(ops.take(i + 1).drop_last() =~= ops.take(i));
    if i == ops.len() - 1 {
        assert(ops.drop_last() =~= ops.take(i));
    } else {
        lemma_fed_at(ops.drop_last(), start, i);
        assert(ops.drop_last().take(i) =~= ops.take(i));
        assert(ops.drop_last().take(i + 1) =~= ops.take(i + 1));
    }
}

/// The lengths of the values at hand before operation `i`.
pub open spec fn sized<T>(
    design: &BlockDesign,
    tokens: nat,
    held: nat,
    regs: Map<Reg, Seq<T>>,
    i: int,
) -> bool {
    let front = design.project_ops().len() + design.shape_ops().len();
    forall|r: Reg|
        at_hand(design.ops().take(i), set![Reg::Input]).contains(r) ==> (#[trigger] regs[r]).len()
            == (if i >= front && (r == Reg::Key || r == Reg::Value) {
            held
        } else {
            tokens
        }) * design.width(r)
}

/// Values at hand keep their lengths through an operation.
pub proof fn lemma_sizes_stay<T>(
    design: &BlockDesign,
    op: BlockOp,
    tokens: nat,
    held: nat,
    before: Map<Reg, Seq<T>>,
    after: Map<Reg, Seq<T>>,
    i: int,
)
    requires
        0 <= i < design.ops().len(),
        op == design.ops()[i],
        fed(design.ops(), set![Reg::Input]),
        sized(design, tokens, held, before, i),
        forall|r: Reg| !writes(op).contains(r) ==> #[trigger] after[r] == before[r],
        op !is AppendHistory ==> forall|r: Reg| #[trigger]
            writes(op).contains(r) ==> after[r].len() == tokens * design.width(r),
        op is AppendHistory ==> after[Reg::Key].len() == held * design.kv_dim()
            && after[Reg::Value].len() == held * design.kv_dim(),
        !design.attention.cached ==> held == tokens,
    ensures
        sized(design, tokens, held, after, i + 1),
{
    lemma_where_history_is(design, i);
    lemma_fed_at(design.ops(), set![Reg::Input], i);
    let front = design.project_ops().len() + design.shape_ops().len();
    let hand = at_hand(design.ops().take(i), set![Reg::Input]);
    assert forall|r: Reg|
        at_hand(design.ops().take(i + 1), set![Reg::Input]).contains(r) implies (
    #[trigger] after[r]).len() == (if i + 1 >= front && (r == Reg::Key || r == Reg::Value) {
        held
    } else {
        tokens
    }) * design.width(r) by {
        if writes(op).contains(r) {
        } else {
            assert(hand.contains(r));
            assert(after[r] == before[r]);
        }
    }
}

/// Runs a block and leaves all its values.
pub(crate) fn run_registers<
    T: Copy,
    F: Fn(ScalarOp, T, T) -> T,
    C: Fn(Number) -> T,
    Z: Fn(Relation, T, T) -> bool,
    G: Fn(BlockOp, Vec<T>) -> Vec<T>,
    H: Fn(AttentionDesign, Vec<T>, Vec<T>, Vec<T>) -> Vec<T>,
>(
    x: &Scalars<T, F, C, Z>,
    outside: &Outside<G, H>,
    design: &BlockDesign,
    input: Vec<T>,
    tokens: usize,
    cache: &mut RefKvCache<T>,
) -> (regs: Registers<T>)
    requires
        x.wf(),
        design.fits(),
        input@.len() == tokens * design.hidden,
        old(cache).wf(design.kv_dim() as nat),
        old(cache).past_len + tokens <= usize::MAX,
        outside.serves::<T>(
            design,
            tokens as nat,
            if design.attention.cached {
                (old(cache).past_len + tokens) as nat
            } else {
                tokens as nat
            },
        ),
    ensures
        regs.wf(),
        regs.values()[Reg::Output].len() == tokens * design.hidden,
        exists|trace: Seq<BlockValues<T>>| #[trigger]
            x.block_ran(outside.apply, outside.attending(), design, tokens as nat, trace)
                && trace[0] == (BlockValues {
                regs: input_only(input@),
                k: old(cache).k@,
                v: old(cache).v@,
            }) && trace.last() == (BlockValues {
                regs: regs.values(),
                k: final(cache).k@,
                v: final(cache).v@,
            }),
        final(cache).wf(design.kv_dim() as nat),
        final(cache).past_len == old(cache).past_len + (if design.attention.cached {
            tokens as int
        } else {
            0
        }),
        old(cache).k@ == final(cache).k@.take(old(cache).k@.len() as int),
        old(cache).v@ == final(cache).v@.take(old(cache).v@.len() as int),
{
    let ops = design.program();
    let n: usize = ops.len();
    let ghost given = input@;
    let mut regs = Registers::started(input);
    let ghost held: nat = if design.attention.cached {
        (cache.past_len + tokens) as nat
    } else {
        tokens as nat
    };
    let ghost front = (design.project_ops().len() + design.shape_ops().len()) as int;
    let ghost k0 = cache.k@;
    let ghost v0 = cache.v@;
    let ghost past = cache.past_len;
    let ghost start = set![Reg::Input];
    let ghost mut trace: Seq<BlockValues<T>> = seq![
        BlockValues { regs: regs.values(), k: cache.k@, v: cache.v@ },
    ];
    proof {
        law_block_reads_what_was_written(design);
        assert(design.ops().take(0) =~= Seq::empty());
        assert(k0.take(k0.len() as int) =~= k0);
        assert(v0.take(v0.len() as int) =~= v0);
    }
    for i in 0..n
        invariant
            x.wf(),
            design.fits(),
            n == ops@.len(),
            ops@ == design.ops(),
            outside.serves::<T>(design, tokens as nat, held),
            regs.wf(),
            held == (if design.attention.cached {
                (past + tokens) as nat
            } else {
                tokens as nat
            }),
            past + tokens <= usize::MAX,
            front == design.project_ops().len() + design.shape_ops().len(),
            start == set![Reg::Input],
            fed(design.ops(), start),
            sized(design, tokens as nat, held, regs.values(), i as int),
            cache.past_len == past + (if design.attention.cached && i >= front {
                tokens as int
            } else {
                0
            }),
            cache.wf(design.kv_dim() as nat),
            k0.len() <= cache.k@.len(),
            v0.len() <= cache.v@.len(),
            k0 == cache.k@.take(k0.len() as int),
            v0 == cache.v@.take(v0.len() as int),
            trace.len() == i + 1,
            trace[0] == (BlockValues { regs: input_only(given), k: k0, v: v0 }),
            trace.last() == (BlockValues { regs: regs.values(), k: cache.k@, v: cache.v@ }),
            forall|j: int|
                0 <= j < i ==> x.stepped(
                    outside.apply,
                    outside.attending(),
                    #[trigger] design.ops()[j],
                    tokens as nat,
                    trace[j],
                    trace[j + 1],
                ),
    {
        let op = ops[i];
        let ghost before = regs.values();
        let ghost k_before = cache.k@;
        let ghost v_before = cache.v@;
        proof {
            law_block_is_well_shaped(design, i as int);
            lemma_where_history_is(design, i as int);
            lemma_fed_at(design.ops(), start, i as int);
        }
        run_op(x, outside, design, op, tokens, Ghost(held), &mut regs, cache);
        proof {
            let now = BlockValues { regs: regs.values(), k: cache.k@, v: cache.v@ };
            trace = trace.push(now);
            if op is AppendHistory {
                let kv = design.kv_dim();
                assert((past + tokens) * kv == past * kv + tokens * kv) by (nonlinear_arith);
                assert(cache.k@.take(k0.len() as int) =~= k0);
                assert(cache.v@.take(v0.len() as int) =~= v0);
                assert(before[Reg::Key].len() == tokens * design.width(Reg::Key));
                assert(before[Reg::Value].len() == tokens * design.width(Reg::Value));
                assert(cache.k@ == k_before + before[Reg::Key]);
                assert(cache.v@ == v_before + before[Reg::Value]);
            }
            lemma_sizes_stay(design, op, tokens as nat, held, before, regs.values(), i as int);
        }
    }
    proof {
        assert(design.ops().take(n as int) =~= design.ops());
        assert(x.block_ran(outside.apply, outside.attending(), design, tokens as nat, trace));
    }
    regs
}

/// Runs a block on `tokens` rows. Where the block keeps a history, the keys and
/// values of the call join it before attention, which then sees all of it.
pub fn run_block<
    T: Copy,
    F: Fn(ScalarOp, T, T) -> T,
    C: Fn(Number) -> T,
    Z: Fn(Relation, T, T) -> bool,
    G: Fn(BlockOp, Vec<T>) -> Vec<T>,
    H: Fn(AttentionDesign, Vec<T>, Vec<T>, Vec<T>) -> Vec<T>,
>(
    x: &Scalars<T, F, C, Z>,
    outside: &Outside<G, H>,
    design: &BlockDesign,
    input: Vec<T>,
    tokens: usize,
    cache: &mut RefKvCache<T>,
) -> (out: Vec<T>)
    requires
        x.wf(),
        design.fits(),
        input@.len() == tokens * design.hidden,
        old(cache).wf(design.kv_dim() as nat),
        old(cache).past_len + tokens <= usize::MAX,
        outside.serves::<T>(
            design,
            tokens as nat,
            if design.attention.cached {
                (old(cache).past_len + tokens) as nat
            } else {
                tokens as nat
            },
        ),
    ensures
        out@.len() == tokens * design.hidden,
        x.block_done(
            outside.apply,
            outside.attending(),
            design,
            tokens as nat,
            input@,
            old(cache).k@,
            old(cache).v@,
            out@,
            final(cache).k@,
            final(cache).v@,
        ),
        final(cache).wf(design.kv_dim() as nat),
        final(cache).past_len == old(cache).past_len + (if design.attention.cached {
            tokens as int
        } else {
            0
        }),
        old(cache).k@ == final(cache).k@.take(old(cache).k@.len() as int),
        old(cache).v@ == final(cache).v@.take(old(cache).v@.len() as int),
{
    let regs = run_registers(x, outside, design, input, tokens, cache);
    regs.read(Reg::Output)
}

} // verus!
