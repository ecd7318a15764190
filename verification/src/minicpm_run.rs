//! A MiniCPM block on rows held by the host, over the pages of a session or over
//! its own rows.

use crate::block_law::lemma_step_of;
use crate::block_program::{AttentionDesign, BlockDesign, BlockOp, Reg};
use crate::block_run::{
    input_only, lemma_attends_once, lemma_where_history_is, run_registers, serves_applied, Attends,
    BlockValues, Outside,
};
use crate::device::DeviceBuffer;
use crate::head_map::spread_heads;
use crate::kv_attention::RefKvCache;
use crate::minicpm::{batch_of, first_position, Batch, MiniCpmBlock};
use crate::rows::copy_range;
use crate::scalar::{Number, Relation, ScalarOp, Scalars};
use vstd::prelude::*;

verus! {

/// The pages that hold the history of a layer: which of them are the session's,
/// in order, the buffers of keys and of values, and the tokens of a page.
pub struct PagedHandles {
    pub table: Vec<u32>,
    pub k: DeviceBuffer,
    pub v: DeviceBuffer,
    pub page_size: usize,
}

impl PagedHandles {
    /// The pages, as they are counted.
    pub open spec fn pages(&self) -> Seq<usize> {
        Seq::new(self.table@.len(), |i: int| self.table@[i] as usize)
    }
}

/// A session, as far as a model works with it. `append` puts the keys and values
/// of a layer into its pages, `handles` gives the pages of a layer where it has
/// any, `gather` reads the first rows of a history out of a buffer of pages, and
/// `keep` takes the keys and values of a layer at the end of a pass.
pub struct PagedSession<A, B, E, K> {
    pub has_pages: bool,
    pub append: A,
    pub handles: B,
    pub gather: E,
    pub keep: K,
}

impl<A, B, E, K> PagedSession<A, B, E, K> {
    /// The pages took the keys and values of a layer, or did not.
    pub open spec fn appended<T>(&self, layer: usize, k: Seq<T>, v: Seq<T>, ok: bool) -> bool where
        A: Fn(usize, Vec<T>, Vec<T>) -> bool,
     {
        exists|a: Vec<T>, b: Vec<T>|
            a@ == k && b@ == v && #[trigger] call_ensures(self.append, (layer, a, b), ok)
    }

    /// The session kept the keys and values of a layer, or did not.
    pub open spec fn kept<T>(&self, k: Seq<T>, v: Seq<T>, ok: bool) -> bool where
        K: Fn(Vec<T>, Vec<T>) -> bool,
     {
        exists|a: Vec<T>, b: Vec<T>|
            a@ == k && b@ == v && #[trigger] call_ensures(self.keep, (a, b), ok)
    }

    /// The session gave these pages of a layer.
    pub open spec fn offered(&self, layer: usize, h: Option<PagedHandles>) -> bool where
        B: Fn(usize) -> Option<PagedHandles>,
     {
        call_ensures(self.handles, (layer,), h)
    }

    /// Reading `rows` rows of `stride` elements out of a buffer gave `found`.
    pub open spec fn gathered<T>(
        &self,
        buffer: DeviceBuffer,
        h: PagedHandles,
        stride: nat,
        rows: nat,
        found: Option<Seq<T>>,
    ) -> bool where E: Fn(DeviceBuffer, Vec<usize>, usize, usize, usize) -> Option<Vec<T>> {
        exists|t: Vec<usize>, s: usize, n: usize, o: Option<Vec<T>>|
            t@ == h.pages() && s == stride && n == rows && found == (match o {
                Some(o) => Some(o@),
                None => None,
            }) && #[trigger] call_ensures(self.gather, (buffer, t, h.page_size, s, n), o)
    }

    /// The keys and values of a call went into the pages, and the history that
    /// came out of them is `k_hist` and `v_hist`.
    pub open spec fn read_pages<T>(
        &self,
        layer: usize,
        k: Seq<T>,
        v: Seq<T>,
        stride: nat,
        rows: nat,
        k_hist: Seq<T>,
        v_hist: Seq<T>,
    ) -> bool where
        A: Fn(usize, Vec<T>, Vec<T>) -> bool,
        B: Fn(usize) -> Option<PagedHandles>,
        E: Fn(DeviceBuffer, Vec<usize>, usize, usize, usize) -> Option<Vec<T>>,
     {
        &&& self.has_pages
        &&& self.appended(layer, k, v, true)
        &&& exists|h: PagedHandles| #[trigger]
            self.offered(layer, Some(h)) && self.gathered(h.k, h, stride, rows, Some(k_hist))
                && self.gathered(h.v, h, stride, rows, Some(v_hist))
    }

    /// Nothing came out of the pages: the session has none, they did not take
    /// the keys and values of the call, or they could not be read.
    pub open spec fn no_pages<T>(
        &self,
        layer: usize,
        k: Seq<T>,
        v: Seq<T>,
        stride: nat,
        rows: nat,
    ) -> bool where
        A: Fn(usize, Vec<T>, Vec<T>) -> bool,
        B: Fn(usize) -> Option<PagedHandles>,
        E: Fn(DeviceBuffer, Vec<usize>, usize, usize, usize) -> Option<Vec<T>>,
     {
        self.has_pages ==> {
            ||| self.appended(layer, k, v, false)
            ||| self.appended(layer, k, v, true) && self.offered(layer, None)
            ||| self.appended(layer, k, v, true) && exists|h: PagedHandles| #[trigger]
                self.offered(layer, Some(h)) && (self.gathered(
                    h.k,
                    h,
                    stride,
                    rows,
                    None::<Seq<T>>,
                ) || self.gathered(h.v, h, stride, rows, None::<Seq<T>>))
        }
    }

    /// The session can be asked for what a layer asks of it, and a history that
    /// it gives has all its rows.
    pub open spec fn serves<T>(
        &self,
        layer: usize,
        tokens: nat,
        stride: nat,
        rows: nat,
    ) -> bool where
        A: Fn(usize, Vec<T>, Vec<T>) -> bool,
        B: Fn(usize) -> Option<PagedHandles>,
        E: Fn(DeviceBuffer, Vec<usize>, usize, usize, usize) -> Option<Vec<T>>,
     {
        self.has_pages ==> {
            &&& forall|a: Vec<T>, b: Vec<T>|
                a@.len() == tokens * stride && b@.len() == a@.len() ==> #[trigger] call_requires(
                    self.append,
                    (layer, a, b),
                )
            &&& call_requires(self.handles, (layer,))
            &&& forall|h: PagedHandles, t: Vec<usize>, s: usize, n: usize|
                #![trigger self.offered(layer, Some(h)), call_requires(self.gather, (h.k, t, h.page_size, s, n))]
                #![trigger self.offered(layer, Some(h)), call_requires(self.gather, (h.v, t, h.page_size, s, n))]
                self.offered(layer, Some(h)) && t@ == h.pages() && s == stride && n == rows ==> {
                    &&& call_requires(self.gather, (h.k, t, h.page_size, s, n))
                    &&& call_requires(self.gather, (h.v, t, h.page_size, s, n))
                }
            &&& forall|b: DeviceBuffer, t: Vec<usize>, p: usize, s: usize, n: usize, o: Vec<T>|
                s == stride && n == rows && #[trigger] call_ensures(
                    self.gather,
                    (b, t, p, s, n),
                    Some(o),
                ) ==> o@.len() == rows * stride
        }
    }
}

/// Page numbers, as they are counted.
fn count_pages(table: &Vec<u32>) -> (out: Vec<usize>)
    ensures
        out@ == Seq::new(table@.len(), |i: int| table@[i] as usize),
{
    let n: usize = table.len();
    let mut out: Vec<usize> = Vec::new();
    for i in 0..n
        invariant
            n == table@.len(),
            out@ == Seq::new(i as nat, |i: int| table@[i] as usize),
    {
        out.push(table[i] as usize);
        assert(out@ =~= Seq::new((i + 1) as nat, |i: int| table@[i] as usize));
    }
    out
}

/// What a history that was read out of pages holds: keys and values.
pub struct PagedRows<T> {
    pub k: Vec<T>,
    pub v: Vec<T>,
}

/// Puts the keys and values of a call into the pages of a layer, and reads its
/// history out of them.
fn through_pages<
    T: Copy,
    A: Fn(usize, Vec<T>, Vec<T>) -> bool,
    B: Fn(usize) -> Option<PagedHandles>,
    E: Fn(DeviceBuffer, Vec<usize>, usize, usize, usize) -> Option<Vec<T>>,
    K,
>(
    session: &PagedSession<A, B, E, K>,
    layer: usize,
    k: Vec<T>,
    v: Vec<T>,
    stride: usize,
    rows: usize,
    Ghost(tokens): Ghost<nat>,
) -> (found: Option<PagedRows<T>>)
    requires
        session.serves::<T>(layer, tokens, stride as nat, rows as nat),
        k@.len() == tokens * stride,
        v@.len() == k@.len(),
    ensures
        match found {
            Some(r) => r.k@.len() == rows * stride && r.v@.len() == rows * stride
                && session.read_pages(
                layer,
                k@,
                v@,
                stride as nat,
                rows as nat,
                r.k@,
                r.v@,
            ),
            None => session.no_pages(layer, k@, v@, stride as nat, rows as nat),
        },
{
    if !session.has_pages {
        return None;
    }
    let ghost given = (layer, k, v);
    let ok: bool = (session.append)(layer, k, v);
    assert(call_ensures(session.append, given, ok));
    assert(session.appended(layer, given.1@, given.2@, ok));
    if !ok {
        return None;
    }
    let handles = (session.handles)(layer);
    assert(session.offered(layer, handles));
    match handles {
        None => None,
        Some(h) => {
            let ghost held = h;
            assert(session.offered(layer, Some(held)));
            let table = count_pages(&h.table);
            assert(table@ =~= held.pages());
            let again = count_pages(&h.table);
            assert(again@ =~= held.pages());
            assert(call_requires(session.gather, (held.k, table, held.page_size, stride, rows)));
            assert(call_requires(session.gather, (held.v, again, held.page_size, stride, rows)));
            let ghost asked = (h.k, table, h.page_size, stride, rows);
            let k_hist = (session.gather)(h.k, table, h.page_size, stride, rows);
            assert(call_ensures(session.gather, asked, k_hist));
            match k_hist {
                None => {
                    assert(session.gathered(
                        held.k,
                        held,
                        stride as nat,
                        rows as nat,
                        None::<Seq<T>>,
                    ));
                    None
                },
                Some(k_rows) => {
                    assert(session.gathered(
                        held.k,
                        held,
                        stride as nat,
                        rows as nat,
                        Some(k_rows@),
                    ));
                    let ghost asked = (h.v, again, h.page_size, stride, rows);
                    let v_hist = (session.gather)(h.v, again, h.page_size, stride, rows);
                    assert(call_ensures(session.gather, asked, v_hist));
                    match v_hist {
                        None => {
                            assert(session.gathered(
                                held.v,
                                held,
                                stride as nat,
                                rows as nat,
                                None::<Seq<T>>,
                            ));
                            None
                        },
                        Some(v_rows) => {
                            assert(session.gathered(
                                held.v,
                                held,
                                stride as nat,
                                rows as nat,
                                Some(v_rows@),
                            ));
                            Some(PagedRows { k: k_rows, v: v_rows })
                        },
                    }
                },
            }
        },
    }
}

/// The rows that attention read out of pages, where it did: keys and values.
pub type PagedHistory<T> = Option<(Seq<T>, Seq<T>)>;

/// What a block gives: its rows, and the rotated keys and the values of the call.
pub struct MiniCpmLayer<T> {
    pub out: Vec<T>,
    pub k: Vec<T>,
    pub v: Vec<T>,
}

impl MiniCpmBlock {
    /// Elements of one token's queries.
    pub open spec fn q_row(&self) -> nat {
        (self.cfg.local_num_heads * self.cfg.head_dim) as nat
    }

    /// Elements of one token's keys.
    pub open spec fn kv_row(&self) -> nat {
        (self.cfg.local_num_kv_heads * self.cfg.head_dim) as nat
    }

    /// Attention gave `out`: over the history that came out of the pages, once
    /// the keys and values of the call were in them, or over the keys and values
    /// of the call themselves where nothing came out of pages.
    pub open spec fn attended_paged<A, B, E, K, T: Copy, F: Fn(ScalarOp, T, T) -> T, C: Fn(Number) -> T, Z: Fn(Relation, T, T) -> bool>(
        &self,
        x: &Scalars<T, F, C, Z>,
        session: &PagedSession<A, B, E, K>,
        layer: usize,
        past: nat,
        tokens: nat,
        history: PagedHistory<T>,
        q: Seq<T>,
        k: Seq<T>,
        v: Seq<T>,
        out: Seq<T>,
    ) -> bool where
        A: Fn(usize, Vec<T>, Vec<T>) -> bool,
        B: Fn(usize) -> Option<PagedHandles>,
        E: Fn(DeviceBuffer, Vec<usize>, usize, usize, usize) -> Option<Vec<T>>,
     {
        &&& out.len() == tokens * self.q_row()
        &&& k.len() == tokens * self.kv_row()
        &&& v.len() == tokens * self.kv_row()
        &&& match history {
            Some((k_hist, v_hist)) => session.read_pages(
                layer,
                k,
                v,
                self.kv_row(),
                past + tokens,
                k_hist,
                v_hist,
            ) && x.sequence_done(
                q,
                k_hist,
                v_hist,
                tokens,
                past + tokens,
                past,
                self.cfg.local_num_heads as nat,
                self.cfg.head_dim as nat,
                self.kv_row(),
                spread_heads(
                    self.cfg.local_num_heads as nat,
                    self.cfg.local_num_kv_heads as nat,
                ),
                out,
                0,
            ),
            None => session.no_pages(layer, k, v, self.kv_row(), past + tokens)
                && self.prefilled_done(x, q, k, v, tokens, out, 0),
        }
    }

    /// Attention that reads `history` out of pages, or its own rows.
    pub open spec fn attends_paged<A, B, E, K, T: Copy, F: Fn(ScalarOp, T, T) -> T, C: Fn(Number) -> T, Z: Fn(Relation, T, T) -> bool>(
        &self,
        x: &Scalars<T, F, C, Z>,
        session: &PagedSession<A, B, E, K>,
        layer: usize,
        past: nat,
        tokens: nat,
        history: PagedHistory<T>,
    ) -> Attends<T> where
        A: Fn(usize, Vec<T>, Vec<T>) -> bool,
        B: Fn(usize) -> Option<PagedHandles>,
        E: Fn(DeviceBuffer, Vec<usize>, usize, usize, usize) -> Option<Vec<T>>,
     {
        |a: AttentionDesign, q: Seq<T>, k: Seq<T>, v: Seq<T>, out: Seq<T>|
            self.attended_paged(x, session, layer, past, tokens, history, q, k, v, out)
    }

    /// What a call of `tokens` tokens behind `past` others needs fits, and heads
    /// share key-value heads evenly.
    pub open spec fn call_fits(&self, past: nat, tokens: nat) -> bool {
        &&& self.design().fits()
        &&& self.attends(Batch { sequences: 1, tokens: tokens as usize })
        &&& tokens <= usize::MAX
        &&& self.cfg.local_num_heads % self.cfg.local_num_kv_heads == 0
        &&& past + tokens <= usize::MAX
        &&& (past + tokens) * self.cfg.head_dim <= usize::MAX
    }

    fn attend_paged<
        T: Copy,
        F: Fn(ScalarOp, T, T) -> T,
        C: Fn(Number) -> T,
        Z: Fn(Relation, T, T) -> bool,
        A: Fn(usize, Vec<T>, Vec<T>) -> bool,
        B: Fn(usize) -> Option<PagedHandles>,
        E: Fn(DeviceBuffer, Vec<usize>, usize, usize, usize) -> Option<Vec<T>>,
        K,
    >(
        &self,
        x: &Scalars<T, F, C, Z>,
        session: &PagedSession<A, B, E, K>,
        layer: usize,
        positions: &[u32],
        tokens: usize,
        q: &Vec<T>,
        k: Vec<T>,
        v: Vec<T>,
    ) -> (out: Vec<T>)
        requires
            x.wf(),
            self.call_fits(first_position(positions@), tokens as nat),
            session.serves::<T>(
                layer,
                tokens as nat,
                self.kv_row(),
                first_position(positions@) + tokens as nat,
            ),
            q@.len() == tokens * self.q_row(),
            k@.len() == tokens * self.kv_row(),
            v@.len() == k@.len(),
        ensures
            exists|history: PagedHistory<T>| #[trigger]
                self.attended_paged(
                    x,
                    session,
                    layer,
                    first_position(positions@),
                    tokens as nat,
                    history,
                    q@,
                    k@,
                    v@,
                    out@,
                ),
    {
        let ghost past = first_position(positions@);
        let row: usize = self.cfg.local_num_heads * self.cfg.head_dim;
        let kv_row: usize = self.cfg.local_num_kv_heads * self.cfg.head_dim;
        let before: usize = if positions.len() > 0 {
            positions[0] as usize
        } else {
            0
        };
        let total: usize = before + tokens;
        let mut dims: Vec<usize> = Vec::new();
        dims.push(tokens);
        dims.push(row);
        let ghost b = Batch { sequences: 1, tokens };
        assert(batch_of(dims@) == Some(b));
        assert(1 * (tokens * row) == tokens * row);
        assert(1 * (tokens * kv_row) == tokens * kv_row);
        let ghost (keys, values) = (k@, v@);
        let own_k = copy_range(k.as_slice(), 0, k.len());
        let own_v = copy_range(v.as_slice(), 0, v.len());
        assert(own_k@ =~= keys);
        assert(own_v@ =~= values);
        match through_pages(session, layer, k, v, kv_row, total, Ghost(tokens as nat)) {
            Some(r) => {
                let ghost history = Some((r.k@, r.v@));
                match self.paged_self_attention(
                    x,
                    q.as_slice(),
                    r.k.as_slice(),
                    r.v.as_slice(),
                    dims.as_slice(),
                    positions,
                ) {
                    Ok(out) => {
                        assert(self.attended_paged(
                            x,
                            session,
                            layer,
                            past,
                            tokens as nat,
                            history,
                            q@,
                            keys,
                            values,
                            out@,
                        ));
                        out
                    },
                    Err(_) => Vec::new(),
                }
            },
            None => match self.prefilled_self_attention(
                x,
                q.as_slice(),
                own_k.as_slice(),
                own_v.as_slice(),
                dims.as_slice(),
            ) {
                Ok(out) => {
                    assert(self.attended_paged(
                        x,
                        session,
                        layer,
                        past,
                        tokens as nat,
                        None,
                        q@,
                        keys,
                        values,
                        out@,
                    ));
                    out
                },
                Err(_) => Vec::new(),
            },
        }
    }
}

impl<T: Copy, F: Fn(ScalarOp, T, T) -> T, C: Fn(Number) -> T, Z: Fn(Relation, T, T) -> bool> Scalars<T, F, C, Z> {
    /// A block turned `input` into `out`: its operations ran in order, with `k`
    /// and `v` the keys and values that attention got, the keys rotated.
    pub open spec fn layer_paged<A, B, E, K, G>(
        &self,
        block: &MiniCpmBlock,
        session: &PagedSession<A, B, E, K>,
        apply: G,
        layer: usize,
        past: nat,
        tokens: nat,
        history: PagedHistory<T>,
        input: Seq<T>,
        out: Seq<T>,
        k: Seq<T>,
        v: Seq<T>,
    ) -> bool where
        A: Fn(usize, Vec<T>, Vec<T>) -> bool,
        B: Fn(usize) -> Option<PagedHandles>,
        E: Fn(DeviceBuffer, Vec<usize>, usize, usize, usize) -> Option<Vec<T>>,
        G: Fn(BlockOp, Vec<T>) -> Vec<T>,
     {
        exists|trace: Seq<BlockValues<T>>| #[trigger]
            self.block_ran(
                apply,
                block.attends_paged(self, session, layer, past, tokens, history),
                &block.design(),
                tokens,
                trace,
            ) && trace[0] == (BlockValues {
                regs: input_only(input),
                k: Seq::empty(),
                v: Seq::empty(),
            }) && trace.last().regs[Reg::Output] == out && trace[block.design().front()].regs[Reg::Key]
                == k && trace[block.design().front()].regs[Reg::Value] == v
    }
}

/// Keys and values stay as attention got them.
proof fn lemma_keys_stay<
    T: Copy,
    F: Fn(ScalarOp, T, T) -> T,
    C: Fn(Number) -> T,
    Z: Fn(Relation, T, T) -> bool,
    G: Fn(BlockOp, Vec<T>) -> Vec<T>,
>(
    x: &Scalars<T, F, C, Z>,
    apply: G,
    attends: Attends<T>,
    design: &BlockDesign,
    tokens: nat,
    trace: Seq<BlockValues<T>>,
    i: int,
)
    requires
        x.block_ran(apply, attends, design, tokens, trace),
        design.front() <= i <= design.ops().len(),
    ensures
        trace[i].regs[Reg::Key] == trace[design.front()].regs[Reg::Key],
        trace[i].regs[Reg::Value] == trace[design.front()].regs[Reg::Value],
    decreases i,
{
    if i > design.front() {
        lemma_keys_stay(x, apply, attends, design, tokens, trace, i - 1);
        lemma_where_history_is(design, i - 1);
        lemma_step_of(x, apply, attends, design, tokens, trace, i - 1);
    }
}

impl MiniCpmBlock {
    /// Runs a block on `tokens` rows of a session. The rotated keys and the
    /// values of the call go into the session's pages, and attention reads what
    /// comes out of them; where nothing does, it reads the call's own.
    pub fn forward_with_kv_paged<
        T: Copy,
        F: Fn(ScalarOp, T, T) -> T,
        C: Fn(Number) -> T,
        Z: Fn(Relation, T, T) -> bool,
        A: Fn(usize, Vec<T>, Vec<T>) -> bool,
        B: Fn(usize) -> Option<PagedHandles>,
        E: Fn(DeviceBuffer, Vec<usize>, usize, usize, usize) -> Option<Vec<T>>,
        K,
        G: Fn(BlockOp, Vec<T>) -> Vec<T> + Copy,
    >(
        &self,
        x: &Scalars<T, F, C, Z>,
        session: &PagedSession<A, B, E, K>,
        apply: G,
        layer: usize,
        input: Vec<T>,
        positions: &[u32],
        tokens: usize,
    ) -> (r: MiniCpmLayer<T>)
        requires
            x.wf(),
            self.call_fits(first_position(positions@), tokens as nat),
            input@.len() == tokens * self.cfg.hidden_size,
            serves_applied(apply, &self.design(), tokens as nat),
            session.serves::<T>(
                layer,
                tokens as nat,
                self.kv_row(),
                first_position(positions@) + tokens as nat,
            ),
        ensures
            r.out@.len() == tokens * self.cfg.hidden_size,
            exists|history: PagedHistory<T>| #[trigger]
                x.layer_paged(
                    self,
                    session,
                    apply,
                    layer,
                    first_position(positions@),
                    tokens as nat,
                    history,
                    input@,
                    r.out@,
                    r.k@,
                    r.v@,
                ),
    {
        let ghost past = first_position(positions@);
        let design = self.block_design();
        let a: AttentionDesign = design.attention;
        let attend = |b: AttentionDesign, q: Vec<T>, k: Vec<T>, v: Vec<T>| -> (o: Vec<T>)
            requires
                b == a,
                q@.len() == tokens * self.q_row(),
                k@.len() == tokens * self.kv_row(),
                v@.len() == k@.len(),
            ensures
                exists|history: PagedHistory<T>| #[trigger]
                    self.attended_paged(
                        x,
                        session,
                        layer,
                        first_position(positions@),
                        tokens as nat,
                        history,
                        q@,
                        k@,
                        v@,
                        o@,
                    )
            { self.attend_paged(x, session, layer, positions, tokens, &q, k, v) };
        let outside = Outside { apply, attend };
        let mut none = RefKvCache::new();
        let ghost given = input@;
        let regs = run_registers(x, &outside, &design, input, tokens, &mut none);
        let r = MiniCpmLayer {
            out: regs.read(Reg::Output),
            k: regs.read(Reg::Key),
            v: regs.read(Reg::Value),
        };
        proof {
            let attending = outside.attending::<T>();
            let trace = choose|trace: Seq<BlockValues<T>>| #[trigger]
                x.block_ran(outside.apply, attending, &design, tokens as nat, trace) && trace[0]
                    == (BlockValues {
                    regs: input_only(given),
                    k: Seq::empty(),
                    v: Seq::empty(),
                }) && trace.last() == (BlockValues {
                    regs: regs.values(),
                    k: none.k@,
                    v: none.v@,
                });
            let front = design.front();
            let n = design.ops().len() as int;
            assert(front < n);
            lemma_attends_once(&design, front);
            lemma_where_history_is(&design, front);
            assert(x.stepped(
                apply,
                attending,
                design.ops()[front],
                tokens as nat,
                trace[front],
                trace[front + 1],
            ));
            let before = trace[front].regs;
            let o = trace[front + 1].regs[Reg::Attended];
            assert(outside.attended(
                a,
                before[Reg::Query],
                before[Reg::Key],
                before[Reg::Value],
                o,
            ));
            let history = choose|history: PagedHistory<T>| #[trigger]
                self.attended_paged(
                    x,
                    session,
                    layer,
                    past,
                    tokens as nat,
                    history,
                    before[Reg::Query],
                    before[Reg::Key],
                    before[Reg::Value],
                    o,
                );
            let paged = self.attends_paged(x, session, layer, past, tokens as nat, history);
            assert forall|i: int| 0 <= i < n implies x.stepped(
                apply,
                paged,
                #[trigger] design.ops()[i],
                tokens as nat,
                trace[i],
                trace[i + 1],
            ) by {
                assert(x.stepped(
                    apply,
                    attending,
                    design.ops()[i],
                    tokens as nat,
                    trace[i],
                    trace[i + 1],
                ));
                lemma_attends_once(&design, i);
            }
            assert(x.block_ran(apply, paged, &design, tokens as nat, trace));
            lemma_keys_stay(x, apply, attending, &design, tokens as nat, trace, n);
            assert(x.layer_paged(
                self,
                session,
                apply,
                layer,
                past,
                tokens as nat,
                history,
                given,
                r.out@,
                r.k@,
                r.v@,
            ));
        }
        r
    }
}

} // verus!
