//! A MiniCPM pass: tokens are embedded and scaled, run through the layers, the
//! norm and the head, and what a session keeps of it is handed over.

use crate::block_program::BlockOp;
use crate::block_run::serves_applied;
use crate::device::DeviceBuffer;
use crate::error::Error;
use crate::minicpm::{
    embed_tokens, first_position, first_unknown, part, token_fault, token_known, MiniCpmBlock,
    MiniCpmConfig, MiniCpmModel,
};
use crate::minicpm_run::{PagedHandles, PagedHistory, PagedSession};
use crate::numeric::HUNDRED_THOUSANDTH;
use crate::rows::{copy_range, lemma_flat_index, lemma_row_bounds};
use crate::scalar::{fill_row, Number, Relation, ScalarOp, Scalars};
use vstd::prelude::*;

verus! {

/// A part of a pass that its surroundings run.
#[derive(Debug, Clone, Copy, PartialEq, Eq, Structural)]
pub enum MiniCpmPart {
    /// The norm behind the layers.
    Norm,
    /// The output projection.
    Head,
}

/// `after` is what a part makes of `before`.
pub open spec fn end_ran<T, P: Fn(MiniCpmPart, Vec<T>) -> Vec<T>>(
    ends: P,
    which: MiniCpmPart,
    before: Seq<T>,
    after: Seq<T>,
) -> bool {
    exists|a: Vec<T>, r: Vec<T>|
        a@ == before && r@ == after && #[trigger] call_ensures(ends, (which, a), r)
}

/// The ends run on `len` elements, and the norm gives as many.
pub open spec fn ends_serve<T, P: Fn(MiniCpmPart, Vec<T>) -> Vec<T>>(ends: P, len: nat) -> bool {
    &&& forall|p: MiniCpmPart, a: Vec<T>|
        a@.len() == len ==> #[trigger] call_requires(ends, (p, a))
    &&& forall|a: Vec<T>, r: Vec<T>| #[trigger]
        call_ensures(ends, (MiniCpmPart::Norm, a), r) && a@.len() == len ==> r@.len() == len
}

impl<T: Copy, F: Fn(ScalarOp, T, T) -> T, C: Fn(Number) -> T, Z: Fn(Relation, T, T) -> bool> Scalars<T, F, C, Z> {
    /// A factor differs from one by more than a hundred-thousandth.
    pub open spec fn departs(&self, factor: T) -> bool {
        let off = self.minus(factor, self.one());
        self.above(self.larger(off, self.negated(off)), self.constant(HUNDRED_THOUSANDTH))
    }

    /// What logits are multiplied by: the base width over the model's, where a
    /// base is set and the quotient departs from one.
    pub open spec fn logit_scale(&self, cfg: &MiniCpmConfig) -> Option<T> {
        match cfg.dim_model_base {
            Some(base) => {
                let scale = self.over(self.constant(base.bits), self.number(cfg.hidden_size));
                if self.departs(scale) {
                    Some(scale)
                } else {
                    None
                }
            },
            None => None,
        }
    }

    /// What embedded rows are multiplied by, where anything is set.
    pub open spec fn embedding_scale(&self, cfg: &MiniCpmConfig) -> Option<T> {
        match cfg.scale_emb {
            Some(scale) => Some(self.constant(scale.bits)),
            None => None,
        }
    }

    /// Every element times a factor, where there is one.
    pub open spec fn multiplied(&self, rows: Seq<T>, factor: Option<T>) -> Seq<T> {
        match factor {
            Some(f) => Seq::new(rows.len(), |i: int| self.times(rows[i], f)),
            None => rows,
        }
    }
}

fn multiply<
    T: Copy,
    F: Fn(ScalarOp, T, T) -> T,
    C: Fn(Number) -> T,
    Z: Fn(Relation, T, T) -> bool,
>(x: &Scalars<T, F, C, Z>, rows: Vec<T>, factor: Option<T>) -> (out: Vec<T>)
    requires
        x.wf(),
    ensures
        out@ == x.multiplied(rows@, factor),
{
    match factor {
        Some(f) => {
            let n: usize = rows.len();
            let ghost cell = |i: int| x.times(rows@[i], f);
            let out = fill_row(
                n,
                |i: usize| -> (o: T)
                    requires
                        i < n,
                    ensures
                        o == cell(i as int)
                    { x.times(rows[i], f) },
                Ghost(cell),
            );
            assert(out@ =~= x.multiplied(rows@, factor));
            out
        },
        None => rows,
    }
}

/// Keys and values of a layer.
pub struct KvPair<T> {
    pub k: Vec<T>,
    pub v: Vec<T>,
}

/// What the layers and the head give: logits, the normed rows, and the keys and
/// values of every layer.
pub struct MiniCpmDecoded<T> {
    pub logits: Vec<T>,
    pub hidden: Vec<T>,
    pub pairs: Vec<KvPair<T>>,
}

/// What a pass goes through: the rows before every layer and behind the last,
/// the history that each layer read out of pages, its keys and its values, and
/// what the norm and the head give.
pub struct MiniCpmRun<T> {
    pub rows: Seq<Seq<T>>,
    pub histories: Seq<PagedHistory<T>>,
    pub k: Seq<Seq<T>>,
    pub v: Seq<Seq<T>>,
    pub normed: Seq<T>,
    pub head: Seq<T>,
}

impl<T: Copy, F: Fn(ScalarOp, T, T) -> T, C: Fn(Number) -> T, Z: Fn(Relation, T, T) -> bool> Scalars<T, F, C, Z> {
    /// The first `n` layers ran one after the other.
    pub open spec fn layers_paged<A, B, E, K, G>(
        &self,
        block: &MiniCpmBlock,
        session: &PagedSession<A, B, E, K>,
        applies: Seq<G>,
        past: nat,
        tokens: nat,
        input: Seq<T>,
        run: MiniCpmRun<T>,
        n: int,
    ) -> bool where
        A: Fn(usize, Vec<T>, Vec<T>) -> bool,
        B: Fn(usize) -> Option<PagedHandles>,
        E: Fn(DeviceBuffer, Vec<usize>, usize, usize, usize) -> Option<Vec<T>>,
        G: Fn(BlockOp, Vec<T>) -> Vec<T>,
     {
        &&& run.rows.len() == n + 1
        &&& run.histories.len() == n
        &&& run.k.len() == n
        &&& run.v.len() == n
        &&& run.rows[0] == input
        &&& forall|l: int|
            0 <= l < n ==> self.layer_paged(
                block,
                session,
                #[trigger] applies[l],
                l as usize,
                past,
                tokens,
                run.histories[l],
                run.rows[l],
                run.rows[l + 1],
                run.k[l],
                run.v[l],
            )
    }

    /// Rows became logits: the layers ran, then the norm and the head, and the
    /// logits were scaled where the configuration says so.
    pub open spec fn decoded_paged<A, B, E, K, G, P>(
        &self,
        cfg: &MiniCpmConfig,
        block: &MiniCpmBlock,
        session: &PagedSession<A, B, E, K>,
        applies: Seq<G>,
        ends: P,
        past: nat,
        tokens: nat,
        input: Seq<T>,
        run: MiniCpmRun<T>,
        logits: Seq<T>,
    ) -> bool where
        A: Fn(usize, Vec<T>, Vec<T>) -> bool,
        B: Fn(usize) -> Option<PagedHandles>,
        E: Fn(DeviceBuffer, Vec<usize>, usize, usize, usize) -> Option<Vec<T>>,
        G: Fn(BlockOp, Vec<T>) -> Vec<T>,
        P: Fn(MiniCpmPart, Vec<T>) -> Vec<T>,
     {
        &&& self.layers_paged(
            block,
            session,
            applies,
            past,
            tokens,
            input,
            run,
            applies.len() as int,
        )
        &&& end_ran(ends, MiniCpmPart::Norm, run.rows.last(), run.normed)
        &&& end_ran(ends, MiniCpmPart::Head, run.normed, run.head)
        &&& logits == self.multiplied(run.head, self.logit_scale(cfg))
    }
}

/// Pairs of keys and values hold what the layers gave.
pub open spec fn pairs_hold<T>(pairs: Seq<KvPair<T>>, k: Seq<Seq<T>>, v: Seq<Seq<T>>) -> bool {
    &&& pairs.len() == k.len()
    &&& pairs.len() == v.len()
    &&& forall|l: int|
        0 <= l < pairs.len() ==> (#[trigger] pairs[l]).k@ == k[l] && pairs[l].v@ == v[l]
}

impl MiniCpmModel {
    /// What a pass of `tokens` tokens behind `past` others asks of its
    /// surroundings can be had.
    pub open spec fn served_by<A, B, E, K, G, P, T>(
        &self,
        block: &MiniCpmBlock,
        session: &PagedSession<A, B, E, K>,
        applies: Seq<G>,
        ends: P,
        past: nat,
        tokens: nat,
    ) -> bool where
        A: Fn(usize, Vec<T>, Vec<T>) -> bool,
        B: Fn(usize) -> Option<PagedHandles>,
        E: Fn(DeviceBuffer, Vec<usize>, usize, usize, usize) -> Option<Vec<T>>,
        G: Fn(BlockOp, Vec<T>) -> Vec<T>,
        P: Fn(MiniCpmPart, Vec<T>) -> Vec<T>,
     {
        &&& block.call_fits(past, tokens)
        &&& block.cfg.hidden_size == self.cfg.hidden_size
        &&& applies.len() == self.cfg.num_layers
        &&& forall|l: int|
            0 <= l < applies.len() ==> serves_applied::<T, G>(
                #[trigger] applies[l],
                &block.design(),
                tokens,
            )
        &&& forall|l: usize|
            l < applies.len() ==> #[trigger] session.serves::<T>(
                l,
                tokens,
                block.kv_row(),
                past + tokens,
            )
        &&& ends_serve::<T, P>(ends, tokens * self.cfg.hidden_size as nat)
    }

    fn scale_of_logits<
        T: Copy,
        F: Fn(ScalarOp, T, T) -> T,
        C: Fn(Number) -> T,
        Z: Fn(Relation, T, T) -> bool,
    >(&self, x: &Scalars<T, F, C, Z>) -> (scale: Option<T>)
        requires
            x.wf(),
        ensures
            scale == x.logit_scale(&self.cfg),
    {
        match self.cfg.dim_model_base {
            Some(base) => {
                let scale = x.over(x.constant(base.bits), x.number(self.cfg.hidden_size));
                let off = x.minus(scale, x.one());
                if x.above(x.larger(off, x.negated(off)), x.constant(HUNDRED_THOUSANDTH)) {
                    Some(scale)
                } else {
                    None
                }
            },
            None => None,
        }
    }

    /// Runs rows through the layers, the norm and the head.
    pub fn decode_paged<
        T: Copy,
        F: Fn(ScalarOp, T, T) -> T,
        C: Fn(Number) -> T,
        Z: Fn(Relation, T, T) -> bool,
        A: Fn(usize, Vec<T>, Vec<T>) -> bool,
        B: Fn(usize) -> Option<PagedHandles>,
        E: Fn(DeviceBuffer, Vec<usize>, usize, usize, usize) -> Option<Vec<T>>,
        K,
        G: Fn(BlockOp, Vec<T>) -> Vec<T> + Copy,
        P: Fn(MiniCpmPart, Vec<T>) -> Vec<T>,
    >(
        &self,
        x: &Scalars<T, F, C, Z>,
        block: &MiniCpmBlock,
        session: &PagedSession<A, B, E, K>,
        applies: &Vec<G>,
        ends: &P,
        hidden: Vec<T>,
        positions: &[u32],
        tokens: usize,
    ) -> (r: MiniCpmDecoded<T>)
        requires
            x.wf(),
            self.served_by::<A, B, E, K, G, P, T>(
                block,
                session,
                applies@,
                *ends,
                first_position(positions@),
                tokens as nat,
            ),
            hidden@.len() == tokens * self.cfg.hidden_size,
        ensures
            exists|run: MiniCpmRun<T>| #[trigger]
                x.decoded_paged(
                    &self.cfg,
                    block,
                    session,
                    applies@,
                    *ends,
                    first_position(positions@),
                    tokens as nat,
                    hidden@,
                    run,
                    r.logits@,
                ) && r.hidden@ == run.normed && pairs_hold(r.pairs@, run.k, run.v),
            r.pairs@.len() == self.cfg.num_layers,
    {
        let n: usize = applies.len();
        let ghost past = first_position(positions@);
        let ghost given = hidden@;
        let mut rows = hidden;
        let mut pairs: Vec<KvPair<T>> = Vec::new();
        let ghost mut run = MiniCpmRun {
            rows: seq![given],
            histories: Seq::empty(),
            k: Seq::empty(),
            v: Seq::empty(),
            normed: Seq::empty(),
            head: Seq::empty(),
        };
        for l in 0..n
            invariant
                x.wf(),
                n == applies@.len(),
                past == first_position(positions@),
                self.served_by::<A, B, E, K, G, P, T>(
                    block,
                    session,
                    applies@,
                    *ends,
                    past,
                    tokens as nat,
                ),
                rows@.len() == tokens * self.cfg.hidden_size,
                rows@ == run.rows.last(),
                pairs_hold(pairs@, run.k, run.v),
                x.layers_paged(
                    block,
                    session,
                    applies@,
                    past,
                    tokens as nat,
                    given,
                    run,
                    l as int,
                ),
        {
            let apply = applies[l];
            assert(apply == applies@[l as int]);
            assert(session.serves::<T>(l, tokens as nat, block.kv_row(), past + tokens as nat));
            let ghost before = rows@;
            let layer = block.forward_with_kv_paged(
                x,
                session,
                apply,
                l,
                rows,
                positions,
                tokens,
            );
            proof {
                let history = choose|history: PagedHistory<T>| #[trigger]
                    x.layer_paged(
                        block,
                        session,
                        apply,
                        l,
                        past,
                        tokens as nat,
                        history,
                        before,
                        layer.out@,
                        layer.k@,
                        layer.v@,
                    );
                let earlier = run;
                run = MiniCpmRun {
                    rows: earlier.rows.push(layer.out@),
                    histories: earlier.histories.push(history),
                    k: earlier.k.push(layer.k@),
                    v: earlier.v.push(layer.v@),
                    ..earlier
                };
                assert forall|m: int| 0 <= m < l + 1 implies x.layer_paged(
                    block,
                    session,
                    #[trigger] applies@[m],
                    m as usize,
                    past,
                    tokens as nat,
                    run.histories[m],
                    run.rows[m],
                    run.rows[m + 1],
                    run.k[m],
                    run.v[m],
                ) by {
                    if m < l {
                        assert(x.layer_paged(
                            block,
                            session,
                            applies@[m],
                            m as usize,
                            past,
                            tokens as nat,
                            earlier.histories[m],
                            earlier.rows[m],
                            earlier.rows[m + 1],
                            earlier.k[m],
                            earlier.v[m],
                        ));
                    }
                }
            }
            pairs.push(KvPair { k: layer.k, v: layer.v });
            rows = layer.out;
        }
        let ghost last = rows;
        let normed = ends(MiniCpmPart::Norm, rows);
        assert(call_ensures(*ends, (MiniCpmPart::Norm, last), normed));
        let own = copy_range(normed.as_slice(), 0, normed.len());
        assert(own@ =~= normed@);
        let ghost asked = own;
        let head = ends(MiniCpmPart::Head, own);
        assert(call_ensures(*ends, (MiniCpmPart::Head, asked), head));
        let ghost raw = head@;
        let logits = multiply(x, head, self.scale_of_logits(x));
        proof {
            run = MiniCpmRun { normed: normed@, head: raw, ..run };
            assert(x.decoded_paged(
                &self.cfg,
                block,
                session,
                applies@,
                *ends,
                past,
                tokens as nat,
                given,
                run,
                logits@,
            ));
        }
        let r = MiniCpmDecoded { logits, hidden: normed, pairs };
        assert(x.decoded_paged(
            &self.cfg,
            block,
            session,
            applies@,
            *ends,
            first_position(positions@),
            tokens as nat,
            given,
            run,
            r.logits@,
        ) && r.hidden@ == run.normed && pairs_hold(r.pairs@, run.k, run.v));
        r
    }
}

/// The rows of a table that tokens stand for, one after the other.
pub open spec fn embedded<T>(table: Seq<T>, width: nat, ids: Seq<u32>) -> Seq<T> {
    Seq::new(
        ids.len() * width,
        |i: int| table[ids[i / width as int] * width + i % width as int],
    )
}

proof fn lemma_embedded<T>(table: Seq<T>, vocab: nat, width: nat, ids: Seq<u32>, rows: Seq<T>)
    requires
        rows.len() == ids.len() * width,
        forall|i: int|
            0 <= i < ids.len() ==> token_known(table.len(), vocab, width, #[trigger] ids[i] as nat),
        forall|i: int|
            0 <= i < ids.len() ==> #[trigger] part(rows, i, width) == part(
                table,
                ids[i] as int,
                width,
            ),
    ensures
        rows == embedded(table, width, ids),
{
    assert forall|i: int| 0 <= i < rows.len() implies rows[i] == embedded(table, width, ids)[i] by {
        lemma_flat_index(i, ids.len() as int, width as int);
        let (t, c) = (i / width as int, i % width as int);
        lemma_row_bounds(t, ids.len() as int, width as int);
        assert(part(rows, t, width) == part(table, ids[t] as int, width));
        assert(token_known(table.len(), vocab, width, ids[t] as nat));
        let id = ids[t] as int;
        assert(0 <= id * width && (id + 1) * width == id * width + width) by (nonlinear_arith)
            requires
                0 <= id,
        ;
        assert(part(rows, t, width)[c] == rows[i]);
        assert(part(table, ids[t] as int, width)[c] == table[ids[t] * width + c]);
    }
    assert(rows =~= embedded(table, width, ids));
}

/// What a pass gives, and how far the session is behind it.
pub struct MiniCpmOutput<T> {
    pub logits: Vec<T>,
    /// The normed rows, for the session to keep.
    pub hidden: Vec<T>,
    pub position: usize,
}

impl<T: Copy, F: Fn(ScalarOp, T, T) -> T, C: Fn(Number) -> T, Z: Fn(Relation, T, T) -> bool> Scalars<T, F, C, Z> {
    /// How a pass ends whose tokens and positions are in order: the session
    /// gets the keys and values of every layer, in order, the pass gives the
    /// logits and the normed rows, and the session moves on by the tokens. The
    /// first layer whose keys and values are refused ends it.
    pub open spec fn pass_ended<A, B, E, K>(
        &self,
        session: &PagedSession<A, B, E, K>,
        run: MiniCpmRun<T>,
        logits: Seq<T>,
        position: usize,
        tokens: nat,
        result: Result<MiniCpmOutput<T>, Error>,
    ) -> bool where K: Fn(Vec<T>, Vec<T>) -> bool {
        match result {
            Ok(out) => {
                &&& forall|l: int|
                    0 <= l < run.k.len() ==> session.kept(#[trigger] run.k[l], run.v[l], true)
                &&& out.logits@ == logits
                &&& out.hidden@ == run.normed
                &&& out.position == position + tokens
            },
            Err(e) => exists|l: int|
                {
                    &&& 0 <= l < run.k.len()
                    &&& #[trigger] session.kept(run.k[l], run.v[l], false)
                    &&& forall|m: int|
                        0 <= m < l ==> session.kept(#[trigger] run.k[m], run.v[m], true)
                    &&& e == (Error::SessionRefused { layer: l as usize })
                },
        }
    }
}

impl MiniCpmModel {
    /// Every token has its row in the table.
    pub open spec fn knows(&self, table_len: nat, ids: Seq<u32>) -> bool {
        forall|i: int|
            0 <= i < ids.len() ==> token_known(
                table_len,
                self.cfg.vocab_size as nat,
                self.cfg.hidden_size as nat,
                #[trigger] ids[i] as nat,
            )
    }

    /// Runs a pass over the tokens of a session that is at `position`.
    ///
    /// A token without a row is refused, and after that another number of
    /// positions than of tokens.
    pub fn forward<
        T: Copy,
        F: Fn(ScalarOp, T, T) -> T,
        C: Fn(Number) -> T,
        Z: Fn(Relation, T, T) -> bool,
        A: Fn(usize, Vec<T>, Vec<T>) -> bool,
        B: Fn(usize) -> Option<PagedHandles>,
        E: Fn(DeviceBuffer, Vec<usize>, usize, usize, usize) -> Option<Vec<T>>,
        K: Fn(Vec<T>, Vec<T>) -> bool,
        G: Fn(BlockOp, Vec<T>) -> Vec<T> + Copy,
        P: Fn(MiniCpmPart, Vec<T>) -> Vec<T>,
    >(
        &self,
        x: &Scalars<T, F, C, Z>,
        block: &MiniCpmBlock,
        session: &PagedSession<A, B, E, K>,
        applies: &Vec<G>,
        ends: &P,
        table: &[T],
        ids: &[u32],
        positions: &[u32],
        position: usize,
    ) -> (result: Result<MiniCpmOutput<T>, Error>)
        requires
            x.wf(),
            self.cfg.vocab_size * self.cfg.hidden_size <= usize::MAX,
            ids@.len() * self.cfg.hidden_size <= usize::MAX,
            self.knows(table@.len(), ids@) && positions@.len() == ids@.len() ==> {
                &&& self.served_by::<A, B, E, K, G, P, T>(
                    block,
                    session,
                    applies@,
                    *ends,
                    first_position(positions@),
                    ids@.len(),
                )
                &&& forall|a: Vec<T>, b: Vec<T>| #[trigger] call_requires(session.keep, (a, b))
                &&& position + ids@.len() <= usize::MAX
            },
        ensures
            !self.knows(table@.len(), ids@) ==> (result matches Err(e) && exists|i: int| #[trigger]
                first_unknown(
                    table@.len(),
                    self.cfg.vocab_size as nat,
                    self.cfg.hidden_size as nat,
                    ids@,
                    i,
                ) && e == token_fault(self.cfg.vocab_size as nat, ids@[i] as nat)),
            self.knows(table@.len(), ids@) && positions@.len() != ids@.len() ==> result == Err::<
                MiniCpmOutput<T>,
                Error,
            >(
                Error::PositionCount {
                    model: "MiniCPM::forward",
                    positions: positions@.len() as usize,
                    tokens: ids@.len() as usize,
                },
            ),
            self.knows(table@.len(), ids@) && positions@.len() == ids@.len() ==> exists|
                run: MiniCpmRun<T>,
                logits: Seq<T>,
            |
                #[trigger] x.decoded_paged(
                    &self.cfg,
                    block,
                    session,
                    applies@,
                    *ends,
                    first_position(positions@),
                    ids@.len(),
                    x.multiplied(
                        embedded(table@, self.cfg.hidden_size as nat, ids@),
                        x.embedding_scale(&self.cfg),
                    ),
                    run,
                    logits,
                ) && x.pass_ended(session, run, logits, position, ids@.len(), result),
    {
        let tokens: usize = ids.len();
        let width: usize = self.cfg.hidden_size;
        let rows = match embed_tokens(table, self.cfg.vocab_size, width, ids) {
            Ok(rows) => rows,
            Err(e) => {
                return Err(e);
            },
        };
        assert(self.knows(table@.len(), ids@));
        if positions.len() != tokens {
            return Err(
                Error::PositionCount {
                    model: "MiniCPM::forward",
                    positions: positions.len(),
                    tokens,
                },
            );
        }
        proof {
            lemma_embedded(table@, self.cfg.vocab_size as nat, width as nat, ids@, rows@);
        }
        let scale: Option<T> = match self.cfg.scale_emb {
            Some(scale) => Some(x.constant(scale.bits)),
            None => None,
        };
        let hidden = multiply(x, rows, scale);
        let ghost input = hidden@;
        let done = self.decode_paged(x, block, session, applies, ends, hidden, positions, tokens);
        let ghost run = choose|run: MiniCpmRun<T>| #[trigger]
            x.decoded_paged(
                &self.cfg,
                block,
                session,
                applies@,
                *ends,
                first_position(positions@),
                tokens as nat,
                input,
                run,
                done.logits@,
            ) && done.hidden@ == run.normed && pairs_hold(done.pairs@, run.k, run.v);
        let n: usize = done.pairs.len();
        for l in 0..n
            invariant
                n == done.pairs@.len(),
                pairs_hold(done.pairs@, run.k, run.v),
                forall|a: Vec<T>, b: Vec<T>| #[trigger] call_requires(session.keep, (a, b)),
                forall|m: int|
                    0 <= m < l ==> session.kept(#[trigger] run.k[m], run.v[m], true),
                x.decoded_paged(
                    &self.cfg,
                    block,
                    session,
                    applies@,
                    *ends,
                    first_position(positions@),
                    ids@.len(),
                    x.multiplied(
                        embedded(table@, self.cfg.hidden_size as nat, ids@),
                        x.embedding_scale(&self.cfg),
                    ),
                    run,
                    done.logits@,
                ),
                self.knows(table@.len(), ids@),
                positions@.len() == ids@.len(),
        {
            let k = copy_range(done.pairs[l].k.as_slice(), 0, done.pairs[l].k.len());
            let v = copy_range(done.pairs[l].v.as_slice(), 0, done.pairs[l].v.len());
            assert(k@ =~= done.pairs@[l as int].k@);
            assert(v@ =~= done.pairs@[l as int].v@);
            let ghost given = (k, v);
            let ok: bool = (session.keep)(k, v);
            assert(call_ensures(session.keep, given, ok));
            assert(session.kept(run.k[l as int], run.v[l as int], ok));
            if !ok {
                let result = Err(Error::SessionRefused { layer: l });
                assert(x.pass_ended(session, run, done.logits@, position, ids@.len(), result));
                return result;
            }
        }
        let ghost logits = done.logits@;
        let result = Ok(
            MiniCpmOutput {
                logits: done.logits,
                hidden: done.hidden,
                position: position + tokens,
            },
        );
        assert(x.pass_ended(session, run, logits, position, ids@.len(), result));
        result
    }
}

} // verus!
