//! MiniCPM: a paged history next to the plain one.

use grim_transformer::block_program::{BlockOp, Part, Reg};
use grim_transformer::device::DeviceBuffer;
use grim_transformer::error::Error;
use grim_transformer::minicpm::{
    embed_tokens, flatten_dims, pad_rows, read_batch, repeat_positions, HeadSharding,
    MiniCpmBlock, MiniCpmConfig, MiniCpmModel,
};
use grim_transformer::minicpm_pass::{MiniCpmDecoded, MiniCpmOutput, MiniCpmPart};
use grim_transformer::minicpm_run::{PagedHandles, PagedSession};
use grim_transformer::numeric::Real;
use grim_transformer::scalar::{Number, Relation, ScalarOp, Scalars};
use std::cell::{Cell, RefCell};

fn calc(op: ScalarOp, a: f32, b: f32) -> f32 {
    match op {
        ScalarOp::Plus => a + b,
        ScalarOp::Minus => a - b,
        ScalarOp::Times => a * b,
        ScalarOp::Over => a / b,
        ScalarOp::Larger => a.max(b),
        ScalarOp::Smaller => a.min(b),
        ScalarOp::Power => a.powf(b),
        ScalarOp::Negate => -a,
        ScalarOp::Exp => a.exp(),
        ScalarOp::Ln => a.ln(),
        ScalarOp::Root => a.sqrt(),
        ScalarOp::Tanh => a.tanh(),
    }
}

fn single() -> Scalars<
    f32,
    impl Fn(ScalarOp, f32, f32) -> f32,
    impl Fn(Number) -> f32,
    impl Fn(Relation, f32, f32) -> bool,
> {
    Scalars {
        op: calc,
        given: |n: Number| match n {
            Number::Count(c) => c as f32,
            Number::Real(r) => f64::from_bits(r.bits) as f32,
        },
        holds: |r: Relation, a: f32, b: f32| match r {
            Relation::Same => a == b,
            Relation::Above => a > b,
        },
        nothing: 0.0,
    }
}

fn matmul(x: &[f32], w: &[f32], inputs: usize) -> Vec<f32> {
    let outputs = w.len() / inputs;
    let mut out = Vec::new();
    for row in x.chunks(inputs) {
        for o in 0..outputs {
            out.push((0..inputs).map(|i| row[i] * w[o * inputs + i]).sum());
        }
    }
    out
}

fn setting(x: f64) -> Real {
    Real { bits: x.to_bits() }
}

const VOCAB: usize = 64;
const HIDDEN: usize = 16;

fn tiny_cfg() -> MiniCpmConfig {
    MiniCpmConfig {
        vocab_size: VOCAB,
        hidden_size: HIDDEN,
        num_heads: 2,
        num_kv_heads: 1,
        head_dim: 8,
        num_layers: 1,
        intermediate_size: 16,
        rms_norm_eps: setting(1e-5),
        rope_theta: setting(10000.0),
        scale_emb: None,
        scale_depth: None,
        dim_model_base: None,
    }
}

fn tiny_block() -> MiniCpmBlock {
    MiniCpmBlock::new(
        &tiny_cfg(),
        HeadSharding {
            local_num_heads: 2,
            local_num_kv_heads: 1,
            kv_head_replica_factor: 1,
        },
    )
}

fn table() -> Vec<f32> {
    (0..VOCAB * HIDDEN).map(|i| ((i % 37) as f32 * 0.02) - 0.35).collect()
}

fn ramp(n: usize, m: usize, off: f32) -> Vec<f32> {
    (0..n).map(|i| ((i % m) as f32 * 0.01) - off).collect()
}

fn rms(rows: &[f32]) -> Vec<f32> {
    let mut out = Vec::new();
    for row in rows.chunks(HIDDEN) {
        let mean = row.iter().map(|v| v * v).sum::<f32>() / HIDDEN as f32;
        out.extend(row.iter().map(|v| v / (mean + 1e-5).sqrt()));
    }
    out
}

/// What a block leaves to its surroundings, on the tiny weights.
fn applied(op: BlockOp, rows: Vec<f32>, positions: &[u32]) -> Vec<f32> {
    let square = HIDDEN * HIDDEN;
    match op {
        BlockOp::Norm { .. } => rms(&rows),
        BlockOp::Linear { part, .. } => {
            let w = match part {
                Part::Query => ramp(square, 11, 0.05),
                Part::Key => ramp(8 * HIDDEN, 7, 0.03),
                Part::Value => ramp(8 * HIDDEN, 13, 0.06),
                Part::AttnOut => ramp(square, 17, 0.08),
                Part::Gate => ramp(square, 5, 0.02),
                Part::Up => ramp(square, 9, 0.04),
                Part::Down => ramp(square, 15, 0.07),
                _ => panic!("no such weight"),
            };
            matmul(&rows, &w, HIDDEN)
        }
        BlockOp::Rope { heads, head_dim, .. } => {
            let dims = [positions.len(), heads * head_dim];
            tiny_block()
                .apply_rope_multi_head(&rows, &dims, positions, heads, 0.0, rotate)
                .unwrap()
        }
        _ => panic!("not left to the surroundings"),
    }
}

fn ended(part: MiniCpmPart, rows: Vec<f32>) -> Vec<f32> {
    match part {
        MiniCpmPart::Norm => rms(&rows),
        MiniCpmPart::Head => matmul(&rows, &ramp(VOCAB * HIDDEN, 23, 0.1), HIDDEN),
    }
}

/// Where a session fails.
#[derive(Clone, Copy, PartialEq)]
enum Fails {
    Nowhere,
    Appending,
    Offering,
    Gathering,
    Keeping,
}

/// A session with pages of some tokens, which are handed out back to front, or
/// with none.
struct Session {
    page_size: Option<usize>,
    fails: Fails,
    k: RefCell<Vec<f32>>,
    v: RefCell<Vec<f32>>,
    tokens: Cell<usize>,
    kept: RefCell<Vec<(Vec<f32>, Vec<f32>)>>,
    asked: Cell<usize>,
}

const ROW: usize = 8;
const PAGES: usize = 8;

impl Session {
    fn new(page_size: Option<usize>, fails: Fails) -> Session {
        let room = PAGES * page_size.unwrap_or(0) * ROW;
        Session {
            page_size,
            fails,
            k: RefCell::new(vec![f32::NAN; room]),
            v: RefCell::new(vec![f32::NAN; room]),
            tokens: Cell::new(0),
            kept: RefCell::new(Vec::new()),
            asked: Cell::new(0),
        }
    }

    fn append(&self, k: &[f32], v: &[f32]) -> bool {
        self.asked.set(self.asked.get() + 1);
        if self.fails == Fails::Appending {
            return false;
        }
        let size = self.page_size.unwrap();
        for (a, b) in k.chunks(ROW).zip(v.chunks(ROW)) {
            let t = self.tokens.get();
            let at = ((PAGES - 1 - t / size) * size + t % size) * ROW;
            self.k.borrow_mut()[at..at + ROW].copy_from_slice(a);
            self.v.borrow_mut()[at..at + ROW].copy_from_slice(b);
            self.tokens.set(t + 1);
        }
        true
    }

    fn handles(&self, layer: usize) -> Option<PagedHandles> {
        assert_eq!(layer, 0);
        if self.fails == Fails::Offering {
            return None;
        }
        let buffer = |id: u64| DeviceBuffer { id, rows: PAGES, cols: ROW, rocm: false, ptr: None };
        Some(PagedHandles {
            table: (0..PAGES as u32).rev().collect(),
            k: buffer(1),
            v: buffer(2),
            page_size: self.page_size.unwrap(),
        })
    }

    fn gather(
        &self,
        buffer: DeviceBuffer,
        table: &[usize],
        page_size: usize,
        stride: usize,
        rows: usize,
    ) -> Option<Vec<f32>> {
        assert_eq!((Some(page_size), stride), (self.page_size, ROW));
        if self.fails == Fails::Gathering {
            return None;
        }
        let held = if buffer.id == 1 { self.k.borrow() } else { self.v.borrow() };
        let mut out = Vec::new();
        for t in 0..rows {
            let at = (table[t / page_size] * page_size + t % page_size) * stride;
            out.extend_from_slice(&held[at..at + stride]);
        }
        Some(out)
    }

    fn keep(&self, k: Vec<f32>, v: Vec<f32>) -> bool {
        self.kept.borrow_mut().push((k, v));
        self.fails != Fails::Keeping
    }
}

fn pass(
    cfg: MiniCpmConfig,
    session: &Session,
    ids: &[u32],
    positions: &[u32],
    position: usize,
) -> Result<MiniCpmOutput<f32>, Error> {
    let model = MiniCpmModel { cfg };
    let outside = PagedSession {
        has_pages: session.page_size.is_some(),
        append: |_: usize, k: Vec<f32>, v: Vec<f32>| session.append(&k, &v),
        handles: |layer: usize| session.handles(layer),
        gather: |b: DeviceBuffer, t: Vec<usize>, p: usize, s: usize, n: usize| {
            session.gather(b, &t, p, s, n)
        },
        keep: |k: Vec<f32>, v: Vec<f32>| session.keep(k, v),
    };
    let apply = |op: BlockOp, rows: Vec<f32>| applied(op, rows, positions);
    model.forward(
        &single(),
        &tiny_block(),
        &outside,
        &vec![apply],
        &ended,
        &table(),
        ids,
        positions,
        position,
    )
}

fn largest_gap(a: &[f32], b: &[f32]) -> f32 {
    assert_eq!(a.len(), b.len());
    a.iter().zip(b).map(|(x, y)| (x - y).abs()).fold(0.0f32, f32::max)
}

#[test]
fn minicpm_forward_advances_session_position() {
    let session = Session::new(None, Fails::Nowhere);
    let out = pass(tiny_cfg(), &session, &[3, 9], &[0, 1], 0).unwrap();
    assert_eq!(out.position, 2, "session pos must advance by seq_len");
    assert_eq!(out.logits.len(), 2 * VOCAB);
    assert_eq!(out.hidden.len(), 2 * HIDDEN);
}

#[test]
fn minicpm_forward_rejects_out_of_vocab_ids() {
    let session = Session::new(None, Fails::Nowhere);
    let err = match pass(tiny_cfg(), &session, &[9999], &[0], 0) {
        Err(e) => e,
        Ok(_) => panic!("OOV id must error"),
    };
    let text = err.message();
    assert!(
        text.contains("out of range"),
        "error should name the OOV token: {text}"
    );
    assert!(text.contains("9999"));
    assert!(session.kept.borrow().is_empty());
}

#[test]
fn other_inputs_are_refused_too() {
    let session = Session::new(None, Fails::Nowhere);
    assert!(matches!(
        pass(tiny_cfg(), &session, &[3, 9], &[0, 1, 2], 0),
        Err(Error::PositionCount { positions: 3, tokens: 2, .. })
    ));
    assert!(matches!(
        embed_tokens(&table()[1..], VOCAB, HIDDEN, &[VOCAB as u32 - 1]),
        Err(Error::TableTooSmall { .. })
    ));
    let block = tiny_block();
    assert!(matches!(
        block.prefilled_self_attention(&single(), &[], &[], &[], &[1]),
        Err(Error::RowRank { .. })
    ));
}

fn rotate(rows: Vec<f32>, positions: Vec<u32>) -> Vec<f32> {
    let dim = 8;
    let half = dim / 2;
    let mut out = rows.clone();
    for (r, row) in rows.chunks(dim).enumerate() {
        for i in 0..half {
            let angle = positions[r] as f32 / 10000f32.powf(2.0 * i as f32 / dim as f32);
            let (a, b) = (row[i], row[i + half]);
            out[r * dim + i] = a * angle.cos() - b * angle.sin();
            out[r * dim + i + half] = a * angle.sin() + b * angle.cos();
        }
    }
    out
}

struct Projected {
    q: Vec<f32>,
    k: Vec<f32>,
    v: Vec<f32>,
}

fn project(block: &MiniCpmBlock, ids: &[u32], positions: &[u32]) -> Projected {
    let rows = embed_tokens(&table(), VOCAB, HIDDEN, ids).unwrap();
    let n = ids.len();
    let normed = rms(&rows);
    let q = matmul(&normed, &ramp(16 * HIDDEN, 11, 0.05), HIDDEN);
    let k = matmul(&normed, &ramp(8 * HIDDEN, 7, 0.03), HIDDEN);
    let v = matmul(&normed, &ramp(8 * HIDDEN, 13, 0.06), HIDDEN);
    Projected {
        q: block
            .apply_rope_multi_head(&q, &[n, 16], positions, 2, 0.0, rotate)
            .unwrap(),
        k: block
            .apply_rope_multi_head(&k, &[n, 8], positions, 1, 0.0, rotate)
            .unwrap(),
        v,
    }
}

#[test]
fn minicpm_paged_matches_classic_attention() {
    let ids = [3u32, 9u32];
    let pos = [0u32, 1];
    let classic = Session::new(None, Fails::Nowhere);
    let logits_classic = pass(tiny_cfg(), &classic, &ids, &pos, 0).unwrap().logits;
    assert_eq!(classic.asked.get(), 0);
    for size in [16, 1] {
        let paged = Session::new(Some(size), Fails::Nowhere);
        let logits_paged = pass(tiny_cfg(), &paged, &ids, &pos, 0).unwrap().logits;
        assert_eq!((paged.asked.get(), paged.tokens.get()), (1, 2));
        let max_diff = largest_gap(&logits_classic, &logits_paged);
        assert!(
            max_diff < 1e-4,
            "paged path must match classic (post-RoPE key storage): max diff {max_diff}"
        );
    }
    assert!(logits_classic.iter().any(|v| *v != 0.0));
}

#[test]
fn pages_hold_the_rotated_keys() {
    let session = Session::new(Some(16), Fails::Nowhere);
    pass(tiny_cfg(), &session, &[3, 9], &[0, 1], 0).unwrap();
    let p = project(&tiny_block(), &[3, 9], &[0, 1]);
    let at = (PAGES - 1) * 16 * ROW;
    assert!(largest_gap(&session.k.borrow()[at..at + 2 * ROW], &p.k) < 1e-6);
    assert!(largest_gap(&session.v.borrow()[at..at + 2 * ROW], &p.v) < 1e-6);
    let kept = session.kept.borrow();
    assert_eq!(kept.len(), 1);
    assert!(largest_gap(&kept[0].0, &p.k) < 1e-6);
    assert!(largest_gap(&kept[0].1, &p.v) < 1e-6);
}

#[test]
fn a_second_pass_sees_the_pages_of_the_first() {
    let whole = Session::new(Some(1), Fails::Nowhere);
    let both = pass(tiny_cfg(), &whole, &[3, 9], &[0, 1], 0).unwrap();
    let session = Session::new(Some(1), Fails::Nowhere);
    let first = pass(tiny_cfg(), &session, &[3], &[0], 0).unwrap();
    let second = pass(tiny_cfg(), &session, &[9], &[1], first.position).unwrap();
    assert_eq!(second.position, 2);
    assert!(largest_gap(&both.logits[..VOCAB], &first.logits) < 1e-5);
    assert!(largest_gap(&both.logits[VOCAB..], &second.logits) < 1e-5);
    // Without pages the second pass sees its own token only.
    let none = Session::new(None, Fails::Nowhere);
    let alone = pass(tiny_cfg(), &none, &[9], &[1], 1).unwrap();
    assert!(largest_gap(&alone.logits, &second.logits) > 1e-5);
}

#[test]
fn pages_that_fail_leave_attention_to_the_rows_of_the_call() {
    let classic = Session::new(None, Fails::Nowhere);
    let expected = pass(tiny_cfg(), &classic, &[3, 9], &[0, 1], 0).unwrap().logits;
    for fails in [Fails::Appending, Fails::Offering, Fails::Gathering] {
        let session = Session::new(Some(16), fails);
        let logits = pass(tiny_cfg(), &session, &[3, 9], &[0, 1], 0).unwrap().logits;
        assert_eq!(session.asked.get(), 1);
        assert_eq!(logits, expected);
    }
}

#[test]
fn a_session_may_refuse_keys_and_values() {
    let session = Session::new(None, Fails::Keeping);
    let out = pass(tiny_cfg(), &session, &[3, 9], &[0, 1], 0);
    assert!(matches!(out, Err(Error::SessionRefused { layer: 0 })));
    assert_eq!(session.kept.borrow().len(), 1);
}

#[test]
fn a_paged_step_sees_the_pages_before_it() {
    let block = tiny_block();
    let both = project(&block, &[3, 9], &[0, 1]);
    let whole = block
        .prefilled_self_attention(&single(), &both.q, &both.k, &both.v, &[2, 16])
        .unwrap();
    let step = block
        .paged_self_attention(&single(), &both.q[16..], &both.k, &both.v, &[1, 16], &[1])
        .unwrap();
    for (a, b) in whole[16..].iter().zip(&step) {
        assert!((a - b).abs() < 1e-6);
    }
}

#[test]
fn rows_and_positions_are_laid_out() {
    assert_eq!(repeat_positions(&[5, 6], 2, 3), vec![5, 5, 5, 6, 6, 6]);
    assert_eq!(pad_rows(&[1, 2, 3, 4], 2, 2, 3, 0), vec![1, 2, 0, 3, 4, 0]);
    assert_eq!(flatten_dims(&[2, 3, 4]), vec![6, 4]);
    assert_eq!(flatten_dims(&[6, 4]), vec![6, 4]);
}

#[test]
fn scales_run_only_where_they_are_set() {
    let logits = |cfg: MiniCpmConfig| {
        let session = Session::new(None, Fails::Nowhere);
        pass(cfg, &session, &[1], &[0], 0).unwrap().logits
    };
    let plain = logits(tiny_cfg());
    let halved = logits(MiniCpmConfig { dim_model_base: Some(setting(8.0)), ..tiny_cfg() });
    for (a, b) in plain.iter().zip(&halved) {
        assert_eq!(a * 0.5, *b);
    }
    // A quotient that hardly departs from one changes nothing.
    let close = setting(16.0 * (1.0 + 5e-6));
    assert_eq!(logits(MiniCpmConfig { dim_model_base: Some(close), ..tiny_cfg() }), plain);
    let further = setting(16.0 * (1.0 + 5e-5));
    assert_ne!(logits(MiniCpmConfig { dim_model_base: Some(further), ..tiny_cfg() }), plain);
    let grown = logits(MiniCpmConfig { scale_emb: Some(setting(12.0)), ..tiny_cfg() });
    assert!(largest_gap(&grown, &plain) > 1e-5);
    let ones = logits(MiniCpmConfig { scale_emb: Some(setting(1.0)), ..tiny_cfg() });
    assert_eq!(ones, plain);
    let scaled: Vec<f32> = table()[HIDDEN..2 * HIDDEN].iter().map(|v| v * 12.0).collect();
    assert_eq!(decoded(scaled, &[0]).logits, grown);
}

fn decoded(hidden: Vec<f32>, positions: &[u32]) -> MiniCpmDecoded<f32> {
    let model = MiniCpmModel { cfg: tiny_cfg() };
    let session = Session::new(None, Fails::Nowhere);
    let outside = PagedSession {
        has_pages: false,
        append: |_: usize, k: Vec<f32>, v: Vec<f32>| session.append(&k, &v),
        handles: |layer: usize| session.handles(layer),
        gather: |b: DeviceBuffer, t: Vec<usize>, p: usize, s: usize, n: usize| {
            session.gather(b, &t, p, s, n)
        },
        keep: (),
    };
    let apply = |op: BlockOp, rows: Vec<f32>| applied(op, rows, positions);
    let tokens = positions.len();
    let block = tiny_block();
    model.decode_paged(&single(), &block, &outside, &vec![apply], &ended, hidden, positions, tokens)
}

#[test]
fn batches_are_read_off_the_dimensions() {
    assert_eq!(read_batch(&[2, 5, 8]).map(|b| (b.sequences, b.tokens)), Some((2, 5)));
    assert_eq!(read_batch(&[5, 8]).map(|b| (b.sequences, b.tokens)), Some((1, 5)));
    assert_eq!(read_batch(&[8]), None);
}

#[test]
fn paged_decoding_runs_the_layers_and_the_head() {
    let rows = embed_tokens(&table(), VOCAB, HIDDEN, &[3, 9]).unwrap();
    let done = decoded(rows.clone(), &[0, 1]);
    let p = project(&tiny_block(), &[3, 9], &[0, 1]);
    assert_eq!(done.pairs.len(), 1);
    assert!(largest_gap(&done.pairs[0].k, &p.k) < 1e-6);
    assert!(largest_gap(&done.pairs[0].v, &p.v) < 1e-6);
    let attended = tiny_block()
        .prefilled_self_attention(&single(), &p.q, &p.k, &p.v, &[2, 16])
        .unwrap();
    let linear = |part: Part, rows: &[f32]| {
        let op = BlockOp::Linear {
            src: Reg::Input,
            part,
            dst: Reg::Output,
            inputs: HIDDEN,
            outputs: HIDDEN,
        };
        applied(op, rows.to_vec(), &[0, 1])
    };
    let sum = |a: &[f32], b: &[f32]| -> Vec<f32> { a.iter().zip(b).map(|(x, y)| x + y).collect() };
    let mixed = sum(&rows, &linear(Part::AttnOut, &attended));
    let fed = rms(&mixed);
    let act: Vec<f32> = linear(Part::Gate, &fed)
        .iter()
        .zip(&linear(Part::Up, &fed))
        .map(|(g, u)| g / (1.0 + (-g).exp()) * u)
        .collect();
    let normed = rms(&sum(&mixed, &linear(Part::Down, &act)));
    assert!(largest_gap(&done.hidden, &normed) < 1e-5);
    assert!(largest_gap(&done.logits, &ended(MiniCpmPart::Head, normed)) < 1e-5);
}
