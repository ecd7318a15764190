//! Expert routing and adapters.

use grim_transformer::device::Device;
use grim_transformer::error::Error;
use grim_transformer::granite_moe_hybrid::GraniteMoeBlock;
use grim_transformer::hyv3::HyV3MoeBlock;
use grim_transformer::kernels::{activate_gated, probabilities, softmax, weigh_experts};
use grim_transformer::block_program::Activation;
use grim_transformer::kimi_k3::KimiK3Moe;
use grim_transformer::lfm2_moe::{
    add_bias, best_expert, forward_moe_ffn, forward_moe_ffn_device, ExpertOp, ExpertStacks,
};
use grim_transformer::lora::{
    after_kernel, apply_adapters_to_logits, check_adapter, plan_adapters, staged_ops,
    transpose_last_two, AdapterShape, AfterKernel, HostAdapter, KernelOutcome, LoraPlan, StagedOp,
};
use grim_transformer::minimax_m3::{ExpertRunner, MiniMaxM3BlockSparseMoe};
use grim_transformer::numeric::Real;
use grim_transformer::routing::{rank_experts, top_k};
use grim_transformer::scalar::{Number, Relation, ScalarOp, Scalars};
use grim_transformer::tensor::f32_tensor;

fn calc(op: ScalarOp, a: f32, b: f32) -> f32 {
    match op {
        ScalarOp::Plus => a + b,
        ScalarOp::Minus => a - b,
        ScalarOp::Times => a * b,
        ScalarOp::Over => a / b,
        ScalarOp::Larger => a.max(b),
        ScalarOp::Smaller => a.min(b),
        ScalarOp::Power => a.powf(b),
        ScalarOp::Negate => -a,
        ScalarOp::Exp => a.exp(),
        ScalarOp::Ln => a.ln(),
        ScalarOp::Root => a.sqrt(),
        ScalarOp::Tanh => a.tanh(),
    }
}

fn single() -> Scalars<
    f32,
    impl Fn(ScalarOp, f32, f32) -> f32,
    impl Fn(Number) -> f32,
    impl Fn(Relation, f32, f32) -> bool,
> {
    Scalars {
        op: calc,
        given: |n: Number| match n {
            Number::Count(c) => c as f32,
            Number::Real(r) => f64::from_bits(r.bits) as f32,
        },
        holds: |r: Relation, a: f32, b: f32| match r {
            Relation::Same => a == b,
            Relation::Above => a > b,
        },
        nothing: 0.0,
    }
}

fn matmul(x: &[f32], w: &[f32], inputs: usize) -> Vec<f32> {
    let outputs = w.len() / inputs;
    let mut out = Vec::new();
    for row in x.chunks(inputs) {
        for o in 0..outputs {
            out.push((0..inputs).map(|i| row[i] * w[o * inputs + i]).sum());
        }
    }
    out
}

fn det_vec(n: usize, seed: u64) -> Vec<f32> {
    let mut s = seed;
    (0..n)
        .map(|_| {
            s = s
                .wrapping_mul(6364136223846793005)
                .wrapping_add(1442695040888963407);
            (((s >> 33) as f32) / (u32::MAX as f32) - 0.5) * 0.4
        })
        .collect()
}

struct SyntheticMoe {
    moe: MiniMaxM3BlockSparseMoe,
    w1: Vec<Vec<f32>>,
    w3: Vec<Vec<f32>>,
    w2: Vec<Vec<f32>>,
    gate: Vec<f32>,
}

fn synthetic_moe(hidden: usize, inter: usize, num_experts: usize, top_k: usize) -> SyntheticMoe {
    let gate = det_vec(num_experts * hidden, 11);
    let (mut w1, mut w3, mut w2) = (Vec::new(), Vec::new(), Vec::new());
    for e in 0..num_experts {
        w1.push(det_vec(inter * hidden, 100 + e as u64 * 3));
        w3.push(det_vec(inter * hidden, 200 + e as u64 * 3));
        w2.push(det_vec(hidden * inter, 300 + e as u64 * 3));
    }
    SyntheticMoe {
        moe: MiniMaxM3BlockSparseMoe {
            num_experts,
            num_experts_per_tok: top_k,
        },
        w1,
        w3,
        w2,
        gate,
    }
}

fn run_moe(m: &SyntheticMoe, x_data: &[f32], seq: usize, hidden: usize, inter: usize) -> Vec<f32> {
    let x = single();
    let y = single();
    let scores = matmul(x_data, &m.gate, hidden);
    let run = |e: usize, row: Vec<f32>| {
        let g = matmul(&row, &m.w1[e], hidden);
        let u = matmul(&row, &m.w3[e], hidden);
        let act = activate_gated(&y, Activation::Silu, &g, &u);
        matmul(&act, &m.w2[e], inter)
    };
    m.moe.forward_moe_host(&x, x_data, &scores, seq, hidden, run)
}

fn renorm_oracle(
    m: &SyntheticMoe,
    x_data: &[f32],
    seq: usize,
    hidden: usize,
    inter: usize,
    num_experts: usize,
    top_k: usize,
) -> Vec<f32> {
    let mut out = vec![0.0f32; seq * hidden];
    for s in 0..seq {
        let xt = &x_data[s * hidden..(s + 1) * hidden];
        let mut logits = vec![0.0f32; num_experts];
        for e in 0..num_experts {
            for c in 0..hidden {
                logits[e] += m.gate[e * hidden + c] * xt[c];
            }
        }
        let mut idx: Vec<usize> = (0..num_experts).collect();
        idx.sort_by(|&a, &b| {
            logits[b]
                .partial_cmp(&logits[a])
                .unwrap_or(std::cmp::Ordering::Equal)
        });
        let k = top_k.min(num_experts);
        let max_l = idx[..k]
            .iter()
            .map(|&e| logits[e])
            .fold(f32::NEG_INFINITY, f32::max);
        let exps: Vec<f32> = idx[..k].iter().map(|&e| (logits[e] - max_l).exp()).collect();
        let sum: f32 = exps.iter().sum();
        for (rank, &e) in idx[..k].iter().enumerate() {
            let w = exps[rank] / (sum + 1e-12);
            let mut act = vec![0.0f32; inter];
            for j in 0..inter {
                let mut g = 0.0f32;
                let mut u = 0.0f32;
                for c in 0..hidden {
                    g += m.w1[e][j * hidden + c] * xt[c];
                    u += m.w3[e][j * hidden + c] * xt[c];
                }
                act[j] = g / (1.0 + (-g).exp()) * u;
            }
            for h in 0..hidden {
                let mut v = 0.0f32;
                for j in 0..inter {
                    v += m.w2[e][h * inter + j] * act[j];
                }
                out[s * hidden + h] += w * v;
            }
        }
    }
    out
}

#[test]
fn minimax_m3_host_matches_renorm_oracle() {
    let (hidden, inter, num_experts, top_k, seq) = (8, 16, 4, 2, 3);
    let m = synthetic_moe(hidden, inter, num_experts, top_k);
    let x_data = det_vec(seq * hidden, 7);
    assert_eq!(m.moe.forward(Device::Cpu), ExpertRunner::Host);
    let got = run_moe(&m, &x_data, seq, hidden, inter);
    let want = renorm_oracle(&m, &x_data, seq, hidden, inter, num_experts, top_k);
    assert_eq!(got.len(), want.len());
    let max_diff = got
        .iter()
        .zip(want.iter())
        .map(|(a, b)| (a - b).abs())
        .fold(0.0f32, f32::max);
    assert!(
        max_diff < 1e-5,
        "minimax_m3 host vs oracle max diff {max_diff:.6} exceeds 1e-5"
    );
    let again = run_moe(&m, &x_data, seq, hidden, inter);
    assert_eq!(got, again, "host forward must be deterministic");
}

#[test]
fn minimax_m3_topk_clamp_edge() {
    let (hidden, inter, num_experts, seq) = (8, 16, 3, 2);
    let m = synthetic_moe(hidden, inter, num_experts, 8);
    let x = det_vec(seq * hidden, 77);
    let out = run_moe(&m, &x, seq, hidden, inter);
    assert_eq!(out.len(), seq * hidden);
    assert!(out.iter().all(|v| v.is_finite()), "clamped output finite");
}

#[test]
fn a_rocm_device_is_offered_the_experts() {
    let moe = MiniMaxM3BlockSparseMoe { num_experts: 4, num_experts_per_tok: 2 };
    assert_eq!(moe.forward(Device::Rocm(0)), ExpertRunner::DeviceFirst);
    assert_eq!(moe.forward(Device::Other), ExpertRunner::Host);
}

#[test]
fn experts_rank_by_score_and_then_by_place() {
    let x = single();
    assert_eq!(rank_experts(&x, &[0.5, 2.0, -1.0, 2.0]), vec![1, 3, 0, 2]);
    assert_eq!(top_k(&x, &[0.5, 2.0, -1.0, 2.0], 2), vec![1, 3]);
    assert_eq!(top_k(&x, &[0.5, 2.0], 9), vec![1, 0]);
    assert_eq!(top_k(&x, &[0.0, -0.0], 1), vec![0]);
}

#[test]
fn weights_are_a_softmax_over_the_chosen() {
    let x = single();
    let w = weigh_experts(&x, &[1.0, 5.0, 2.0], &[1, 2], Some(2.0));
    let e = (2.0f32 - 5.0).exp();
    assert!((w[0] - 2.0 * (1.0 / (1.0 + e))).abs() < 1e-6);
    assert!((w[1] - 2.0 * (e / (1.0 + e))).abs() < 1e-6);
}

#[test]
fn kimi_scales_what_its_experts_give() {
    let moe = KimiK3Moe {
        num_experts: 2,
        num_experts_per_tok: 1,
        routed_scaling_factor: Real { bits: 2.5f64.to_bits() },
    };
    let x = single();
    let run = |e: usize, row: Vec<f32>| row.iter().map(|v| v + e as f32).collect::<Vec<f32>>();
    let out = moe.forward(&x, &[1.0, 2.0, 3.0, 4.0], &[0.0, 1.0, 5.0, 1.0], 2, 2, run);
    assert_eq!(out, vec![2.5 * 2.0, 2.5 * 3.0, 2.5 * 3.0, 2.5 * 4.0]);
}

#[test]
fn routed_experts_stand_beside_a_shared_one() {
    let x = single();
    let moe = GraniteMoeBlock {
        experts: 3,
        gates: 4,
        shared_expert: true,
        num_experts_per_tok: 2,
    };
    let run = |e: usize, row: Vec<f32>| row.iter().map(|v| v * (e as f32 + 1.0)).collect::<Vec<f32>>();
    // The fourth score belongs to no expert that is there.
    let scores = [0.0f32, 3.0, 1.0, 99.0, 2.0, 0.0, 2.0, 99.0];
    let rows = [1.0f32, 2.0, 3.0, 4.0];
    let out = moe.forward(&x, &rows, &scores, 2, 2, Some(vec![10.0, 20.0, 30.0, 40.0]), run);
    let w = 1.0 / (1.0 + (-2.0f32).exp());
    let first = w * 2.0 + (1.0 - w) * 3.0;
    let want = [10.0 + first, 20.0 + 2.0 * first, 30.0 + 3.0 * 2.0, 40.0 + 4.0 * 2.0];
    for (a, b) in out.iter().zip(&want) {
        assert!((a - b).abs() < 1e-4, "{a} vs {b}");
    }
    let alone = moe.forward(&x, &rows, &scores, 2, 2, None, run);
    assert!((alone[0] - first).abs() < 1e-5);
    let hy = HyV3MoeBlock {
        experts: 3,
        gates: 4,
        shared_expert: false,
        num_experts_per_tok: 9,
    };
    let even = hy.forward(&x, &rows[..2], &[0.0, 0.0, 0.0, 5.0], 1, 2, None, run);
    assert!((even[0] - 2.0).abs() < 1e-5 && (even[1] - 4.0).abs() < 1e-5);
    let none = GraniteMoeBlock {
        experts: 0,
        gates: 0,
        shared_expert: false,
        num_experts_per_tok: 2,
    };
    assert_eq!(none.forward(&x, &rows[..2], &[], 1, 2, None, run), vec![0.0, 0.0]);
}

#[test]
fn softmax_rows_add_up_to_one() {
    let x = single();
    let p = probabilities(&x, &[1.0, 2.0, 3.0]);
    assert!((p.iter().sum::<f32>() - 1.0).abs() < 1e-6);
    assert_eq!(p, softmax(&x, &[1.0, 2.0, 3.0], None));
    assert!(p[2] > p[1] && p[1] > p[0]);
}

#[test]
fn each_token_runs_through_its_best_expert() {
    let x = single();
    assert_eq!(best_expert(&x, &[0.25, 0.5, 0.5]), 1);
    assert_eq!(add_bias(&x, &[1.0, 2.0, 3.0, 4.0], &[10.0, 20.0]), vec![11.0, 22.0, 13.0, 24.0]);
    // Two experts, hidden width two, one inner column.
    let stacks = ExpertStacks {
        gate: vec![1.0f32, 0.0, 0.0, 2.0],
        up: vec![0.0f32, 1.0, 3.0, 0.0],
        down: vec![1.0f32, 2.0, 5.0, 7.0],
    };
    let rows = [1.0f32, 2.0, 3.0, 4.0];
    let scores = [9.0f32, 1.0, 0.0, 1.0];
    let out = forward_moe_ffn(&x, &rows, &scores, None, &stacks, 2, 2, 2, 1);
    let silu = |v: f32| v / (1.0 + (-v).exp());
    let p0 = 1.0 / (1.0 + (-8.0f32).exp());
    let a0 = silu(1.0) * 2.0;
    let p1 = 1.0 / (1.0 + (-1.0f32).exp());
    let a1 = silu(8.0) * 9.0;
    let want = [a0 * p0, 2.0 * a0 * p0, 5.0 * a1 * p1, 7.0 * a1 * p1];
    for (a, b) in out.iter().zip(&want) {
        assert!((a - b).abs() < 1e-4, "{a} vs {b}");
    }
    // A bias turns the first token around.
    let turned = forward_moe_ffn(&x, &rows, &scores, Some(&[0.0, 50.0]), &stacks, 2, 2, 2, 1);
    assert!((turned[0] - 5.0 * silu(4.0) * 3.0).abs() < 1e-3);
}

#[test]
fn the_device_copies_the_block_of_the_expert() {
    let ops = forward_moe_ffn_device(1, 2, 3, 4, 5, 6);
    assert_eq!(ops[0], ExpertOp::CopyRow { from: 6, len: 6 });
    assert_eq!(ops[1], ExpertOp::CopyGate { from: 90, len: 30 });
    assert_eq!(ops[11], ExpertOp::StoreRow { at: 6, len: 6 });
    assert_eq!(ops.len(), 12);
}

// Adapters.

fn adapter(r: usize, hidden: usize, vocab: usize) -> HostAdapter<f32> {
    HostAdapter {
        shape: AdapterShape { a: vec![r, hidden], b: vec![vocab, r] },
        a: (0..r * hidden)
            .map(|i| ((i as f32) - (r * hidden) as f32 / 2.0) * 0.01)
            .collect(),
        b: (0..vocab * r)
            .map(|i| ((i as f32) - (vocab * r) as f32 / 2.0) * 0.01)
            .collect(),
        alpha: 1.0,
    }
}

#[test]
fn lora_apply_with_one_adapter_perturbs_logit_distribution() {
    let x = single();
    let logits = f32_tensor((0..32).map(|i| (i as f32 + 1.0) * 0.01).collect(), vec![1, 32]);
    let new_logits =
        apply_adapters_to_logits(&x, &logits, &vec![adapter(4, 32, 32)], 32).unwrap();
    let v = &new_logits.data;
    assert!(
        v.iter().any(|x| *x != 0.0),
        "adapters must perturb the zero baseline"
    );
    assert!(v.iter().zip(&logits.data).any(|(a, b)| a != b));
}

#[test]
fn adapters_add_up_by_hand() {
    let x = single();
    let logits = f32_tensor(vec![1.0f32, 2.0, 3.0, 4.0], vec![1, 2, 2]);
    let one = |alpha: f32| HostAdapter {
        shape: AdapterShape { a: vec![1, 2], b: vec![2, 1] },
        a: vec![1.0f32, 10.0],
        b: vec![0.5f32, 2.0],
        alpha,
    };
    let out = apply_adapters_to_logits(&x, &logits, &vec![one(1.0), one(3.0)], 2).unwrap();
    // The low-rank rows are 21 and 43; both adapters read the untouched rows.
    assert_eq!(out.dims, vec![1, 2, 2]);
    assert_eq!(
        out.data,
        vec![
            1.0 + 4.0 * 0.5 * 21.0,
            2.0 + 4.0 * 2.0 * 21.0,
            3.0 + 4.0 * 0.5 * 43.0,
            4.0 + 4.0 * 2.0 * 43.0
        ]
    );
}

#[test]
fn adapters_apply_in_any_order() {
    let x = single();
    let logits = f32_tensor(vec![1.0f32, 2.0], vec![1, 2]);
    let one = |alpha: f32, b: f32| HostAdapter {
        shape: AdapterShape { a: vec![1, 2], b: vec![2, 1] },
        a: vec![1.0f32, 10.0],
        b: vec![b, 2.0],
        alpha,
    };
    let there = apply_adapters_to_logits(&x, &logits, &vec![one(1.0, 0.5), one(4.0, 8.0)], 2);
    let back = apply_adapters_to_logits(&x, &logits, &vec![one(4.0, 8.0), one(1.0, 0.5)], 2);
    let there = there.unwrap().data;
    assert_eq!(there, back.unwrap().data);
    assert_eq!(there[0], 1.0 + 21.0 * 0.5 + 4.0 * 21.0 * 8.0);
}

#[test]
fn no_adapter_leaves_the_logits() {
    let x = single();
    let logits = f32_tensor(vec![1.0f32, 2.0], vec![1, 2]);
    let out = apply_adapters_to_logits(&x, &logits, &Vec::new(), 7).unwrap();
    assert_eq!((out.data, out.dims), (vec![1.0, 2.0], vec![1, 2]));
    let empty = f32_tensor(Vec::new(), vec![1, 2, 0]);
    let out = apply_adapters_to_logits(&x, &empty, &Vec::new(), 7).unwrap();
    assert_eq!((out.data.len(), out.dims), (0, vec![1, 2, 0]));
    match plan_adapters(&empty, &Vec::new(), 7, Device::Cpu) {
        Ok(LoraPlan::Unchanged) => {}
        _ => panic!("nothing to apply"),
    }
    match plan_adapters(&logits, &Vec::new(), 7, Device::Rocm(0)) {
        Ok(LoraPlan::Unchanged) => {}
        _ => panic!("nothing to apply"),
    }
}

#[test]
fn adapters_that_do_not_fit_are_refused() {
    let shape = |a: Vec<usize>, b: Vec<usize>| AdapterShape { a, b };
    let refused = |s: AdapterShape, hidden: usize, vocab: usize, host: bool| {
        check_adapter(&s, hidden, vocab, host).unwrap_err()
    };
    assert!(matches!(
        refused(shape(vec![4], vec![8, 4]), 8, 8, true),
        Error::LoraDims { matrix: "A", rank: 1 }
    ));
    assert!(matches!(
        refused(shape(vec![4, 6], vec![8, 4]), 8, 8, true),
        Error::LoraInput { in_dim: 6, hidden: 8 }
    ));
    assert!(matches!(
        refused(shape(vec![4, 8], vec![]), 8, 8, true),
        Error::LoraDims { matrix: "B", rank: 0 }
    ));
    assert!(matches!(
        refused(shape(vec![4, 8], vec![9, 4]), 8, 8, true),
        Error::LoraOutput { out_dim: 9, vocab: 8 }
    ));
    assert!(matches!(
        refused(shape(vec![4, 8], vec![9, 4]), 8, 9, true),
        Error::LoraSurrogate { hidden: 8, vocab: 9 }
    ));
    assert_eq!(check_adapter(&shape(vec![4, 8], vec![9, 4]), 8, 9, false).unwrap(), 4);
    let x = single();
    let logits = f32_tensor(vec![0.0f32; 9], vec![1, 9]);
    let bad = vec![adapter(4, 8, 9)];
    assert!(matches!(
        apply_adapters_to_logits(&x, &logits, &bad, 8),
        Err(Error::LoraSurrogate { hidden: 8, vocab: 9 })
    ));
}

#[test]
fn a_device_applies_adapters_one_by_one() {
    let logits = f32_tensor(vec![0.0f32; 12], vec![2, 2, 3]);
    let shapes = vec![AdapterShape { a: vec![4, 8], b: vec![3, 4] }];
    match plan_adapters(&logits, &shapes, 8, Device::Rocm(0)).unwrap() {
        LoraPlan::OnDevice { seq_len, vocab, ranks, reshape } => {
            assert_eq!((seq_len, vocab, ranks, reshape), (4, 3, vec![4], true));
        }
        _ => panic!("on the device"),
    }
    assert_eq!(after_kernel(KernelOutcome::Done), AfterKernel::UseResult);
    assert_eq!(after_kernel(KernelOutcome::Unimplemented), AfterKernel::FallBack);
    assert_eq!(after_kernel(KernelOutcome::Failed), AfterKernel::Fail);
    let ops = staged_ops(4, 2, 3);
    assert_eq!(ops[1], StagedOp::MatmulInput { rows: 4, cols: 2 });
    assert_eq!(ops[3], StagedOp::MatmulRank { rows: 4, cols: 3 });
}

#[test]
fn matrices_are_transposed() {
    let t = transpose_last_two(&f32_tensor(vec![1, 2, 3, 4, 5, 6], vec![2, 3])).unwrap();
    assert_eq!((t.data, t.dims), (vec![1, 4, 2, 5, 3, 6], vec![3, 2]));
    assert!(matches!(
        transpose_last_two(&f32_tensor(vec![1, 2], vec![2])),
        Err(Error::TransposeRank)
    ));
}
