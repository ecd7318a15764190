//! The gated delta recurrence in double precision.

use grim_transformer::gla::{gdn2_chunkwise_forward, gdn2_forward, gdn2_step, gdn_step};
use grim_transformer::gla_backward::gdn2_backward;
use grim_transformer::gla_chunks::chunk_len;
use grim_transformer::gla_features::{
    fm_backward, fm_forward, fm_logit_to_weight_grads, FmWeights,
};
use grim_transformer::gla_sidecar::{
    gdl_gate_defaults, tc_depth_scaled_gates, GraveSidecar, LayerGateProjections,
};
use grim_transformer::gla_train;
use grim_transformer::scalar::{Number, Relation, ScalarOp, Scalars};

fn calc(op: ScalarOp, a: f64, b: f64) -> f64 {
    match op {
        ScalarOp::Plus => a + b,
        ScalarOp::Minus => a - b,
        ScalarOp::Times => a * b,
        ScalarOp::Over => a / b,
        ScalarOp::Larger => a.max(b),
        ScalarOp::Smaller => a.min(b),
        ScalarOp::Power => a.powf(b),
        ScalarOp::Negate => -a,
        ScalarOp::Exp => a.exp(),
        ScalarOp::Ln => a.ln(),
        ScalarOp::Root => a.sqrt(),
        ScalarOp::Tanh => a.tanh(),
    }
}

fn double() -> Scalars<
    f64,
    impl Fn(ScalarOp, f64, f64) -> f64,
    impl Fn(Number) -> f64,
    impl Fn(Relation, f64, f64) -> bool,
> {
    Scalars {
        op: calc,
        given: |n: Number| match n {
            Number::Count(c) => c as f64,
            Number::Real(r) => f64::from_bits(r.bits),
        },
        holds: |r: Relation, a: f64, b: f64| match r {
            Relation::Same => a == b,
            Relation::Above => a > b,
        },
        nothing: 0.0,
    }
}

type Stack = Vec<Vec<Vec<f64>>>;

fn rand_vec(n: usize, seed: u64) -> Vec<f64> {
    let mut s = seed;
    (0..n)
        .map(|_| {
            s = s
                .wrapping_mul(6364136223846793005)
                .wrapping_add(1442695040888963407);
            ((s >> 11) as f64 / (1u64 << 53) as f64) - 0.5
        })
        .collect()
}

#[test]
fn gdn2_degenerates_to_vanilla_gdn() {
    let x = double();
    let (dk, dv, t) = (16usize, 16usize, 32usize);
    let (gamma, beta) = (0.93f64, 0.71f64);
    let mut s_a = vec![vec![0.0f64; dv]; dk];
    let mut s_b = vec![vec![0.0f64; dv]; dk];
    for step in 0..t {
        let q = rand_vec(dk, 100 + step as u64);
        let k = rand_vec(dk, 200 + step as u64);
        let v = rand_vec(dv, 300 + step as u64);
        let alpha = vec![gamma; dk];
        let b = vec![beta; dk];
        let w = vec![beta; dv];
        let o_a = gdn2_step(&x, &mut s_a, &q, &k, &v, &alpha, &b, &w);
        let o_b = gdn_step(&x, &mut s_b, &q, &k, &v, gamma, beta);
        for (a, b) in o_a.iter().zip(&o_b) {
            assert!((a - b).abs() < 1e-12, "output divergence at step {step}");
        }
    }
    for (ra, rb) in s_a.iter().zip(&s_b) {
        for (a, b) in ra.iter().zip(rb) {
            assert!((a - b).abs() < 1e-12, "state divergence");
        }
    }
}

#[test]
fn delta_rule_overwrites_conflicting_association() {
    let x = double();
    let (dk, dv) = (8usize, 8usize);
    let mut state = vec![vec![0.0f64; dv]; dk];
    let mut k = rand_vec(dk, 11);
    let norm: f64 = k.iter().map(|x| x * x).sum::<f64>().sqrt();
    for x in k.iter_mut() {
        *x /= norm;
    }
    let v1 = vec![1.0f64; dv];
    let v2 = vec![-1.0f64; dv];
    let ones = vec![1.0f64; dk];
    let q = k.clone();
    let _o1 = gdn2_step(&x, &mut state, &q, &k, &v1, &ones, &ones, &ones);
    let o2 = gdn2_step(&x, &mut state, &q, &k, &v2, &ones, &ones, &ones);
    let o3 = gdn2_step(&x, &mut state, &q, &k, &v2, &ones, &ones, &ones);
    for (b, c) in o2.iter().zip(&o3) {
        assert!((b - v2[0]).abs() < 1e-9, "t2 must write v2, got {b}");
        assert!((c - v2[0]).abs() < 1e-9, "t3 must read v2, got {c}");
    }
}

#[test]
fn decay_fades_old_associations() {
    let x = double();
    let (dk, dv) = (8usize, 8usize);
    let mut state = vec![vec![0.0f64; dv]; dk];
    let k = rand_vec(dk, 21);
    let v1 = vec![1.0f64; dv];
    let ones = vec![1.0f64; dk];
    let zeros_v = vec![0.0f64; dv];
    let alpha = vec![0.5f64; dk];
    let q = k.clone();
    let _ = gdn2_step(&x, &mut state, &q, &k, &v1, &ones, &ones, &ones);
    let mut reads = Vec::new();
    for _ in 0..6 {
        let o = gdn2_step(&x, &mut state, &q, &k, &zeros_v, &alpha, &ones, &ones);
        let mag: f64 = o.iter().map(|x| x.abs()).sum();
        reads.push(mag);
    }
    for w in reads.windows(2) {
        assert!(w[1] <= w[0] + 1e-12, "read magnitude must not grow: {reads:?}");
    }
    assert!(reads[reads.len() - 1] < reads[0], "must fade: {reads:?}");
}

#[test]
fn zero_erase_gate_leaves_orthogonal_rows_untouched() {
    let x = double();
    let (dk, dv) = (8usize, 8usize);
    let mut k = vec![0.0f64; dk];
    k[0] = 1.0;
    let mut state = vec![vec![0.7f64; dv]; dk];
    let before = state.clone();
    let q = vec![0.0f64; dk];
    let v = rand_vec(dv, 32);
    let alpha = vec![1.0f64; dk];
    let b = vec![0.0f64; dk];
    let w = vec![1.0f64; dv];
    let _ = gdn2_step(&x, &mut state, &q, &k, &v, &alpha, &b, &w);
    for (i, (row, row_before)) in state.iter().zip(&before).enumerate() {
        if i == 0 {
            continue;
        }
        for (a, b) in row.iter().zip(row_before) {
            assert!((a - b).abs() < 1e-12, "row {i} must be untouched");
        }
    }
}

#[test]
fn gla_chunkwise_matches_token_serial_oracle() {
    let x = double();
    let (heads, dk, dv) = (2usize, 8usize, 8usize);
    let test_lengths = [1usize, 3usize, 64usize, 129usize];
    let chunk_sizes = [16usize, 64usize];

    for &t in &test_lengths {
        let mut q = vec![vec![vec![0.0f64; dk]; t]; heads];
        let mut k = vec![vec![vec![0.0f64; dk]; t]; heads];
        let mut v = vec![vec![vec![0.0f64; dv]; t]; heads];
        let mut alpha = vec![vec![vec![0.0f64; dk]; t]; heads];
        let mut b = vec![vec![vec![0.0f64; dk]; t]; heads];
        let mut w = vec![vec![vec![0.0f64; dv]; t]; heads];

        for h in 0..heads {
            for step in 0..t {
                let seed = ((h * 1000 + step) as u64).wrapping_mul(1234567);
                q[h][step] = rand_vec(dk, seed + 1);
                let mut k_row = rand_vec(dk, seed + 2);
                let norm: f64 = k_row.iter().map(|x| x * x).sum::<f64>().sqrt();
                for x in k_row.iter_mut() {
                    *x /= norm.max(1e-12);
                }
                k[h][step] = k_row;
                v[h][step] = rand_vec(dv, seed + 3);
                alpha[h][step] = rand_vec(dk, seed + 4)
                    .into_iter()
                    .map(|x| 0.85 + 0.14 * x)
                    .collect();
                b[h][step] = rand_vec(dk, seed + 5)
                    .into_iter()
                    .map(|x| 0.5 + 0.4 * x)
                    .collect();
                w[h][step] = rand_vec(dv, seed + 6)
                    .into_iter()
                    .map(|x| 0.5 + 0.4 * x)
                    .collect();
            }
        }

        let o_serial = gdn2_forward(&x, &q, &k, &v, &alpha, &b, &w, heads, dk, dv);

        for &chunk_size in &chunk_sizes {
            let o_chunk = gdn2_chunkwise_forward(
                &x, &q, &k, &v, &alpha, &b, &w, heads, dk, dv, chunk_size,
            );
            for h in 0..heads {
                for step in 0..t {
                    for j in 0..dv {
                        let diff = (o_serial[h][step][j] - o_chunk[h][step][j]).abs();
                        assert!(
                            diff < 1e-11,
                            "T={t}, chunk={chunk_size}, head={h}, step={step}, j={j}: divergence {diff} >= 1e-11"
                        );
                    }
                }
            }
        }
    }
}

#[test]
fn fm_logit_grads_match_finite_differences() {
    let x64 = double();
    let (hidden, heads, kv_heads, dk, dv) = (8usize, 2usize, 2usize, 4usize, 4usize);
    let t_len = 3usize;
    let rand = |n: usize, seed: u64| -> Vec<f64> {
        let mut s = seed;
        (0..n)
            .map(|_| {
                s = s
                    .wrapping_mul(6364136223846793005)
                    .wrapping_add(1442695040888963407);
                ((s >> 33) as f64 / (u32::MAX as f64)) - 0.5
            })
            .collect()
    };
    let mat = |rows: usize, cols: usize, seed: u64| -> Vec<Vec<f64>> {
        rand(rows * cols, seed)
            .chunks(cols)
            .map(|c| c.to_vec())
            .collect()
    };
    let w = FmWeights {
        wq: mat(hidden, hidden, 1),
        wk: mat(hidden, hidden, 2),
        wv: mat(hidden, hidden, 3),
        wo: mat(hidden, heads * dv, 4),
    };
    let x: Vec<Vec<f64>> = rand(t_len * hidden, 5)
        .chunks(hidden)
        .map(|c| c.to_vec())
        .collect();
    let y: Vec<Vec<f64>> = rand(t_len * hidden, 6)
        .chunks(hidden)
        .map(|c| c.to_vec())
        .collect();
    let zb: Vec<Vec<f64>> = rand(t_len * dk, 7).chunks(dk).map(|c| c.to_vec()).collect();
    let zw: Vec<Vec<f64>> = rand(t_len * dv, 8).chunks(dv).map(|c| c.to_vec()).collect();
    let zf: Vec<Vec<f64>> = rand(t_len * dk, 9).chunks(dk).map(|c| c.to_vec()).collect();
    let loss = |zb: &[Vec<f64>], zw: &[Vec<f64>], zf: &[Vec<f64>]| -> f64 {
        let c = fm_forward(&x64, &x, &w, heads, kv_heads, dk, dv, zb, zw, zf);
        c.out
            .iter()
            .zip(y.iter())
            .map(|(a, b)| a.iter().zip(b).map(|(p, q)| (p - q) * (p - q)).sum::<f64>())
            .sum()
    };
    let cache = fm_forward(&x64, &x, &w, heads, kv_heads, dk, dv, &zb, &zw, &zf);
    let g = fm_backward(&x64, &cache, &y, &w.wo, heads, dk, dv);
    let eps = 1e-6f64;
    for (which, table, grad) in [(0u8, &zb, &g.dzb), (1, &zw, &g.dzw), (2, &zf, &g.dzf)] {
        for (t, i) in [(0usize, 0usize), (1usize, 2usize), (2usize, 3usize)] {
            let mut up = table.to_vec();
            up[t][i] += eps;
            let mut dn = table.to_vec();
            dn[t][i] -= eps;
            let fd = match which {
                0 => (loss(&up, &zw, &zf) - loss(&dn, &zw, &zf)) / (2.0 * eps),
                1 => (loss(&zb, &up, &zf) - loss(&zb, &dn, &zf)) / (2.0 * eps),
                _ => (loss(&zb, &zw, &up) - loss(&zb, &zw, &dn)) / (2.0 * eps),
            };
            let an = grad[t][i];
            assert!(
                (fd - an).abs() < 1e-6,
                "t{t} i{i}: fd {fd} vs analytic {an}"
            );
        }
    }
}

#[test]
fn values_may_be_wider_than_keys() {
    let x = double();
    let w = FmWeights {
        wq: vec![vec![1.0f64]],
        wk: vec![vec![1.0]],
        wv: vec![vec![2.0], vec![3.0]],
        wo: vec![vec![1.0, 0.0], vec![0.0, 1.0]],
    };
    let z = [vec![0.0f64]];
    let c = fm_forward(&x, &[vec![1.0]], &w, 1, 1, 1, 2, &z, &[vec![0.0, 0.0]], &z);
    assert_eq!(c.v, vec![vec![vec![2.0, 3.0]]]);
    assert_eq!(c.o, vec![vec![vec![1.0, 1.5]]]);
    assert_eq!(c.out, vec![vec![1.0, 1.5]]);
}

fn rand_block(
    seed: &mut u64,
    heads: usize,
    t: usize,
    dk: usize,
    dv: usize,
) -> (Stack, Stack, Stack, Stack, Stack, Stack) {
    let mut next = || {
        *seed = seed
            .wrapping_mul(6364136223846793005)
            .wrapping_add(1442695040888963407);
        ((*seed >> 33) as f64) / (u32::MAX as f64) - 0.5
    };
    let mut mk = |d: usize, f: &dyn Fn(f64) -> f64| -> Stack {
        (0..heads)
            .map(|_| {
                (0..t)
                    .map(|_| (0..d).map(|_| f(next())).collect())
                    .collect()
            })
            .collect()
    };
    let q = mk(dk, &|x| x);
    let k = mk(dk, &|x| x);
    let v = mk(dv, &|x| x);
    let alpha = mk(dk, &|x| 0.9 + 0.099 * (x + 0.5) * 2.0);
    let b = mk(dk, &|x| 1.0 / (1.0 + (-x * 4.0).exp()));
    let w = mk(dv, &|x| 1.0 / (1.0 + (-x * 4.0).exp()));
    (q, k, v, alpha, b, w)
}

fn max_delta(a: &[Vec<Vec<f64>>], b: &[Vec<Vec<f64>>]) -> f64 {
    a.iter()
        .zip(b.iter())
        .flat_map(|(ha, hb)| {
            ha.iter()
                .zip(hb.iter())
                .flat_map(|(sa, sb)| sa.iter().zip(sb.iter()).map(|(x, y)| (x - y).abs()))
        })
        .fold(0.0f64, f64::max)
}

#[test]
fn gla_train_chunkwise_matches_token_serial_oracle() {
    let x = double();
    for &t in &[1usize, 3, 64, 129] {
        for &chunk in &[16usize, 64] {
            let mut seed = 0x9E3779B97F4A7C15u64 ^ (t as u64) ^ ((chunk as u64) << 32);
            let (q, k, v, alpha, b, w) = rand_block(&mut seed, 2, t, 8, 8);
            let serial = gdn2_forward(&x, &q, &k, &v, &alpha, &b, &w, 2, 8, 8);
            let chunked = gla_train::gdn2_chunkwise_forward(
                &x, &q, &k, &v, &alpha, &b, &w, 2, 8, 8, chunk,
            );
            let d = max_delta(&serial, &chunked);
            assert!(
                d <= 1e-8,
                "T={t} chunk={chunk}: chunkwise vs serial Δ={d:.3e} > 1e-8"
            );
        }
    }
}

#[test]
fn backward_matches_finite_differences() {
    let x = double();
    let (q0, k0, v0, alpha0, b0, w0) = rand_block(&mut 42u64, 1, 4, 3, 3);
    let do_ = vec![vec![vec![1.0f64; 3]; 4]];
    let g = gdn2_backward(&x, &q0, &k0, &v0, &alpha0, &b0, &w0, &do_, 1, 3, 3);
    let mut inputs = vec![q0, k0, alpha0, b0, v0, w0];
    let loss = |i: &[Stack]| -> f64 {
        gla_train::gdn2_chunkwise_forward(
            &x, &i[0], &i[1], &i[4], &i[2], &i[3], &i[5], 1, 3, 3, 16,
        )
        .iter()
        .flat_map(|h| h.iter().flat_map(|s| s.iter().copied()))
        .sum()
    };
    let eps = 1e-6;
    let mut worst = 0.0f64;
    let mut cells: Vec<(usize, usize, usize, f64)> = Vec::new();
    for s in 0..4 {
        for i in 0..3 {
            cells.push((0, s, i, g.dq[0][s][i]));
            cells.push((1, s, i, g.dk[0][s][i]));
            cells.push((2, s, i, g.dalpha[0][s][i]));
            cells.push((3, s, i, g.db[0][s][i]));
        }
        for j in 0..3 {
            cells.push((4, s, j, g.dv[0][s][j]));
            cells.push((5, s, j, g.dw[0][s][j]));
        }
    }
    for (kind, s, idx, analytic) in cells {
        let base = inputs[kind][0][s][idx];
        inputs[kind][0][s][idx] = base + eps;
        let up = loss(&inputs);
        inputs[kind][0][s][idx] = base - eps;
        let dn = loss(&inputs);
        inputs[kind][0][s][idx] = base;
        worst = worst.max((((up - dn) / (2.0 * eps)) - analytic).abs());
    }
    assert!(
        worst <= 1e-4,
        "backward vs finite-diff worst Δ={worst:.3e} > 1e-4"
    );
}

#[test]
fn f32_fast_path_matches_f64() {
    let x = double();
    let mut seed = 7u64;
    let (q, k, v, alpha, b, w) = rand_block(&mut seed, 2, 33, 8, 8);
    let to32 = |x: &[Vec<Vec<f64>>]| -> Vec<Vec<Vec<f32>>> {
        x.iter()
            .map(|h| {
                h.iter()
                    .map(|s| s.iter().map(|&x| x as f32).collect::<Vec<f32>>())
                    .collect::<Vec<Vec<f32>>>()
            })
            .collect::<Vec<Vec<Vec<f32>>>>()
    };
    let o32 = gla_train::gdn2_chunkwise_forward_f32(
        &x,
        &to32(&q),
        &to32(&k),
        &to32(&v),
        &to32(&alpha),
        &to32(&b),
        &to32(&w),
        2,
        8,
        8,
        16,
        |a: f32| a as f64,
        |a: f64| a as f32,
    );
    let o64 = gla_train::gdn2_chunkwise_forward(&x, &q, &k, &v, &alpha, &b, &w, 2, 8, 8, 16);
    let d = max_delta(
        &o64,
        &o32.iter()
            .map(|h| {
                h.iter()
                    .map(|s| s.iter().map(|&x| x as f64).collect())
                    .collect()
            })
            .collect::<Vec<Vec<Vec<f64>>>>(),
    );
    assert!(d <= 1e-5, "f32 vs f64 Δ={d:.3e} > 1e-5");
}

#[test]
fn one_step_by_hand() {
    let x = double();
    let mut state = vec![vec![2.0, 4.0]];
    let o = gdn2_step(
        &x,
        &mut state,
        &[3.0],
        &[2.0],
        &[1.0, 5.0],
        &[0.5],
        &[0.25],
        &[1.0, 0.5],
    );
    // The state decays to 1 and 2; the key reads 0.5 and 1; the values are off
    // by 0.5 and 1.5, written along the key of 2.
    assert_eq!(state, vec![vec![2.0, 5.0]]);
    assert_eq!(o, vec![6.0, 15.0]);
}

#[test]
fn long_chunks_are_split() {
    assert_eq!(chunk_len(0), 1);
    assert_eq!(chunk_len(1), 1);
    assert_eq!(chunk_len(129), 129);
    assert_eq!(chunk_len(2048), gla_train::MAX_WY_CHUNK);
    let x = double();
    let mut seed = 3u64;
    let (q, k, v, alpha, b, w) = rand_block(&mut seed, 1, 200, 2, 2);
    let whole = gla_train::gdn2_chunkwise_forward(&x, &q, &k, &v, &alpha, &b, &w, 1, 2, 2, 2048);
    let parts = gla_train::gdn2_chunkwise_forward(&x, &q, &k, &v, &alpha, &b, &w, 1, 2, 2, 129);
    assert_eq!(whole, parts);
    assert_eq!(whole[0].len(), 200);
}

#[test]
fn nothing_in_nothing_out() {
    let x = double();
    let none: Stack = vec![vec![]];
    let out = gdn2_chunkwise_forward(&x, &none, &none, &none, &none, &none, &none, 1, 2, 2, 16);
    assert_eq!(out, none);
    let mut state = vec![vec![1.0]];
    let rows: Vec<Vec<f64>> = vec![];
    let chunk = grim_transformer::gla::gdn2_chunkwise_step(
        &x, &mut state, &rows, &rows, &rows, &rows, &rows, &rows,
    );
    assert!(chunk.is_empty());
    assert_eq!(state, vec![vec![1.0]]);
}

#[test]
fn weight_slopes_are_sums_over_tokens() {
    let x = double();
    let dz = vec![vec![1.0, 2.0], vec![3.0, 4.0]];
    let rows = vec![vec![5.0, 6.0, 7.0], vec![1.0, 0.0, -1.0]];
    let (dw, dbeta) = fm_logit_to_weight_grads(&x, &dz, &rows);
    assert_eq!(dw, vec![vec![8.0, 6.0, 4.0], vec![14.0, 12.0, 10.0]]);
    assert_eq!(dbeta, vec![4.0, 6.0]);
}

#[test]
fn neutral_gates() {
    let x = double();
    let g = gdl_gate_defaults(&x, 64);
    assert!((g[0] - 2.0f64.powf(-1.0 / 64.0)).abs() < 1e-15);
    assert_eq!(g[1], 0.5);
    assert_eq!(g[2], 0.5);
    assert_eq!(gdl_gate_defaults(&x, 0)[0], gdl_gate_defaults(&x, 1)[0]);
}

#[test]
fn deeper_layers_remember_longer() {
    let x = double();
    let g = tc_depth_scaled_gates(&x, 16, &[1, 4, 9], 64);
    assert_eq!(g.len(), 3);
    assert_eq!(g[0][0], 0.5f64.powf(1.0 / 8.0));
    assert_eq!(g[2][0], 0.5f64.powf(1.0 / 64.0));
    assert!(g[0][0] < g[1][0] && g[1][0] < g[2][0]);
    assert!(g.iter().all(|t| t[1] == 0.5 && t[2] == 0.5));
    assert_eq!(tc_depth_scaled_gates(&x, 16, &[7], 64)[0][0], g[0][0]);
    assert!(tc_depth_scaled_gates(&x, 16, &[], 64).is_empty());
    let all: Vec<usize> = (0..16).collect();
    let g = tc_depth_scaled_gates(&x, 16, &all, 64);
    assert_eq!(g[0], [0.5f64.powf(1.0 / 8.0), 0.5, 0.5]);
    assert_eq!(g[15], [0.5f64.powf(1.0 / 64.0), 0.5, 0.5]);
    assert!(g.windows(2).all(|w| w[0][0] < w[1][0]));
}

fn projections() -> LayerGateProjections<f32> {
    LayerGateProjections {
        b_weight: vec![vec![0.25; 8]; 4],
        b_bias: vec![-1.5; 4],
        w_weight: vec![vec![0.5; 8]; 4],
        w_bias: vec![0.75; 4],
        f_weight: vec![vec![0.125; 8]; 4],
        f_bias: vec![4.25; 4],
    }
}

#[test]
fn sidecar_with_projections_claims_the_second_format() {
    let sc: GraveSidecar<f64, f32> = GraveSidecar::new(2, 1, 4, &[[0.9, 0.5, 0.6]; 2]);
    assert_eq!(sc.format, "grave-1");
    assert_eq!(sc.arch, "lfm2grave");
    assert_eq!((sc.layers, sc.heads, sc.head_dim), (2, 1, 4));
    assert_eq!(sc.layer_gates, vec![[0.9, 0.5, 0.6]; 2]);
    let plain = sc.clone().to_save();
    assert_eq!(plain.format, "grave-1");
    assert!(plain.layer_projections.is_none());
    let mut trained = sc;
    trained.layer_projections = Some(vec![projections(), projections()]);
    let saved = trained.to_save();
    assert_eq!(saved.format, "grave-2");
    let lps = saved.layer_projections.expect("projections must survive");
    assert_eq!(lps.len(), 2);
    assert_eq!(lps[0].b_bias[0], -1.5);
    assert_eq!(lps[1].f_weight[3][7], 0.125);
}

#[test]
fn sidecar_of_another_format_keeps_it() {
    let mut sc: GraveSidecar<f64, f32> = GraveSidecar::new(0, 1, 4, &[]);
    sc.format = "grave-3".to_string();
    sc.layer_projections = Some(vec![projections()]);
    assert_eq!(sc.to_save().format, "grave-3");
}

#[test]
fn an_unwritten_read_is_scaled() {
    let x = double();
    let (dk, dv) = (3usize, 2usize);
    let k = vec![0.5f64, -0.25, 1.0];
    let mut state = vec![vec![1.0, 2.0], vec![-4.0, 0.5], vec![0.25, 8.0]];
    let read = |s: &Vec<Vec<f64>>, j: usize| (0..dk).map(|i| k[i] * s[i][j]).sum::<f64>();
    let before = [read(&state, 0), read(&state, 1)];
    let (gamma, beta) = (0.5f64, 0.75f64);
    let o = gdn2_step(
        &x,
        &mut state,
        &k,
        &k,
        &vec![0.0; dv],
        &vec![gamma; dk],
        &vec![beta; dk],
        &vec![beta; dv],
    );
    let length: f64 = k.iter().map(|v| v * v).sum();
    let factor = gamma * (1.0 - beta * length);
    for j in 0..dv {
        assert!((o[j] - factor * before[j]).abs() < 1e-12);
    }
}

#[test]
fn slopes_in_a_projection_weigh_its_changes() {
    let x = double();
    let dz = vec![vec![1.0, -2.0], vec![0.5, 4.0]];
    let rows = vec![vec![5.0, 6.0, 7.0], vec![1.0, 0.0, -1.0]];
    let (dw, dbeta) = fm_logit_to_weight_grads(&x, &dz, &rows);
    let w_turn = [[0.1, 0.2, -0.3], [1.0, -1.0, 2.0]];
    let beta_turn = [0.7, -0.9];
    let mut by_logit = 0.0;
    for t in 0..2 {
        for i in 0..2 {
            let turn: f64 = (0..3).map(|j| w_turn[i][j] * rows[t][j]).sum::<f64>() + beta_turn[i];
            by_logit += dz[t][i] * turn;
        }
    }
    let mut by_weight = 0.0;
    for i in 0..2 {
        by_weight += dbeta[i] * beta_turn[i];
        by_weight += (0..3).map(|j| dw[i][j] * w_turn[i][j]).sum::<f64>();
    }
    assert!((by_logit - by_weight).abs() < 1e-12);
}

#[test]
fn writing_again_changes_nothing() {
    let x = double();
    let mut state = vec![vec![5.0, -3.0], vec![2.0, 7.0]];
    let (k, v, ones) = ([0.0, 1.0], [4.0, 0.5], [1.0, 1.0]);
    gdn2_step(&x, &mut state, &k, &k, &v, &ones, &ones, &ones);
    assert_eq!(state, vec![vec![5.0, -3.0], vec![4.0, 0.5]]);
    let once = state.clone();
    let o = gdn2_step(&x, &mut state, &k, &k, &v, &ones, &ones, &ones);
    assert_eq!(state, once);
    assert_eq!(o, vec![4.0, 0.5]);
}
