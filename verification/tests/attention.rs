//! Histories, causal attention and latent attention.

use grim_transformer::block_program::AttentionDesign;
use grim_transformer::cached_attention::{attend_history, ensure_layers};
use grim_transformer::device::{cpu, Device};
use grim_transformer::error::Error;
use grim_transformer::head_map::{grouped_table, spread_table};
use grim_transformer::kernels::{attend_head, attend_in_parts, attend_rows};
use grim_transformer::kimi_k3::{KimiK3Mla, MlaCache};
use grim_transformer::kimi_run::MlaPart;
use grim_transformer::kv_attention::{append_and_get, causal_attention, RefKvCache};
use grim_transformer::scalar::{Number, Relation, ScalarOp, Scalars};
use grim_transformer::surroundings::Surroundings;
use grim_transformer::tensor::{as_2d, as_3d, f32_tensor};

fn calc(op: ScalarOp, a: f32, b: f32) -> f32 {
    match op {
        ScalarOp::Plus => a + b,
        ScalarOp::Minus => a - b,
        ScalarOp::Times => a * b,
        ScalarOp::Over => a / b,
        ScalarOp::Larger => a.max(b),
        ScalarOp::Smaller => a.min(b),
        ScalarOp::Power => a.powf(b),
        ScalarOp::Negate => -a,
        ScalarOp::Exp => a.exp(),
        ScalarOp::Ln => a.ln(),
        ScalarOp::Root => a.sqrt(),
        ScalarOp::Tanh => a.tanh(),
    }
}

fn single() -> Scalars<
    f32,
    impl Fn(ScalarOp, f32, f32) -> f32,
    impl Fn(Number) -> f32,
    impl Fn(Relation, f32, f32) -> bool,
> {
    Scalars {
        op: calc,
        given: |n: Number| match n {
            Number::Count(c) => c as f32,
            Number::Real(r) => f64::from_bits(r.bits) as f32,
        },
        holds: |r: Relation, a: f32, b: f32| match r {
            Relation::Same => a == b,
            Relation::Above => a > b,
        },
        nothing: 0.0,
    }
}

fn matmul(x: &[f32], w: &[f32], inputs: usize) -> Vec<f32> {
    let outputs = w.len() / inputs;
    let mut out = Vec::new();
    for row in x.chunks(inputs) {
        for o in 0..outputs {
            out.push((0..inputs).map(|i| row[i] * w[o * inputs + i]).sum());
        }
    }
    out
}

#[test]
fn append_and_get_rejects_malformed_inputs() {
    let mut cache = RefKvCache::new();
    let k_bad = f32_tensor(vec![1.0f32, 2.0], vec![2]);
    let res = append_and_get(&mut cache, &k_bad, &[1.0, 2.0]);
    assert!(res.is_err(), "rank-1 k_new must error");

    let k_ok = f32_tensor(vec![1.0f32, 2.0], vec![1, 2]);
    let res = append_and_get(&mut cache, &k_ok, &[1.0]);
    assert!(res.is_err(), "v/k length mismatch must error");

    let total = append_and_get(
        &mut cache,
        &f32_tensor(vec![3.0f32, 4.0], vec![1, 2]),
        &[3.0, 4.0],
    )
    .unwrap();
    assert_eq!(total, 1);
    assert_eq!(cache.past_len, 1);
}

#[test]
fn refused_rows_say_why() {
    let mut cache = RefKvCache::new();
    let k = f32_tensor(vec![1.0f32, 2.0], vec![2]);
    match append_and_get(&mut cache, &k, &[1.0, 2.0]) {
        Err(Error::KeyRank { dims }) => assert_eq!(dims, vec![2]),
        _ => panic!("rank one"),
    }
    let k = f32_tensor(vec![1.0f32, 2.0], vec![1, 2]);
    match append_and_get(&mut cache, &k, &[1.0]) {
        Err(Error::ValueLength { values, keys }) => assert_eq!((values, keys), (1, 2)),
        _ => panic!("one value for two keys"),
    }
    assert_eq!(cache.past_len, 0);
    assert!(cache.k.is_empty() && cache.v.is_empty());
}

#[test]
fn two_appends_are_one() {
    let mut twice = RefKvCache::new();
    append_and_get(&mut twice, &f32_tensor(vec![1.0f32, 2.0], vec![1, 2]), &[5.0, 6.0]).unwrap();
    append_and_get(&mut twice, &f32_tensor(vec![3.0f32, 4.0], vec![1, 2]), &[7.0, 8.0]).unwrap();
    let mut once = RefKvCache::new();
    let total = append_and_get(
        &mut once,
        &f32_tensor(vec![1.0f32, 2.0, 3.0, 4.0], vec![2, 2]),
        &[5.0, 6.0, 7.0, 8.0],
    )
    .unwrap();
    assert_eq!(total, 2);
    assert_eq!((twice.k, twice.v, twice.past_len), (once.k, once.v, once.past_len));
}

#[test]
fn one_head_by_hand() {
    let x = single();
    // Two keys of width two, and their values.
    let out = attend_head(&x, None, &[1.0, 0.0], &[1.0, 0.0, 3.0, 5.0], &[10.0, 1.0, 20.0, 2.0], 2);
    let scale = 1.0 / 2f32.sqrt();
    let (a, b) = ((1.0 * scale - 3.0 * scale).exp(), 1.0f32);
    let (wa, wb) = (a / (a + b), b / (a + b));
    assert!((out[0] - (wa * 10.0 + wb * 20.0)).abs() < 1e-5);
    assert!((out[1] - (wa * 1.0 + wb * 2.0)).abs() < 1e-6);
}

#[test]
fn two_parts_of_a_query_add_up() {
    let x = single();
    let whole = attend_head(
        &x,
        None,
        &[0.5, -1.0, 2.0],
        &[1.0, 2.0, 3.0, -1.0, 0.5, 0.25],
        &[4.0, 5.0, 6.0, 7.0, 8.0, 9.0],
        2,
    );
    let parts = attend_in_parts(
        &x,
        &[0.5, -1.0],
        &[2.0],
        &[1.0, 2.0, -1.0, 0.5],
        &[3.0, 0.25],
        &[4.0, 5.0, 6.0, 7.0, 8.0, 9.0],
        3,
        2,
    );
    for (a, b) in whole.iter().zip(&parts) {
        assert!((a - b).abs() < 1e-5);
    }
}

#[test]
fn a_token_sees_itself_and_what_came_before() {
    let x = single();
    let a = AttentionDesign {
        heads: 1,
        kv_heads: 1,
        head_dim: 1,
        cached: true,
        window: None,
        softcap: None,
    };
    // Equal keys: every visible value counts alike.
    let out = attend_history(&x, a, &[1.0, 1.0], &[0.0, 0.0, 0.0], &[3.0, 6.0, 9.0], 2, 1);
    assert!((out[0] - 4.5).abs() < 1e-6);
    assert!((out[1] - 6.0).abs() < 1e-6);
}

#[test]
fn columns_behind_the_heads_stay_zero() {
    let x = single();
    let out = causal_attention(
        &x,
        None,
        &[1.0, 7.0, 1.0, 7.0],
        &[0.5, 0.5],
        &[2.0, 4.0],
        2,
        2,
        0,
        1,
        1,
        2,
        1,
        &[0],
    );
    assert_eq!(out[1], 0.0);
    assert_eq!(out[3], 0.0);
    assert!((out[0] - 2.0).abs() < 1e-6);
    assert!((out[2] - 3.0).abs() < 1e-6);
}

#[test]
fn head_tables() {
    assert_eq!(grouped_table(4, 2), vec![0, 0, 1, 1]);
    assert_eq!(spread_table(4, 2), vec![0, 0, 1, 1]);
    assert_eq!(spread_table(3, 2), vec![0, 0, 1]);
    assert_eq!(grouped_table(3, 2), vec![0, 1, 2]);
}

#[test]
fn layers_get_room_for_a_cache() {
    let mut caches = vec![Some(7)];
    ensure_layers(&mut caches, 3);
    assert_eq!(caches, vec![Some(7), None, None]);
    ensure_layers(&mut caches, 1);
    assert_eq!(caches.len(), 3);
}

#[test]
fn buffers_are_relabelled() {
    let t = as_3d(f32_tensor(vec![1.0f32; 6], vec![2, 3]), 2, 3);
    assert_eq!(t.dims, vec![1, 2, 3]);
    let t = as_2d(t, 2, 3);
    assert_eq!(t.dims, vec![2, 3]);
    assert_eq!(t.data, vec![1.0; 6]);
    assert_eq!(cpu(), Device::Cpu);
}

fn lcg(seed: u64) -> impl FnMut() -> f32 {
    let mut seed = seed;
    move || {
        seed = seed.wrapping_mul(6364136223846793005).wrapping_add(1);
        ((seed >> 33) as f32 / u32::MAX as f32) * 2.0 - 1.0
    }
}

struct TinyMla {
    mla: KimiK3Mla,
    q_a: Vec<f32>,
    q_b: Vec<f32>,
    kv_a: Vec<f32>,
    kv_b: Vec<f32>,
    o: Vec<f32>,
}

fn tiny_mla() -> TinyMla {
    let (hidden, ql, rank, nh, nope, rope_d, vd) =
        (8usize, 4usize, 6usize, 2usize, 4usize, 2usize, 3usize);
    let mut rand = lcg(0xC0FFEE);
    let mut w = |rows: usize, cols: usize| -> Vec<f32> { (0..rows * cols).map(|_| rand()).collect() };
    TinyMla {
        q_a: w(ql, hidden),
        q_b: w(nh * (nope + rope_d), ql),
        kv_a: w(rank + rope_d, hidden),
        kv_b: w(nh * (nope + vd), rank),
        o: w(hidden, nh * vd),
        mla: KimiK3Mla {
            num_heads: nh,
            qk_nope_head_dim: nope,
            qk_rope_head_dim: rope_d,
            v_head_dim: vd,
            q_lora_rank: ql,
            kv_lora_rank: rank,
        },
    }
}

fn cpu_x(rows: usize, cols: usize) -> Vec<f32> {
    let mut rand = lcg(0xBEEF);
    (0..rows * cols).map(|_| rand()).collect()
}

fn rotate(rows: &mut [f32], positions: &[u32], heads: usize, dim: usize) {
    let half = dim / 2;
    for (r, row) in rows.chunks_mut(dim).enumerate() {
        let pos = positions[r / heads] as f32;
        for i in 0..half {
            let angle = pos / 10000f32.powf(2.0 * i as f32 / dim as f32);
            let (a, b) = (row[i], row[i + half]);
            row[i] = a * angle.cos() - b * angle.sin();
            row[i + half] = a * angle.sin() + b * angle.cos();
        }
    }
}

fn run_mla(t: &TinyMla, x: &[f32], positions: &[u32], cache: &mut Option<MlaCache<f32>>) -> Vec<f32> {
    let s = single();
    let outside = Surroundings {
        apply: |part: MlaPart, rows: Vec<f32>| match part {
            MlaPart::QueryDown => matmul(&rows, &t.q_a, 8),
            MlaPart::QueryUp => matmul(&rows, &t.q_b, 4),
            MlaPart::KvDown => matmul(&rows, &t.kv_a, 8),
            MlaPart::KvUp => matmul(&rows, &t.kv_b, 6),
            MlaPart::Out => matmul(&rows, &t.o, 6),
        },
        rotate: |mut rows: Vec<f32>, at: Vec<u32>| {
            rotate(&mut rows, &at, 1, t.mla.qk_rope_head_dim);
            rows
        },
        attend: (),
    };
    t.mla.forward_rows(&s, &outside, &x.to_vec(), 8, positions, cache)
}

#[test]
fn latent_attention_runs_its_parts_in_order() {
    let t = tiny_mla();
    let x = cpu_x(2, 8);
    let positions = [0u32, 1];
    let q_full = matmul(&matmul(&x, &t.q_a, 8), &t.q_b, 4);
    let mut q = t.mla.split_query(&q_full, 2);
    rotate(&mut q.rope, &positions, t.mla.num_heads, t.mla.qk_rope_head_dim);
    let mut latent = t.mla.split_latent(&matmul(&x, &t.kv_a, 8), 2);
    rotate(&mut latent.k_rope, &positions, 1, t.mla.qk_rope_head_dim);
    let kv_b = matmul(&latent.kv_a, &t.kv_b, 6);
    let mut cache = None;
    let out = t.mla.forward(&single(), &q, &kv_b, &latent.k_rope, 2, &mut cache);
    let mut whole = None;
    assert_eq!(run_mla(&t, &x, &positions, &mut whole), matmul(&out, &t.o, 6));
    assert_eq!(whole.unwrap().rope, latent.k_rope);
}

fn copied(cache: &Option<MlaCache<f32>>) -> Option<MlaCache<f32>> {
    cache.as_ref().map(|c| MlaCache {
        k: c.k.clone(),
        v: c.v.clone(),
        rope: c.rope.clone(),
    })
}

#[test]
fn decode_uses_cached_rope_keys() {
    let t = tiny_mla();
    let mut cache = None;
    let _ = run_mla(&t, &cpu_x(3, 8), &[0, 1, 2], &mut cache);
    let mut plain = copied(&cache);
    let baseline = run_mla(&t, &cpu_x(1, 8), &[3], &mut plain);
    let mut poisoned = copied(&cache);
    if let Some(c) = poisoned.as_mut() {
        c.rope = vec![7.5; c.rope.len()];
    }
    let perturbed = run_mla(&t, &cpu_x(1, 8), &[3], &mut poisoned);
    assert!(
        baseline
            .iter()
            .zip(&perturbed)
            .any(|(a, b)| (a - b).abs() > 1e-4),
        "decode output ignored cached rope keys"
    );
}

#[test]
fn causal_mask_blocks_future_keys() {
    let t = tiny_mla();
    let mut cache = None;
    let _ = run_mla(&t, &cpu_x(2, 8), &[0, 1], &mut cache);
    let xa = cpu_x(2, 8);
    let mut xb = xa.clone();
    for e in xb[8..].iter_mut() {
        *e *= -1.0;
    }
    let base = run_mla(&t, &xa, &[2, 3], &mut copied(&cache));
    let perturbed = run_mla(&t, &xb, &[2, 3], &mut copied(&cache));
    let head_dims = t.mla.num_heads * t.mla.v_head_dim;
    assert!(
        base[..head_dims]
            .iter()
            .zip(&perturbed[..head_dims])
            .all(|(a, b)| (a - b).abs() < 1e-5),
        "query at abs pos 2 changed when the later token changed"
    );
    assert!(
        base[head_dims..]
            .iter()
            .zip(&perturbed[head_dims..])
            .any(|(a, b)| (a - b).abs() > 1e-5),
        "second query ignored its own token"
    );
}

#[test]
fn latent_decode_matches_prefill() {
    let t = tiny_mla();
    let x = cpu_x(3, 8);
    let mut all = None;
    let prefill = run_mla(&t, &x, &[0, 1, 2], &mut all);
    let mut steps = None;
    let mut decode = Vec::new();
    for p in 0..3u32 {
        let row = &x[p as usize * 8..(p as usize + 1) * 8];
        decode.extend(run_mla(&t, row, &[p], &mut steps));
    }
    for (a, b) in prefill.iter().zip(&decode) {
        assert!((a - b).abs() < 1e-5);
    }
    let (all, steps) = (all.unwrap(), steps.unwrap());
    assert_eq!((all.k, all.v, all.rope), (steps.k, steps.v, steps.rope));
}

#[test]
fn attention_over_one_row_many_times_gives_that_row() {
    let x = single();
    let q = [0.3f32, -1.2];
    let keys = [0.5f32, 0.1, -2.0, 0.7, 1.5, 1.5];
    let values = [4.0f32, -8.0, 4.0, -8.0, 4.0, -8.0];
    let out = attend_rows(&x, None, &q, &keys, &values);
    assert_eq!(out.len(), 2);
    assert!((out[0] - 4.0).abs() < 1e-5 && (out[1] + 8.0).abs() < 1e-5);
}

#[test]
fn attention_stays_between_its_values() {
    let x = single();
    let keys = [0.5f32, 0.1, -2.0, 0.7, 1.5, 1.5];
    let values = [4.0f32, -8.0, 1.0, 3.0, 2.0, 0.5];
    for cap in [None, Some(0.5f32)] {
        let out = attend_rows(&x, cap, &[3.0, -1.2], &keys, &values);
        assert!(out[0] > 1.0 && out[0] < 4.0);
        assert!(out[1] > -8.0 && out[1] < 3.0);
    }
}

#[test]
fn a_cap_keeps_weights_close() {
    let x = single();
    // Values that read the weight of the first of two rows.
    let weight = |cap: Option<f32>| attend_head(&x, cap, &[9.0], &[9.0, -9.0], &[1.0, 0.0], 2)[0];
    assert!(weight(None) > 0.999_999);
    let cap = 0.5f32;
    let w = weight(Some(cap));
    assert!(w / (1.0 - w) <= (2.0 * cap).exp() + 1e-4);
    assert!((w / (1.0 - w) - (2.0 * cap).exp()).abs() < 1e-3);
}
