//! What errors say, and what weights are called.

use grim_transformer::error::Error;
use grim_transformer::text::push_number;
use grim_transformer::weights::{in_expert, in_layer, plain};

#[test]
fn errors_speak_plainly() {
    let cases: Vec<(Error, &str)> = vec![
        (
            Error::KeyRank { dims: vec![2] },
            "append_and_get: k_new must be [tokens, row_elems] (rank>=2, nonzero width), got [2]",
        ),
        (
            Error::ValueLength { values: 1, keys: 2 },
            "append_and_get: v len 1 != k elem count 2",
        ),
        (
            Error::MissingField { layer: 3, field: "wo" },
            "lfm2 layer 3: wo is required by this block variant but was not loaded",
        ),
        (
            Error::HalfFusedPack { layer: 4 },
            "lfm2 layer 4: wqkv_codes/wqkv_exps must be loaded together",
        ),
        (
            Error::RecurrenceFlags { flags: 2, layers: 30 },
            "Lfm2Config: is_recr has 2 entries but num_layers is 30",
        ),
        (Error::ShortConvCache, "Mismatched ShortConv layer cache"),
        (Error::AttentionCache, "Mismatched Attention layer cache"),
        (Error::SingleDevice { model: "gpt2", reason: "one device" }, "gpt2: one device"),
        (Error::ZeroLayers, "MegaSchedule: model has zero layers"),
        (
            Error::GraphPart { stage: "attn_forward_graph", part: "wq" },
            "attn_forward_graph: missing wq",
        ),
        (Error::GraphExperts, "moe_forward_graph: expert weights missing"),
        (
            Error::NoShortConv,
            "forward_graph: recurrent block without ShortConv weights; use eager",
        ),
        (Error::NotGdl, "gdl_forward_graph: non-GDL layer; use attn_forward_graph"),
        (
            Error::GdlHeads { heads: 3, kv_heads: 2 },
            "gdl_forward_graph: GQA (3q/2kv) needs nh % nkv == 0; use eager",
        ),
        (
            Error::GdlHeadDim { head_dim: 32 },
            "gdl_forward_graph: head_dim 32 != 64 LDS path; use eager",
        ),
        (
            Error::GdlBuffers,
            "gdl_forward_graph: no GDL buffers (allocate_gdl_layer first); use eager",
        ),
        (
            Error::GdlBufferShape,
            "gdl_forward_graph: GDL buffer dims mismatch layer; re-allocate",
        ),
        (Error::GraphDisabled, "decode graph disabled by env"),
        (Error::CaptureDisabled, "decode graph disabled"),
        (Error::GraphDevice, "decode graph needs ROCm device"),
        (Error::ReplayBeforeCapture { batched: false }, "forward_replay before capture"),
        (Error::ReplayBeforeCapture { batched: true }, "forward_replay_batch before capture"),
        (
            Error::ReplayBatch { tokens: 3, batch: 2 },
            "forward_replay_batch: token_ids len 3 != batch 2",
        ),
        (
            Error::SeedCaches { caches: 1, layers: 2 },
            "eager_kv_seed_sources: 1 caches != 2 layers",
        ),
        (Error::SeedSource { missing: "no k_dev" }, "eager_kv_seed_sources: no k_dev"),
        (Error::LoraDims { matrix: "A", rank: 1 }, "LoRA A has rank 1"),
        (
            Error::LoraInput { in_dim: 6, hidden: 8 },
            "LoRA A in_dim 6 != model hidden_size 8",
        ),
        (Error::LoraOutput { out_dim: 9, vocab: 8 }, "LoRA B out_dim 9 != vocab 8"),
        (
            Error::LoraSurrogate { hidden: 8, vocab: 9 },
            "CPU LoRA path requires hidden_size (8) == vocab (9) because it uses the final logits \
             tensor as a hidden-state surrogate. hidden_size (8) and vocab (9) differ.",
        ),
        (Error::TransposeRank, "Transpose expects a 2D tensor"),
        (Error::NoDevicePointer { name: "norm" }, "norm has no device ptr"),
        (
            Error::TokenRange { model: "minicpm", id: 9999, vocab: 64 },
            "minicpm: token id 9999 out of range for vocab_size 64",
        ),
        (
            Error::TableTooSmall { model: "minicpm" },
            "minicpm: embedding table smaller than vocab_size",
        ),
        (
            Error::PositionCount { model: "minicpm", positions: 3, tokens: 2 },
            "minicpm: positions tensor has 3 elements for 2 input ids",
        ),
        (Error::ArenaLost, "device KV arena failed"),
        (Error::KernelLost, "device kernel failed"),
        (
            Error::SessionRefused { layer: 3 },
            "session refused the keys and values of layer 3",
        ),
        (Error::Unimplemented { what: "not yet" }, "not yet"),
        (
            Error::RowRank { context: "expected rows", shape: vec![1, 20, 300] },
            "expected rows, got [1, 20, 300]",
        ),
    ];
    for (error, text) in cases {
        assert_eq!(error.message(), text);
    }
}

#[test]
fn numbers_are_written_out() {
    let mut s = String::from("n=");
    push_number(&mut s, 0);
    push_number(&mut s, 10203);
    assert_eq!(s, "n=010203");
}

#[test]
fn weights_are_named_by_their_place() {
    assert_eq!(plain("", "token_embd").name(), "token_embd");
    assert_eq!(plain("model", "norm").name(), "model.norm");
    assert_eq!(in_layer("h", 12, "", "ln_1").name(), "h.12.ln_1");
    assert_eq!(
        in_layer("model.layers", 3, "self_attn", "q_proj").name(),
        "model.layers.3.self_attn.q_proj"
    );
    assert_eq!(
        in_expert("model.layers", 3, "mlp.experts", 14, "w1").name(),
        "model.layers.3.mlp.experts.14.w1"
    );
}
