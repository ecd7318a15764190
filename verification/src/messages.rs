//! What errors say.

use crate::error::Error;
use crate::text::{decimal, push_number};
use vstd::prelude::*;

verus! {

/// Numbers with commas between them.
pub open spec fn listed(ns: Seq<usize>) -> Seq<char>
    decreases ns.len(),
{
    if ns.len() == 0 {
        Seq::empty()
    } else if ns.len() == 1 {
        decimal(ns[0] as nat)
    } else {
        listed(ns.drop_last()) + ", "@ + decimal(ns.last() as nat)
    }
}

/// A list of numbers in brackets.
pub open spec fn list_of(ns: Seq<usize>) -> Seq<char> {
    "["@ + listed(ns) + "]"@
}

/// Appends a list of numbers.
fn push_list(s: &mut String, ns: &[usize])
    ensures
        final(s)@ == old(s)@ + list_of(ns@),
{
    let ghost before = s@;
    s.push_str("[");
    for i in 0..ns.len()
        invariant
            s@ == before + "["@ + listed(ns@.subrange(0, i as int)),
    {
        if i > 0 {
            s.push_str(", ");
        }
        push_number(s, ns[i]);
        proof {
            let now = ns@.subrange(0, i + 1);
            assert(now.drop_last() =~= ns@.subrange(0, i as int));
            assert(s@ =~= before + "["@ + listed(now));
        }
    }
    proof {
        assert(ns@.subrange(0, ns@.len() as int) =~= ns@);
    }
    s.push_str("]");
    proof {
        assert(s@ =~= before + list_of(ns@));
    }
}

impl Error {
    /// What the error says.
    pub open spec fn text(&self) -> Seq<char> {
        match self {
            Error::KeyRank { dims } => "append_and_get: k_new must be [tokens, row_elems] (rank>=2, nonzero width), got "@ + list_of(dims@),
            Error::ValueLength { values, keys } => "append_and_get: v len "@ + decimal(*values as nat) + " != k elem count "@ + decimal(*keys as nat),
            Error::MissingField { layer, field } => "lfm2 layer "@ + decimal(*layer as nat) + ": "@ + field@ + " is required by this block variant but was not loaded"@,
            Error::HalfFusedPack { layer } => "lfm2 layer "@ + decimal(*layer as nat) + ": wqkv_codes/wqkv_exps must be loaded together"@,
            Error::RecurrenceFlags { flags, layers } => "Lfm2Config: is_recr has "@ + decimal(*flags as nat) + " entries but num_layers is "@ + decimal(*layers as nat),
            Error::ShortConvCache => "Mismatched ShortConv layer cache"@,
            Error::AttentionCache => "Mismatched Attention layer cache"@,
            Error::SingleDevice { model, reason } => model@ + ": "@ + reason@,
            Error::ZeroLayers => "MegaSchedule: model has zero layers"@,
            Error::GraphPart { stage, part } => stage@ + ": missing "@ + part@,
            Error::GraphExperts => "moe_forward_graph: expert weights missing"@,
            Error::NoShortConv => "forward_graph: recurrent block without ShortConv weights; use eager"@,
            Error::NotGdl => "gdl_forward_graph: non-GDL layer; use attn_forward_graph"@,
            Error::GdlHeads { heads, kv_heads } => "gdl_forward_graph: GQA ("@ + decimal(*heads as nat) + "q/"@ + decimal(*kv_heads as nat) + "kv) needs nh % nkv == 0; use eager"@,
            Error::GdlHeadDim { head_dim } => "gdl_forward_graph: head_dim "@ + decimal(*head_dim as nat) + " != 64 LDS path; use eager"@,
            Error::GdlBuffers => "gdl_forward_graph: no GDL buffers (allocate_gdl_layer first); use eager"@,
            Error::GdlBufferShape => "gdl_forward_graph: GDL buffer dims mismatch layer; re-allocate"@,
            Error::GraphDisabled => "decode graph disabled by env"@,
            Error::CaptureDisabled => "decode graph disabled"@,
            Error::GraphDevice => "decode graph needs ROCm device"@,
            Error::ReplayBeforeCapture { batched } => (if *batched { "forward_replay_batch"@ } else { "forward_replay"@ }) + " before capture"@,
            Error::ReplayBatch { tokens, batch } => "forward_replay_batch: token_ids len "@ + decimal(*tokens as nat) + " != batch "@ + decimal(*batch as nat),
            Error::SeedCaches { caches, layers } => "eager_kv_seed_sources: "@ + decimal(*caches as nat) + " caches != "@ + decimal(*layers as nat) + " layers"@,
            Error::SeedSource { missing } => "eager_kv_seed_sources: "@ + missing@,
            Error::LoraDims { matrix, rank } => "LoRA "@ + matrix@ + " has rank "@ + decimal(*rank as nat),
            Error::LoraInput { in_dim, hidden } => "LoRA A in_dim "@ + decimal(*in_dim as nat) + " != model hidden_size "@ + decimal(*hidden as nat),
            Error::LoraOutput { out_dim, vocab } => "LoRA B out_dim "@ + decimal(*out_dim as nat) + " != vocab "@ + decimal(*vocab as nat),
            Error::LoraSurrogate { hidden, vocab } => "CPU LoRA path requires hidden_size ("@ + decimal(*hidden as nat) + ") == vocab ("@ + decimal(*vocab as nat) + ") because it uses the final logits tensor as a hidden-state surrogate. hidden_size ("@ + decimal(*hidden as nat) + ") and vocab ("@ + decimal(*vocab as nat) + ") differ."@,
            Error::TransposeRank => "Transpose expects a 2D tensor"@,
            Error::NoDevicePointer { name } => name@ + " has no device ptr"@,
            Error::TokenRange { model, id, vocab } => model@ + ": token id "@ + decimal(*id as nat) + " out of range for vocab_size "@ + decimal(*vocab as nat),
            Error::TableTooSmall { model } => model@ + ": embedding table smaller than vocab_size"@,
            Error::PositionCount { model, positions, tokens } => model@ + ": positions tensor has "@ + decimal(*positions as nat) + " elements for "@ + decimal(*tokens as nat) + " input ids"@,
            Error::ArenaLost => "device KV arena failed"@,
            Error::KernelLost => "device kernel failed"@,
            Error::SessionRefused { layer } => "session refused the keys and values of layer "@ + decimal(*layer as nat),
            Error::Unimplemented { what } => what@,
            Error::RowRank { context, shape } => context@ + ", got "@ + list_of(shape@),
        }
    }

    /// What the error says.
    pub fn message(&self) -> (s: String)
        ensures
            s@ == self.text(),
    {
        let mut s = String::new();
        match self {
            Error::KeyRank { dims } => {
                s.push_str("append_and_get: k_new must be [tokens, row_elems] (rank>=2, nonzero width), got ");
                push_list(&mut s, dims.as_slice());
            },
            Error::ValueLength { values, keys } => {
                s.push_str("append_and_get: v len ");
                push_number(&mut s, *values);
                s.push_str(" != k elem count ");
                push_number(&mut s, *keys);
            },
            Error::MissingField { layer, field } => {
                s.push_str("lfm2 layer ");
                push_number(&mut s, *layer);
                s.push_str(": ");
                s.push_str(field);
                s.push_str(" is required by this block variant but was not loaded");
            },
            Error::HalfFusedPack { layer } => {
                s.push_str("lfm2 layer ");
                push_number(&mut s, *layer);
                s.push_str(": wqkv_codes/wqkv_exps must be loaded together");
            },
            Error::RecurrenceFlags { flags, layers } => {
                s.push_str("Lfm2Config: is_recr has ");
                push_number(&mut s, *flags);
                s.push_str(" entries but num_layers is ");
                push_number(&mut s, *layers);
            },
            Error::ShortConvCache => {
                s.push_str("Mismatched ShortConv layer cache");
            },
            Error::AttentionCache => {
                s.push_str("Mismatched Attention layer cache");
            },
            Error::SingleDevice { model, reason } => {
                s.push_str(model);
                s.push_str(": ");
                s.push_str(reason);
            },
            Error::ZeroLayers => {
                s.push_str("MegaSchedule: model has zero layers");
            },
            Error::GraphPart { stage, part } => {
                s.push_str(stage);
                s.push_str(": missing ");
                s.push_str(part);
            },
            Error::GraphExperts => {
                s.push_str("moe_forward_graph: expert weights missing");
            },
            Error::NoShortConv => {
                s.push_str("forward_graph: recurrent block without ShortConv weights; use eager");
            },
            Error::NotGdl => {
                s.push_str("gdl_forward_graph: non-GDL layer; use attn_forward_graph");
            },
            Error::GdlHeads { heads, kv_heads } => {
                s.push_str("gdl_forward_graph: GQA (");
                push_number(&mut s, *heads);
                s.push_str("q/");
                push_number(&mut s, *kv_heads);
                s.push_str("kv) needs nh % nkv == 0; use eager");
            },
            Error::GdlHeadDim { head_dim } => {
                s.push_str("gdl_forward_graph: head_dim ");
                push_number(&mut s, *head_dim);
                s.push_str(" != 64 LDS path; use eager");
            },
            Error::GdlBuffers => {
                s.push_str("gdl_forward_graph: no GDL buffers (allocate_gdl_layer first); use eager");
            },
            Error::GdlBufferShape => {
                s.push_str("gdl_forward_graph: GDL buffer dims mismatch layer; re-allocate");
            },
            Error::GraphDisabled => {
                s.push_str("decode graph disabled by env");
            },
            Error::CaptureDisabled => {
                s.push_str("decode graph disabled");
            },
            Error::GraphDevice => {
                s.push_str("decode graph needs ROCm device");
            },
            Error::ReplayBeforeCapture { batched } => {
                if *batched { s.push_str("forward_replay_batch"); } else { s.push_str("forward_replay"); }
                s.push_str(" before capture");
            },
            Error::ReplayBatch { tokens, batch } => {
                s.push_str("forward_replay_batch: token_ids len ");
                push_number(&mut s, *tokens);
                s.push_str(" != batch ");
                push_number(&mut s, *batch);
            },
            Error::SeedCaches { caches, layers } => {
                s.push_str("eager_kv_seed_sources: ");
                push_number(&mut s, *caches);
                s.push_str(" caches != ");
                push_number(&mut s, *layers);
                s.push_str(" layers");
            },
            Error::SeedSource { missing } => {
                s.push_str("eager_kv_seed_sources: ");
                s.push_str(missing);
            },
            Error::LoraDims { matrix, rank } => {
                s.push_str("LoRA ");
                s.push_str(matrix);
                s.push_str(" has rank ");
                push_number(&mut s, *rank);
            },
            Error::LoraInput { in_dim, hidden } => {
                s.push_str("LoRA A in_dim ");
                push_number(&mut s, *in_dim);
                s.push_str(" != model hidden_size ");
                push_number(&mut s, *hidden);
            },
            Error::LoraOutput { out_dim, vocab } => {
                s.push_str("LoRA B out_dim ");
                push_number(&mut s, *out_dim);
                s.push_str(" != vocab ");
                push_number(&mut s, *vocab);
            },
            Error::LoraSurrogate { hidden, vocab } => {
                s.push_str("CPU LoRA path requires hidden_size (");
                push_number(&mut s, *hidden);
                s.push_str(") == vocab (");
                push_number(&mut s, *vocab);
                s.push_str(") because it uses the final logits tensor as a hidden-state surrogate. hidden_size (");
                push_number(&mut s, *hidden);
                s.push_str(") and vocab (");
                push_number(&mut s, *vocab);
                s.push_str(") differ.");
            },
            Error::TransposeRank => {
                s.push_str("Transpose expects a 2D tensor");
            },
            Error::NoDevicePointer { name } => {
                s.push_str(name);
                s.push_str(" has no device ptr");
            },
            Error::TokenRange { model, id, vocab } => {
                s.push_str(model);
                s.push_str(": token id ");
                push_number(&mut s, *id);
                s.push_str(" out of range for vocab_size ");
                push_number(&mut s, *vocab);
            },
            Error::TableTooSmall { model } => {
                s.push_str(model);
                s.push_str(": embedding table smaller than vocab_size");
            },
            Error::PositionCount { model, positions, tokens } => {
                s.push_str(model);
                s.push_str(": positions tensor has ");
                push_number(&mut s, *positions);
                s.push_str(" elements for ");
                push_number(&mut s, *tokens);
                s.push_str(" input ids");
            },
            Error::ArenaLost => {
                s.push_str("device KV arena failed");
            },
            Error::KernelLost => {
                s.push_str("device kernel failed");
            },
            Error::SessionRefused { layer } => {
                s.push_str("session refused the keys and values of layer ");
                push_number(&mut s, *layer);
            },
            Error::Unimplemented { what } => {
                s.push_str(what);
            },
            Error::RowRank { context, shape } => {
                s.push_str(context);
                s.push_str(", got ");
                push_list(&mut s, shape.as_slice());
            },
        }
        proof {
            assert(s@ =~= self.text());
        }
        s
    }
}

} // verus!
