//! The errors that planning and bookkeeping report.

use vstd::prelude::*;

verus! {

/// Why a request was refused.
#[derive(Debug)]
pub enum Error {
    /// A key tensor without a usable row width was handed to a cache.
    KeyRank { dims: Vec<usize> },
    /// Key and value tensors of different sizes were handed to a cache.
    ValueLength { values: usize, keys: usize },
    /// A layer lacks a part that its variant needs.
    MissingField { layer: usize, field: &'static str },
    /// Only one half of the fused MXFP4 weights of a layer is there.
    HalfFusedPack { layer: usize },
    /// The per-layer recurrence flags do not match the number of layers.
    RecurrenceFlags { flags: usize, layers: usize },
    /// A ShortConv layer was handed another layer's cache.
    ShortConvCache,
    /// An attention layer was handed another layer's cache.
    AttentionCache,
    /// The model cannot be sharded over several devices.
    SingleDevice { model: &'static str, reason: &'static str },
    /// A schedule was asked for a model without layers.
    ZeroLayers,
    /// A layer that is to be captured lacks a part.
    GraphPart { stage: &'static str, part: &'static str },
    /// The captured expert part has no expert weights.
    GraphExperts,
    /// A recurrent layer without convolution weights cannot be captured.
    NoShortConv,
    /// The recurrence was asked for a layer that has none.
    NotGdl,
    /// Query heads do not divide evenly over key and value heads.
    GdlHeads { heads: usize, kv_heads: usize },
    /// The recurrence is captured for heads of 64 only.
    GdlHeadDim { head_dim: usize },
    /// The layer's recurrent buffers were not made.
    GdlBuffers,
    /// The layer's recurrent buffers were made for another shape.
    GdlBufferShape,
    /// Captured decoding is switched off.
    GraphDisabled,
    /// Captured decoding was switched off before a capture.
    CaptureDisabled,
    /// Captured decoding needs a ROCm device.
    GraphDevice,
    /// A replay was asked for before a capture.
    ReplayBeforeCapture { batched: bool },
    /// A replay was handed another number of tokens than it was captured for.
    ReplayBatch { tokens: usize, batch: usize },
    /// A session holds another number of caches than the model has layers.
    SeedCaches { caches: usize, layers: usize },
    /// A layer's history cannot seed a capture.
    SeedSource { missing: &'static str },
    /// An adapter matrix has fewer dimensions than its role asks for.
    LoraDims { matrix: &'static str, rank: usize },
    /// An adapter reads another width than the model's hidden state has.
    LoraInput { in_dim: usize, hidden: usize },
    /// An adapter writes another width than the vocabulary has.
    LoraOutput { out_dim: usize, vocab: usize },
    /// The host path reads logits in place of the hidden state, which takes the
    /// two to be of one width.
    LoraSurrogate { hidden: usize, vocab: usize },
    /// Only matrices are transposed.
    TransposeRank,
    /// A buffer has no device address.
    NoDevicePointer { name: &'static str },
    /// A token lies outside the vocabulary.
    TokenRange { model: &'static str, id: usize, vocab: usize },
    /// The token table holds fewer rows than the vocabulary has tokens.
    TableTooSmall { model: &'static str },
    /// Another number of positions than of tokens was given.
    PositionCount { model: &'static str, positions: usize, tokens: usize },
    /// The device history could neither take rows nor give them back.
    ArenaLost,
    /// A kernel of the device failed.
    KernelLost,
    /// The session did not take the keys and values of a layer.
    SessionRefused { layer: usize },
    /// Something is not there yet.
    Unimplemented { what: &'static str },
    /// Rows of tokens come with two or three dimensions.
    RowRank { context: &'static str, shape: Vec<usize> },
}

} // verus!
