//! What a model takes in and gives out.

use vstd::prelude::*;

verus! {

/// What a model takes in and gives out.
#[derive(Debug, Clone, Copy, PartialEq, Eq, Structural)]
pub enum ModalityHint {
    TextInTextOut,
    MultimodalInTextOut,
}

} // verus!
