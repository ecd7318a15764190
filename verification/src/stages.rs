//! The stages of a decoder's forward pass, shared by the families whose
//! passes differ only in their ends.

use crate::numeric::Real;
use vstd::prelude::*;

verus! {

/// A stage of a forward pass.
#[derive(Debug, Clone, Copy, PartialEq, Eq, Structural)]
pub enum Stage {
    /// Look the tokens up.
    Embed,
    /// Add the rows of the position table.
    AddPositions,
    /// Scale by the square root of a width.
    ScaleBySqrt(usize),
    Layer(usize),
    Norm,
    /// Hand the normalised rows to the session.
    KeepHidden,
    Head,
    /// `cap * tanh(x / cap)`.
    Softcap(Real),
    /// Move the session on by some tokens.
    Advance(usize),
}

/// What a pass is made of.
#[derive(Debug, Clone, Copy)]
pub struct PassDesign {
    pub layers: usize,
    pub positions: bool,
    pub sqrt_scale: Option<usize>,
    pub keeps_hidden: bool,
    pub softcap: Option<Real>,
    pub advances: bool,
}

impl PassDesign {
    /// The stages in front of the layers.
    pub open spec fn lead(&self) -> Seq<Stage> {
        seq![Stage::Embed] + (if self.positions {
            seq![Stage::AddPositions]
        } else {
            Seq::empty()
        }) + (match self.sqrt_scale {
            Some(width) => seq![Stage::ScaleBySqrt(width)],
            None => Seq::empty(),
        })
    }

    /// The stages behind the layers.
    pub open spec fn tail(&self, tokens: usize) -> Seq<Stage> {
        seq![Stage::Norm] + (if self.keeps_hidden {
            seq![Stage::KeepHidden]
        } else {
            Seq::empty()
        }) + seq![Stage::Head] + (match self.softcap {
            Some(cap) => seq![Stage::Softcap(cap)],
            None => Seq::empty(),
        }) + (if self.advances {
            seq![Stage::Advance(tokens)]
        } else {
            Seq::empty()
        })
    }

    /// All stages of a pass over `tokens` tokens, in order.
    pub open spec fn stages(&self, tokens: usize) -> Seq<Stage> {
        self.lead() + Seq::new(self.layers as nat, |i: int| Stage::Layer(i as usize)) + self.tail(
            tokens,
        )
    }

    /// The stages of a pass.
    pub fn pass(&self, tokens: usize) -> (out: Vec<Stage>)
        ensures
            out@ == self.stages(tokens),
    {
        let mut out: Vec<Stage> = Vec::new();
        out.push(Stage::Embed);
        if self.positions {
            out.push(Stage::AddPositions);
        }
        if let Some(width) = self.sqrt_scale {
            out.push(Stage::ScaleBySqrt(width));
        }
        assert(out@ =~= self.lead() + Seq::new(0nat, |i: int| Stage::Layer(i as usize)));
        let mut i: usize = 0;
        while i < self.layers
            invariant
                i <= self.layers,
                out@ == self.lead() + Seq::new(i as nat, |i: int| Stage::Layer(i as usize)),
            decreases self.layers - i,
        {
            out.push(Stage::Layer(i));
            i = i + 1;
            assert(out@ =~= self.lead() + Seq::new(i as nat, |i: int| Stage::Layer(i as usize)));
        }
        out.push(Stage::Norm);
        if self.keeps_hidden {
            out.push(Stage::KeepHidden);
        }
        out.push(Stage::Head);
        if let Some(cap) = self.softcap {
            out.push(Stage::Softcap(cap));
        }
        if self.advances {
            out.push(Stage::Advance(tokens));
        }
        assert(out@ =~= self.stages(tokens));
        out
    }
}

/// Every layer runs once, in order, after the embedding and before the last
/// norm.
pub proof fn law_layers_run_in_order(design: &PassDesign, tokens: usize, i: int)
    requires
        0 <= i < design.layers,
    ensures
        design.stages(tokens)[design.lead().len() + i] == Stage::Layer(i as usize),
        design.stages(tokens)[design.lead().len() + design.layers] == Stage::Norm,
        design.stages(tokens).len() == design.lead().len() + design.layers + design.tail(
            tokens,
        ).len(),
{
}

/// The positions of a call: those given, or a count from zero where none can
/// be read.
pub open spec fn positions_of(given: Option<Seq<u32>>, tokens: nat) -> Seq<u32> {
    match given {
        Some(p) => p,
        None => Seq::new(tokens, |i: int| i as u32),
    }
}

/// The positions of a call over `tokens` tokens.
pub fn positions_or_count(given: Option<Vec<u32>>, tokens: usize) -> (out: Vec<u32>)
    requires
        tokens <= u32::MAX,
    ensures
        out@ == positions_of(
            match given {
                Some(p) => Some(p@),
                None => None,
            },
            tokens as nat,
        ),
{
    match given {
        Some(p) => p,
        None => {
            let mut out: Vec<u32> = Vec::new();
            let mut i: usize = 0;
            while i < tokens
                invariant
                    i <= tokens <= u32::MAX,
                    out@ == Seq::new(i as nat, |i: int| i as u32),
                decreases tokens - i,
            {
                out.push(i as u32);
                i = i + 1;
            }
            out
        },
    }
}

} // verus!
