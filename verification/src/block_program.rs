//! The operations of one decoder block, shared by the families whose blocks
//! differ only in their parts.

use crate::numeric::Real;
use vstd::prelude::*;

verus! {

/// A value inside a block: rows of one width, one row per token.
#[derive(Debug, Clone, Copy, PartialEq, Eq, Structural)]
pub enum Reg {
    Input,
    Normed,
    /// Query, key and value columns of one projection.
    Fused,
    Query,
    Key,
    Value,
    Attended,
    Projected,
    Residual,
    FfnInput,
    Gate,
    Up,
    Activated,
    Mlp,
    Output,
}

/// A weight of a block.
#[derive(Debug, Clone, Copy, PartialEq, Eq, Structural)]
pub enum Part {
    InputNorm,
    Qkv,
    Query,
    Key,
    Value,
    QueryNorm,
    KeyNorm,
    AttnOut,
    PostAttnNorm,
    FfnNorm,
    Gate,
    Up,
    Down,
    PostFfnNorm,
}

/// The activation of a feed-forward part.
#[derive(Debug, Clone, Copy, PartialEq, Eq, Structural)]
pub enum Activation {
    /// `x / (1 + exp(-x))`.
    Silu,
    /// `x` times the logistic function of `x`.
    SiluSigmoid,
    /// The hyperbolic-tangent approximation of the Gaussian error unit, with the
    /// cubic factored out: `x / 2 * (1 + tanh(x * 0.797884 * (1 + 0.044715 * x * x)))`.
    GeluFactored,
    /// The same approximation term by term:
    /// `x / 2 * (1 + tanh(0.7978846 * (x + 0.044715 * x * x * x)))`.
    GeluSeries,
    /// The same approximation with the third power taken first.
    GeluPower,
    /// The same approximation with the third power taken first and the square
    /// root of two over pi in place of its decimals.
    GeluRoot,
}

/// What the feed-forward part is.
#[derive(Debug, Clone, Copy, PartialEq, Eq, Structural)]
pub enum Ffn {
    /// Two projections side by side, an activation on the first, a down projection.
    Gated(Activation),
    /// One projection, an activation, a down projection.
    Plain(Activation),
    /// A mixture of experts.
    Experts,
}

/// What the feed-forward part reads.
#[derive(Debug, Clone, Copy, PartialEq, Eq, Structural)]
pub enum FfnInput {
    /// The first residual sum, normalised.
    NormedResidual,
    /// The first residual sum as it is.
    Residual,
    /// What attention reads, so that both run side by side.
    NormedInput,
}

/// How a block attends.
#[derive(Debug, Clone, Copy, PartialEq, Eq, Structural)]
pub struct AttentionDesign {
    pub heads: usize,
    pub kv_heads: usize,
    pub head_dim: usize,
    /// Keys and values join a history.
    pub cached: bool,
    /// Only this many of the latest tokens are seen.
    pub window: Option<usize>,
    /// Scores are capped softly.
    pub softcap: Option<Real>,
}

/// How many of the rotated frequencies go by each of a token's four positions,
/// one section after the other.
#[derive(Debug, Clone, Copy, PartialEq, Eq, Structural)]
pub struct RopeSections {
    pub first: usize,
    pub second: usize,
    pub third: usize,
    pub fourth: usize,
}

impl RopeSections {
    /// The position that a frequency goes by; those behind the last section go
    /// by the last one.
    pub open spec fn axis(&self, frequency: int) -> int {
        if frequency < self.first {
            0
        } else if frequency < self.first + self.second {
            1
        } else if frequency < self.first + self.second + self.third {
            2
        } else {
            3
        }
    }

    /// The position that each of a token's frequencies goes by.
    pub fn frequency_positions(&self, positions: [u32; 4], frequencies: usize) -> (r: Vec<u32>)
        requires
            self.first + self.second + self.third <= usize::MAX,
        ensures
            r@ == Seq::new(frequencies as nat, |f: int| positions@[self.axis(f)]),
    {
        let mut r: Vec<u32> = Vec::new();
        let mut f: usize = 0;
        while f < frequencies
            invariant
                f <= frequencies,
                self.first + self.second + self.third <= usize::MAX,
                r@ == Seq::new(f as nat, |f: int| positions@[self.axis(f)]),
            decreases frequencies - f,
        {
            let position: u32 = if f < self.first {
                positions[0]
            } else if f < self.first + self.second {
                positions[1]
            } else if f < self.first + self.second + self.third {
                positions[2]
            } else {
                positions[3]
            };
            assert(position == positions@[self.axis(f as int)]);
            r.push(position);
            f = f + 1;
        }
        r
    }
}

/// A token with one position only, such as one of text, is rotated plainly: all
/// its frequencies go by that position.
pub proof fn law_one_position_turns_plainly(sections: RopeSections, positions: [u32; 4], f: int)
    requires
        forall|i: int| 0 <= i < 4 ==> #[trigger] positions@[i] == positions@[0],
    ensures
        positions@[sections.axis(f)] == positions@[0],
{
}

/// The parts that make up a block.
#[derive(Debug, Clone, Copy)]
pub struct BlockDesign {
    pub hidden: usize,
    pub inter: usize,
    pub attention: AttentionDesign,
    /// Norms subtract the mean.
    pub layer_norm: bool,
    pub fused_qkv: bool,
    pub qk_norm: bool,
    /// The base of the rotations, where queries and keys are rotated.
    pub rope_theta: Option<Real>,
    /// The columns of a head that are rotated.
    pub rotary_dim: usize,
    /// How the rotated frequencies are shared out over several positions of a
    /// token, where it has more than one.
    pub rope_sections: Option<RopeSections>,
    pub post_attn_norm: bool,
    pub ffn_input: FfnInput,
    pub ffn: Ffn,
    pub post_ffn_norm: bool,
    /// What sublayer outputs are scaled by before they are added.
    pub residual_scale: Option<Real>,
}

/// An operation of a block.
#[derive(Debug, Clone, Copy, PartialEq, Eq, Structural)]
pub enum BlockOp {
    Norm { src: Reg, part: Part, dst: Reg, width: usize, subtract_mean: bool },
    Linear { src: Reg, part: Part, dst: Reg, inputs: usize, outputs: usize },
    /// Cut fused rows into queries, keys and values.
    SplitQkv { q_dim: usize, kv_dim: usize },
    /// Normalise head by head, in place.
    HeadNorm { reg: Reg, part: Part, heads: usize, head_dim: usize },
    /// Rotate the first columns of every head, in place.
    Rope {
        reg: Reg,
        heads: usize,
        head_dim: usize,
        rotary_dim: usize,
        theta: Real,
        sections: Option<RopeSections>,
    },
    /// Append keys and values to the history, and go on with the history.
    AppendHistory { kv_dim: usize },
    Attend { attention: AttentionDesign },
    Activate { kind: Activation, gated: bool, width: usize },
    Experts { src: Reg, width: usize },
    /// `a + scale * b`.
    Add { a: Reg, b: Reg, dst: Reg, width: usize, scale: Option<Real> },
}

/// A gated feed-forward part on `src`.
pub open spec fn gated_ops(src: Reg, hidden: usize, inter: usize, kind: Activation) -> Seq<
    BlockOp,
> {
    seq![
        BlockOp::Linear {
            src,
            part: Part::Gate,
            dst: Reg::Gate,
            inputs: hidden,
            outputs: inter,
        },
        BlockOp::Linear { src, part: Part::Up, dst: Reg::Up, inputs: hidden, outputs: inter },
        BlockOp::Activate { kind, gated: true, width: inter },
        BlockOp::Linear {
            src: Reg::Activated,
            part: Part::Down,
            dst: Reg::Mlp,
            inputs: inter,
            outputs: hidden,
        },
    ]
}

/// A feed-forward part of two projections on `src`.
pub open spec fn plain_ops(src: Reg, hidden: usize, inter: usize, kind: Activation) -> Seq<
    BlockOp,
> {
    seq![
        BlockOp::Linear {
            src,
            part: Part::Gate,
            dst: Reg::Gate,
            inputs: hidden,
            outputs: inter,
        },
        BlockOp::Activate { kind, gated: false, width: inter },
        BlockOp::Linear {
            src: Reg::Activated,
            part: Part::Down,
            dst: Reg::Mlp,
            inputs: inter,
            outputs: hidden,
        },
    ]
}

/// Adds a gated feed-forward part.
pub fn push_gated_ops(
    out: &mut Vec<BlockOp>,
    src: Reg,
    hidden: usize,
    inter: usize,
    kind: Activation,
)
    ensures
        final(out)@ == old(out)@ + gated_ops(src, hidden, inter, kind),
{
    out.push(
        BlockOp::Linear {
            src,
            part: Part::Gate,
            dst: Reg::Gate,
            inputs: hidden,
            outputs: inter,
        },
    );
    out.push(
        BlockOp::Linear { src, part: Part::Up, dst: Reg::Up, inputs: hidden, outputs: inter },
    );
    out.push(BlockOp::Activate { kind, gated: true, width: inter });
    out.push(
        BlockOp::Linear {
            src: Reg::Activated,
            part: Part::Down,
            dst: Reg::Mlp,
            inputs: inter,
            outputs: hidden,
        },
    );
    assert(out@ =~= old(out)@ + gated_ops(src, hidden, inter, kind));
}

/// Adds a feed-forward part of two projections.
pub fn push_plain_ops(
    out: &mut Vec<BlockOp>,
    src: Reg,
    hidden: usize,
    inter: usize,
    kind: Activation,
)
    ensures
        final(out)@ == old(out)@ + plain_ops(src, hidden, inter, kind),
{
    out.push(
        BlockOp::Linear {
            src,
            part: Part::Gate,
            dst: Reg::Gate,
            inputs: hidden,
            outputs: inter,
        },
    );
    out.push(BlockOp::Activate { kind, gated: false, width: inter });
    out.push(
        BlockOp::Linear {
            src: Reg::Activated,
            part: Part::Down,
            dst: Reg::Mlp,
            inputs: inter,
            outputs: hidden,
        },
    );
    assert(out@ =~= old(out)@ + plain_ops(src, hidden, inter, kind));
}

/// A gated feed-forward part on its own.
pub fn gated_program(hidden: usize, inter: usize, kind: Activation) -> (out: Vec<BlockOp>)
    ensures
        out@ == gated_ops(Reg::FfnInput, hidden, inter, kind),
{
    let mut out: Vec<BlockOp> = Vec::new();
    push_gated_ops(&mut out, Reg::FfnInput, hidden, inter, kind);
    assert(out@ =~= gated_ops(Reg::FfnInput, hidden, inter, kind));
    out
}

/// A feed-forward part of two projections on its own.
pub fn plain_program(hidden: usize, inter: usize, kind: Activation) -> (out: Vec<BlockOp>)
    ensures
        out@ == plain_ops(Reg::FfnInput, hidden, inter, kind),
{
    let mut out: Vec<BlockOp> = Vec::new();
    push_plain_ops(&mut out, Reg::FfnInput, hidden, inter, kind);
    assert(out@ =~= plain_ops(Reg::FfnInput, hidden, inter, kind));
    out
}

impl BlockDesign {
    /// The width of all query heads.
    pub open spec fn q_dim(&self) -> int {
        self.attention.heads * self.attention.head_dim
    }

    /// The width of all key or value heads.
    pub open spec fn kv_dim(&self) -> int {
        self.attention.kv_heads * self.attention.head_dim
    }

    /// The widths fit.
    pub open spec fn fits(&self) -> bool {
        self.q_dim() + 2 * self.kv_dim() <= usize::MAX
    }

    /// What the feed-forward part reads.
    pub open spec fn ffn_src(&self) -> Reg {
        match self.ffn_input {
            FfnInput::NormedResidual => Reg::FfnInput,
            FfnInput::Residual => Reg::Residual,
            FfnInput::NormedInput => Reg::Normed,
        }
    }

    /// The norm and the projections in front of attention.
    pub open spec fn project_ops(&self) -> Seq<BlockOp> {
        let hidden = self.hidden;
        let q = self.q_dim() as usize;
        let kv = self.kv_dim() as usize;
        let norm = BlockOp::Norm {
            src: Reg::Input,
            part: Part::InputNorm,
            dst: Reg::Normed,
            width: hidden,
            subtract_mean: self.layer_norm,
        };
        if self.fused_qkv {
            seq![
                norm,
                BlockOp::Linear {
                    src: Reg::Normed,
                    part: Part::Qkv,
                    dst: Reg::Fused,
                    inputs: hidden,
                    outputs: (self.q_dim() + 2 * self.kv_dim()) as usize,
                },
                BlockOp::SplitQkv { q_dim: q, kv_dim: kv },
            ]
        } else {
            seq![
                norm,
                BlockOp::Linear {
                    src: Reg::Normed,
                    part: Part::Query,
                    dst: Reg::Query,
                    inputs: hidden,
                    outputs: q,
                },
                BlockOp::Linear {
                    src: Reg::Normed,
                    part: Part::Key,
                    dst: Reg::Key,
                    inputs: hidden,
                    outputs: kv,
                },
                BlockOp::Linear {
                    src: Reg::Normed,
                    part: Part::Value,
                    dst: Reg::Value,
                    inputs: hidden,
                    outputs: kv,
                },
            ]
        }
    }

    /// One rotation.
    pub open spec fn rope_op(&self, reg: Reg, heads: usize, theta: Real) -> BlockOp {
        BlockOp::Rope {
            reg,
            heads,
            head_dim: self.attention.head_dim,
            rotary_dim: self.rotary_dim,
            sections: self.rope_sections,
            theta,
        }
    }

    /// What happens to queries and keys before attention.
    pub open spec fn shape_ops(&self) -> Seq<BlockOp> {
        let a = self.attention;
        let norms = if self.qk_norm {
            seq![
                BlockOp::HeadNorm {
                    reg: Reg::Query,
                    part: Part::QueryNorm,
                    heads: a.heads,
                    head_dim: a.head_dim,
                },
                BlockOp::HeadNorm {
                    reg: Reg::Key,
                    part: Part::KeyNorm,
                    heads: a.kv_heads,
                    head_dim: a.head_dim,
                },
            ]
        } else {
            Seq::empty()
        };
        let ropes = match self.rope_theta {
            Some(theta) => seq![
                self.rope_op(Reg::Query, a.heads, theta),
                self.rope_op(Reg::Key, a.kv_heads, theta),
            ],
            None => Seq::empty(),
        };
        let history = if a.cached {
            seq![BlockOp::AppendHistory { kv_dim: self.kv_dim() as usize }]
        } else {
            Seq::empty()
        };
        norms + ropes + history
    }

    /// Attention and its output projection.
    pub open spec fn attend_ops(&self) -> Seq<BlockOp> {
        let project = seq![
            BlockOp::Attend { attention: self.attention },
            BlockOp::Linear {
                src: Reg::Attended,
                part: Part::AttnOut,
                dst: Reg::Projected,
                inputs: self.q_dim() as usize,
                outputs: self.hidden,
            },
        ];
        if self.post_attn_norm {
            project.push(
                BlockOp::Norm {
                    src: Reg::Projected,
                    part: Part::PostAttnNorm,
                    dst: Reg::Projected,
                    width: self.hidden,
                    subtract_mean: self.layer_norm,
                },
            )
        } else {
            project
        }
    }

    /// The first residual sum.
    pub open spec fn residual_op(&self) -> BlockOp {
        BlockOp::Add {
            a: Reg::Input,
            b: Reg::Projected,
            dst: Reg::Residual,
            width: self.hidden,
            scale: self.residual_scale,
        }
    }

    /// The feed-forward part itself.
    pub open spec fn ffn_ops(&self) -> Seq<BlockOp> {
        match self.ffn {
            Ffn::Gated(kind) => gated_ops(self.ffn_src(), self.hidden, self.inter, kind),
            Ffn::Plain(kind) => plain_ops(self.ffn_src(), self.hidden, self.inter, kind),
            Ffn::Experts => seq![BlockOp::Experts { src: self.ffn_src(), width: self.hidden }],
        }
    }

    /// From the first residual sum to the block's output.
    pub open spec fn tail_ops(&self) -> Seq<BlockOp> {
        let hidden = self.hidden;
        let norm = if self.ffn_input == FfnInput::NormedResidual {
            seq![
                BlockOp::Norm {
                    src: Reg::Residual,
                    part: Part::FfnNorm,
                    dst: Reg::FfnInput,
                    width: hidden,
                    subtract_mean: self.layer_norm,
                },
            ]
        } else {
            Seq::empty()
        };
        let post = if self.post_ffn_norm {
            seq![
                BlockOp::Norm {
                    src: Reg::Mlp,
                    part: Part::PostFfnNorm,
                    dst: Reg::Mlp,
                    width: hidden,
                    subtract_mean: self.layer_norm,
                },
            ]
        } else {
            Seq::empty()
        };
        seq![self.residual_op()] + norm + self.ffn_ops() + post + seq![
            BlockOp::Add {
                a: Reg::Residual,
                b: Reg::Mlp,
                dst: Reg::Output,
                width: hidden,
                scale: self.residual_scale,
            },
        ]
    }

    /// Every operation of the block, in order.
    pub open spec fn ops(&self) -> Seq<BlockOp> {
        self.project_ops() + self.shape_ops() + self.attend_ops() + self.tail_ops()
    }

    fn push_front(&self, out: &mut Vec<BlockOp>)
        requires
            self.fits(),
        ensures
            final(out)@ == old(out)@ + (self.project_ops() + self.shape_ops()),
    {
        let hidden: usize = self.hidden;
        let a = self.attention;
        let q: usize = a.heads * a.head_dim;
        let kv: usize = a.kv_heads * a.head_dim;
        out.push(
            BlockOp::Norm {
                src: Reg::Input,
                part: Part::InputNorm,
                dst: Reg::Normed,
                width: hidden,
                subtract_mean: self.layer_norm,
            },
        );
        if self.fused_qkv {
            out.push(
                BlockOp::Linear {
                    src: Reg::Normed,
                    part: Part::Qkv,
                    dst: Reg::Fused,
                    inputs: hidden,
                    outputs: q + 2 * kv,
                },
            );
            out.push(BlockOp::SplitQkv { q_dim: q, kv_dim: kv });
        } else {
            out.push(
                BlockOp::Linear {
                    src: Reg::Normed,
                    part: Part::Query,
                    dst: Reg::Query,
                    inputs: hidden,
                    outputs: q,
                },
            );
            out.push(
                BlockOp::Linear {
                    src: Reg::Normed,
                    part: Part::Key,
                    dst: Reg::Key,
                    inputs: hidden,
                    outputs: kv,
                },
            );
            out.push(
                BlockOp::Linear {
                    src: Reg::Normed,
                    part: Part::Value,
                    dst: Reg::Value,
                    inputs: hidden,
                    outputs: kv,
                },
            );
        }
        if self.qk_norm {
            out.push(
                BlockOp::HeadNorm {
                    reg: Reg::Query,
                    part: Part::QueryNorm,
                    heads: a.heads,
                    head_dim: a.head_dim,
                },
            );
            out.push(
                BlockOp::HeadNorm {
                    reg: Reg::Key,
                    part: Part::KeyNorm,
                    heads: a.kv_heads,
                    head_dim: a.head_dim,
                },
            );
        }
        if let Some(theta) = self.rope_theta {
            let rotary_dim: usize = self.rotary_dim;
            let sections = self.rope_sections;
            let head_dim: usize = a.head_dim;
            out.push(
                BlockOp::Rope {
                    reg: Reg::Query,
                    heads: a.heads,
                    head_dim,
                    rotary_dim,
                    theta,
                    sections,
                },
            );
            out.push(
                BlockOp::Rope {
                    reg: Reg::Key,
                    heads: a.kv_heads,
                    head_dim,
                    rotary_dim,
                    theta,
                    sections,
                },
            );
        }
        if a.cached {
            out.push(BlockOp::AppendHistory { kv_dim: kv });
        }
        assert(out@ =~= old(out)@ + (self.project_ops() + self.shape_ops()));
    }

    fn push_attention(&self, out: &mut Vec<BlockOp>)
        requires
            self.fits(),
        ensures
            final(out)@ == old(out)@ + self.attend_ops(),
    {
        let hidden: usize = self.hidden;
        let q: usize = self.attention.heads * self.attention.head_dim;
        out.push(BlockOp::Attend { attention: self.attention });
        out.push(
            BlockOp::Linear {
                src: Reg::Attended,
                part: Part::AttnOut,
                dst: Reg::Projected,
                inputs: q,
                outputs: hidden,
            },
        );
        if self.post_attn_norm {
            out.push(
                BlockOp::Norm {
                    src: Reg::Projected,
                    part: Part::PostAttnNorm,
                    dst: Reg::Projected,
                    width: hidden,
                    subtract_mean: self.layer_norm,
                },
            );
        }
        assert(out@ =~= old(out)@ + self.attend_ops());
    }

    fn push_ffn(&self, out: &mut Vec<BlockOp>)
        ensures
            final(out)@ == old(out)@ + self.ffn_ops(),
    {
        let src = match self.ffn_input {
            FfnInput::NormedResidual => Reg::FfnInput,
            FfnInput::Residual => Reg::Residual,
            FfnInput::NormedInput => Reg::Normed,
        };
        match self.ffn {
            Ffn::Gated(kind) => {
                push_gated_ops(out, src, self.hidden, self.inter, kind);
            },
            Ffn::Plain(kind) => {
                push_plain_ops(out, src, self.hidden, self.inter, kind);
            },
            Ffn::Experts => {
                out.push(BlockOp::Experts { src, width: self.hidden });
                assert(out@ =~= old(out)@ + self.ffn_ops());
            },
        }
    }

    fn push_tail(&self, out: &mut Vec<BlockOp>)
        ensures
            final(out)@ == old(out)@ + self.tail_ops(),
    {
        let hidden: usize = self.hidden;
        out.push(
            BlockOp::Add {
                a: Reg::Input,
                b: Reg::Projected,
                dst: Reg::Residual,
                width: hidden,
                scale: self.residual_scale,
            },
        );
        match self.ffn_input {
            FfnInput::NormedResidual => {
                out.push(
                    BlockOp::Norm {
                        src: Reg::Residual,
                        part: Part::FfnNorm,
                        dst: Reg::FfnInput,
                        width: hidden,
                        subtract_mean: self.layer_norm,
                    },
                );
            },
            _ => {},
        }
        self.push_ffn(out);
        if self.post_ffn_norm {
            out.push(
                BlockOp::Norm {
                    src: Reg::Mlp,
                    part: Part::PostFfnNorm,
                    dst: Reg::Mlp,
                    width: hidden,
                    subtract_mean: self.layer_norm,
                },
            );
        }
        out.push(
            BlockOp::Add {
                a: Reg::Residual,
                b: Reg::Mlp,
                dst: Reg::Output,
                width: hidden,
                scale: self.residual_scale,
            },
        );
        assert(out@ =~= old(out)@ + self.tail_ops());
    }

    /// The operations of the block.
    pub fn program(&self) -> (out: Vec<BlockOp>)
        requires
            self.fits(),
        ensures
            out@ == self.ops(),
    {
        let mut out: Vec<BlockOp> = Vec::new();
        self.push_front(&mut out);
        self.push_attention(&mut out);
        self.push_tail(&mut out);
        assert(out@ =~= self.ops());
        out
    }

    /// The width of a value inside the block.
    pub open spec fn width(&self, reg: Reg) -> int {
        match reg {
            Reg::Fused => self.q_dim() + 2 * self.kv_dim(),
            Reg::Query => self.q_dim(),
            Reg::Key => self.kv_dim(),
            Reg::Value => self.kv_dim(),
            Reg::Attended => self.q_dim(),
            Reg::Gate => self.inter as int,
            Reg::Up => self.inter as int,
            Reg::Activated => self.inter as int,
            _ => self.hidden as int,
        }
    }

    /// The operation takes and gives rows of the widths that its operands have.
    pub open spec fn well_shaped(&self, op: BlockOp) -> bool {
        match op {
            BlockOp::Norm { src, dst, width, .. } => width == self.width(src) && width
                == self.width(dst),
            BlockOp::Linear { src, dst, inputs, outputs, .. } => inputs == self.width(src)
                && outputs == self.width(dst),
            BlockOp::SplitQkv { q_dim, kv_dim } => q_dim == self.width(Reg::Query) && kv_dim
                == self.width(Reg::Key) && kv_dim == self.width(Reg::Value) && q_dim + 2 * kv_dim
                == self.width(Reg::Fused),
            BlockOp::HeadNorm { reg, heads, head_dim, .. } => heads * head_dim == self.width(reg),
            BlockOp::Rope { reg, heads, head_dim, .. } => heads * head_dim == self.width(reg),
            BlockOp::AppendHistory { kv_dim } => kv_dim == self.width(Reg::Key) && kv_dim
                == self.width(Reg::Value),
            BlockOp::Attend { attention } => attention.heads * attention.head_dim == self.width(
                Reg::Query,
            ) && attention.kv_heads * attention.head_dim == self.width(Reg::Key),
            BlockOp::Activate { width, .. } => width == self.width(Reg::Gate) && width
                == self.width(Reg::Activated),
            BlockOp::Experts { src, width } => width == self.width(src) && width == self.width(
                Reg::Mlp,
            ),
            BlockOp::Add { a, b, dst, width, .. } => width == self.width(a) && width == self.width(
                b,
            ) && width == self.width(dst),
        }
    }
}

proof fn widths_are_sizes(d: &BlockDesign)
    requires
        d.fits(),
    ensures
        0 <= d.kv_dim() <= usize::MAX,
        0 <= d.q_dim() <= usize::MAX,
{
    assert(0 <= d.kv_dim()) by (nonlinear_arith)
        requires
            d.kv_dim() == d.attention.kv_heads * d.attention.head_dim,
    ;
    assert(0 <= d.q_dim()) by (nonlinear_arith)
        requires
            d.q_dim() == d.attention.heads * d.attention.head_dim,
    ;
}

proof fn projections_are_well_shaped(d: &BlockDesign, i: int)
    requires
        d.fits(),
        0 <= i < d.project_ops().len(),
    ensures
        d.well_shaped(d.project_ops()[i]),
{
    widths_are_sizes(d);
}

proof fn shapes_are_well_shaped(d: &BlockDesign, i: int)
    requires
        d.fits(),
        0 <= i < d.shape_ops().len(),
    ensures
        d.well_shaped(d.shape_ops()[i]),
{
    widths_are_sizes(d);
}

proof fn attention_is_well_shaped(d: &BlockDesign, i: int)
    requires
        d.fits(),
        0 <= i < d.attend_ops().len(),
    ensures
        d.well_shaped(d.attend_ops()[i]),
{
    widths_are_sizes(d);
}

proof fn ffn_is_well_shaped(d: &BlockDesign, i: int)
    requires
        0 <= i < d.ffn_ops().len(),
    ensures
        d.well_shaped(d.ffn_ops()[i]),
{
}

proof fn tail_is_well_shaped(d: &BlockDesign, i: int)
    requires
        0 <= i < d.tail_ops().len(),
    ensures
        d.well_shaped(d.tail_ops()[i]),
{
    let lead: int = if d.ffn_input == FfnInput::NormedResidual {
        2
    } else {
        1
    };
    if lead <= i < lead + d.ffn_ops().len() {
        ffn_is_well_shaped(d, i - lead);
        assert(d.tail_ops()[i] == d.ffn_ops()[i - lead]);
    }
}

/// Whatever parts a block is made of, every operation gets rows of the width
/// that it was made for, and the block gives rows of the width that it took.
pub proof fn law_block_is_well_shaped(design: &BlockDesign, i: int)
    requires
        design.fits(),
        0 <= i < design.ops().len(),
    ensures
        design.well_shaped(design.ops()[i]),
        design.width(Reg::Output) == design.width(Reg::Input),
{
    let a = design.project_ops();
    let b = design.shape_ops();
    let c = design.attend_ops();
    let d = design.tail_ops();
    let op = design.ops()[i];
    if i < a.len() {
        projections_are_well_shaped(design, i);
        assert(op == a[i]);
    } else if i < a.len() + b.len() {
        shapes_are_well_shaped(design, i - a.len());
        assert(op == b[i - a.len()]);
    } else if i < a.len() + b.len() + c.len() {
        attention_is_well_shaped(design, i - a.len() - b.len());
        assert(op == c[i - a.len() - b.len()]);
    } else {
        tail_is_well_shaped(design, i - a.len() - b.len() - c.len());
        assert(op == d[i - a.len() - b.len() - c.len()]);
    }
}

/// The values that an operation reads.
pub open spec fn reads(op: BlockOp) -> Set<Reg> {
    match op {
        BlockOp::Norm { src, .. } => set![src],
        BlockOp::Linear { src, .. } => set![src],
        BlockOp::SplitQkv { .. } => set![Reg::Fused],
        BlockOp::HeadNorm { reg, .. } => set![reg],
        BlockOp::Rope { reg, .. } => set![reg],
        BlockOp::AppendHistory { .. } => set![Reg::Key, Reg::Value],
        BlockOp::Attend { .. } => set![Reg::Query, Reg::Key, Reg::Value],
        BlockOp::Activate { gated, .. } => if gated {
            set![Reg::Gate, Reg::Up]
        } else {
            set![Reg::Gate]
        },
        BlockOp::Experts { src, .. } => set![src],
        BlockOp::Add { a, b, .. } => set![a, b],
    }
}

/// The values that an operation writes.
pub open spec fn writes(op: BlockOp) -> Set<Reg> {
    match op {
        BlockOp::Norm { dst, .. } => set![dst],
        BlockOp::Linear { dst, .. } => set![dst],
        BlockOp::SplitQkv { .. } => set![Reg::Query, Reg::Key, Reg::Value],
        BlockOp::HeadNorm { reg, .. } => set![reg],
        BlockOp::Rope { reg, .. } => set![reg],
        BlockOp::AppendHistory { .. } => set![Reg::Key, Reg::Value],
        BlockOp::Attend { .. } => set![Reg::Attended],
        BlockOp::Activate { .. } => set![Reg::Activated],
        BlockOp::Experts { .. } => set![Reg::Mlp],
        BlockOp::Add { dst, .. } => set![dst],
    }
}

/// The values at hand after some operations: those at hand before them and
/// those that they write.
pub open spec fn at_hand(ops: Seq<BlockOp>, start: Set<Reg>) -> Set<Reg>
    decreases ops.len(),
{
    if ops.len() == 0 {
        start
    } else {
        at_hand(ops.drop_last(), start).union(writes(ops.last()))
    }
}

/// Every operation reads only values at hand when its turn comes.
pub open spec fn fed(ops: Seq<BlockOp>, start: Set<Reg>) -> bool
    decreases ops.len(),
{
    if ops.len() == 0 {
        true
    } else {
        fed(ops.drop_last(), start) && reads(ops.last()).subset_of(
            at_hand(ops.drop_last(), start),
        )
    }
}

proof fn step(ops: Seq<BlockOp>, op: BlockOp, start: Set<Reg>)
    requires
        fed(ops, start),
        reads(op).subset_of(at_hand(ops, start)),
    ensures
        fed(ops.push(op), start),
        at_hand(ops.push(op), start) == at_hand(ops, start).union(writes(op)),
{
    assert(ops.push(op).drop_last() =~= ops);
}

proof fn concat(a: Seq<BlockOp>, b: Seq<BlockOp>, start: Set<Reg>)
    requires
        fed(a, start),
        fed(b, at_hand(a, start)),
    ensures
        fed(a + b, start),
        at_hand(a + b, start) == at_hand(b, at_hand(a, start)),
    decreases b.len(),
{
    if b.len() == 0 {
        assert(a + b =~= a);
    } else {
        concat(a, b.drop_last(), start);
        assert((a + b).drop_last() =~= a + b.drop_last());
        assert((a + b).last() == b.last());
    }
}

/// What was at hand stays at hand.
proof fn grows(ops: Seq<BlockOp>, start: Set<Reg>)
    ensures
        start.subset_of(at_hand(ops, start)),
    decreases ops.len(),
{
    if ops.len() > 0 {
        grows(ops.drop_last(), start);
    }
}

/// Fewer values at hand to start with feed no more operations.
proof fn widen(ops: Seq<BlockOp>, start: Set<Reg>, more: Set<Reg>)
    requires
        start.subset_of(more),
        fed(ops, start),
    ensures
        fed(ops, more),
        at_hand(ops, start).subset_of(at_hand(ops, more)),
    decreases ops.len(),
{
    if ops.len() > 0 {
        widen(ops.drop_last(), start, more);
    }
}

proof fn two(a: BlockOp, b: BlockOp, start: Set<Reg>)
    requires
        reads(a).subset_of(start),
        reads(b).subset_of(start.union(writes(a))),
    ensures
        fed(seq![a, b], start),
        at_hand(seq![a, b], start) == start.union(writes(a)).union(writes(b)),
{
    let none = Seq::<BlockOp>::empty();
    step(none, a, start);
    step(none.push(a), b, start);
    assert(seq![a, b] =~= none.push(a).push(b));
}

proof fn one(a: BlockOp, start: Set<Reg>)
    requires
        reads(a).subset_of(start),
    ensures
        fed(seq![a], start),
        at_hand(seq![a], start) == start.union(writes(a)),
{
    let none = Seq::<BlockOp>::empty();
    step(none, a, start);
    assert(seq![a] =~= none.push(a));
}

proof fn projections_are_fed(d: &BlockDesign)
    ensures
        fed(d.project_ops(), set![Reg::Input]),
        set![Reg::Input, Reg::Normed, Reg::Query, Reg::Key, Reg::Value].subset_of(
            at_hand(d.project_ops(), set![Reg::Input]),
        ),
{
    let p = d.project_ops();
    let start = set![Reg::Input];
    let none = Seq::<BlockOp>::empty();
    step(none, p[0], start);
    step(none.push(p[0]), p[1], start);
    step(none.push(p[0]).push(p[1]), p[2], start);
    if d.fused_qkv {
        assert(p =~= none.push(p[0]).push(p[1]).push(p[2]));
    } else {
        step(none.push(p[0]).push(p[1]).push(p[2]), p[3], start);
        assert(p =~= none.push(p[0]).push(p[1]).push(p[2]).push(p[3]));
    }
}

proof fn shapes_are_fed(d: &BlockDesign)
    ensures
        fed(d.shape_ops(), set![Reg::Query, Reg::Key, Reg::Value]),
{
    let a = d.attention;
    let start = set![Reg::Query, Reg::Key, Reg::Value];
    let none = Seq::<BlockOp>::empty();
    let norms = if d.qk_norm {
        d.shape_ops().take(2)
    } else {
        none
    };
    if d.qk_norm {
        assert(norms =~= seq![norms[0], norms[1]]);
        two(norms[0], norms[1], start);
    }
    grows(norms, start);
    let n = norms.len() as int;
    let ropes = if d.rope_theta is Some {
        d.shape_ops().subrange(n, n + 2)
    } else {
        none
    };
    if d.rope_theta is Some {
        assert(ropes =~= seq![ropes[0], ropes[1]]);
        two(ropes[0], ropes[1], start);
        widen(ropes, start, at_hand(norms, start));
    }
    concat(norms, ropes, start);
    grows(ropes, at_hand(norms, start));
    let history = if a.cached {
        seq![d.shape_ops().last()]
    } else {
        none
    };
    if a.cached {
        one(history[0], start);
        widen(history, start, at_hand(norms + ropes, start));
    }
    concat(norms + ropes, history, start);
    assert(d.shape_ops() =~= norms + ropes + history);
}

proof fn attention_is_fed(d: &BlockDesign)
    ensures
        fed(d.attend_ops(), set![Reg::Query, Reg::Key, Reg::Value]),
        at_hand(d.attend_ops(), set![Reg::Query, Reg::Key, Reg::Value]).contains(Reg::Projected),
{
    let start = set![Reg::Query, Reg::Key, Reg::Value];
    let ops = d.attend_ops();
    two(ops[0], ops[1], start);
    if d.post_attn_norm {
        step(seq![ops[0], ops[1]], ops[2], start);
        assert(ops =~= seq![ops[0], ops[1]].push(ops[2]));
    } else {
        assert(ops =~= seq![ops[0], ops[1]]);
    }
}

proof fn ffn_is_fed(d: &BlockDesign, start: Set<Reg>)
    requires
        start.contains(d.ffn_src()),
    ensures
        fed(d.ffn_ops(), start),
        at_hand(d.ffn_ops(), start).contains(Reg::Mlp),
{
    let ops = d.ffn_ops();
    match d.ffn {
        Ffn::Gated(_) => {
            two(ops[0], ops[1], start);
            step(seq![ops[0], ops[1]], ops[2], start);
            step(seq![ops[0], ops[1]].push(ops[2]), ops[3], start);
            assert(ops =~= seq![ops[0], ops[1]].push(ops[2]).push(ops[3]));
        },
        Ffn::Plain(_) => {
            two(ops[0], ops[1], start);
            step(seq![ops[0], ops[1]], ops[2], start);
            assert(ops =~= seq![ops[0], ops[1]].push(ops[2]));
        },
        Ffn::Experts => {
            one(ops[0], start);
            assert(ops =~= seq![ops[0]]);
        },
    }
}

proof fn tail_is_fed(d: &BlockDesign)
    ensures
        fed(d.tail_ops(), set![Reg::Input, Reg::Normed, Reg::Projected]),
        at_hand(d.tail_ops(), set![Reg::Input, Reg::Normed, Reg::Projected]).contains(Reg::Output),
{
    let start = set![Reg::Input, Reg::Normed, Reg::Projected];
    let none = Seq::<BlockOp>::empty();
    let head = seq![d.residual_op()];
    one(d.residual_op(), start);
    let norm_op = BlockOp::Norm {
        src: Reg::Residual,
        part: Part::FfnNorm,
        dst: Reg::FfnInput,
        width: d.hidden,
        subtract_mean: d.layer_norm,
    };
    let lead = if d.ffn_input == FfnInput::NormedResidual {
        head.push(norm_op)
    } else {
        head
    };
    if d.ffn_input == FfnInput::NormedResidual {
        step(head, norm_op, start);
        assert(lead =~= head + seq![norm_op]);
    } else {
        assert(lead =~= head + none);
    }
    let mid = at_hand(lead, start);
    ffn_is_fed(d, mid);
    grows(d.ffn_ops(), mid);
    concat(lead, d.ffn_ops(), start);
    let body = lead + d.ffn_ops();
    let post_op = BlockOp::Norm {
        src: Reg::Mlp,
        part: Part::PostFfnNorm,
        dst: Reg::Mlp,
        width: d.hidden,
        subtract_mean: d.layer_norm,
    };
    let last = d.tail_ops().last();
    if d.post_ffn_norm {
        step(body, post_op, start);
        step(body.push(post_op), last, start);
        assert(d.tail_ops() =~= body.push(post_op).push(last));
    } else {
        step(body, last, start);
        assert(d.tail_ops() =~= body.push(last));
    }
}

/// Whatever parts a block is made of, no operation reads a value before it was
/// written, and the block's output is written.
pub proof fn law_block_reads_what_was_written(design: &BlockDesign)
    ensures
        fed(design.ops(), set![Reg::Input]),
        at_hand(design.ops(), set![Reg::Input]).contains(Reg::Output),
{
    let start = set![Reg::Input];
    let qkv = set![Reg::Query, Reg::Key, Reg::Value];
    let a = design.project_ops();
    let b = design.shape_ops();
    let c = design.attend_ops();
    let d = design.tail_ops();
    projections_are_fed(design);
    shapes_are_fed(design);
    widen(b, qkv, at_hand(a, start));
    concat(a, b, start);
    grows(b, at_hand(a, start));
    attention_is_fed(design);
    widen(c, qkv, at_hand(a + b, start));
    concat(a + b, c, start);
    grows(c, at_hand(a + b, start));
    tail_is_fed(design);
    widen(d, set![Reg::Input, Reg::Normed, Reg::Projected], at_hand(a + b + c, start));
    concat(a + b + c, d, start);
}

/// A block ends with its output: the last operation adds the feed-forward part
/// to the first residual sum.
pub proof fn law_block_writes_its_output_last(design: &BlockDesign)
    ensures
        design.ops().len() > 0,
        design.ops().last() == (BlockOp::Add {
            a: Reg::Residual,
            b: Reg::Mlp,
            dst: Reg::Output,
            width: design.hidden,
            scale: design.residual_scale,
        }),
{
}

} // verus!
