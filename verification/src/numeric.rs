//! Real-valued settings.

use vstd::prelude::*;

verus! {

/// A real-valued setting, kept as the bit pattern of a double-precision
/// number. Consumers narrow it to the precision they compute in.
#[derive(Debug, Clone, Copy, PartialEq, Eq, Structural)]
pub struct Real {
    pub bits: u64,
}

/// One millionth, as a double-precision bit pattern.
pub const MILLIONTH: u64 = 0x3eb0_c6f7_a0b5_ed8d;

/// One hundred-thousandth, as a double-precision bit pattern.
pub const HUNDRED_THOUSANDTH: u64 = 0x3ee4_f8b5_88e3_68f1;

/// Twenty-two hundredths, as a double-precision bit pattern.
pub const TWENTY_TWO_HUNDREDTHS: u64 = 0x3fcc_28f5_c28f_5c29;

/// One half, as a double-precision bit pattern.
pub const HALF: u64 = 0x3fe0_0000_0000_0000;

/// One, as a double-precision bit pattern.
pub const ONE: u64 = 0x3ff0_0000_0000_0000;

/// Two, as a double-precision bit pattern.
pub const TWO: u64 = 0x4000_0000_0000_0000;

/// Two and a half, as a double-precision bit pattern.
pub const FIVE_HALVES: u64 = 0x4004_0000_0000_0000;

/// Thirty, as a double-precision bit pattern.
pub const THIRTY: u64 = 0x403e_0000_0000_0000;

/// Thirty-two, as a double-precision bit pattern.
pub const THIRTY_TWO: u64 = 0x4040_0000_0000_0000;

/// Fifty, as a double-precision bit pattern.
pub const FIFTY: u64 = 0x4049_0000_0000_0000;

/// Two hundred and fifty-six, as a double-precision bit pattern.
pub const TWO_HUNDRED_FIFTY_SIX: u64 = 0x4070_0000_0000_0000;

/// Ten thousand, as a double-precision bit pattern.
pub const TEN_THOUSAND: u64 = 0x40c3_8800_0000_0000;

/// A hundred thousand, as a double-precision bit pattern.
pub const HUNDRED_THOUSAND: u64 = 0x40f8_6a00_0000_0000;

/// Half a million, as a double-precision bit pattern.
pub const HALF_MILLION: u64 = 0x411e_8480_0000_0000;

/// One million, as a double-precision bit pattern.
pub const MILLION: u64 = 0x412e_8480_0000_0000;

/// How rotations are stretched beyond the positions that a model was trained
/// on.
#[derive(Debug, Clone, Copy, PartialEq, Eq, Structural)]
pub struct YarnParams {
    pub factor: Real,
    pub original_max_pos: usize,
    pub beta_fast: Real,
    pub beta_slow: Real,
    pub attention_factor: Real,
}

/// Rotations that stretch nothing, over the positions that a model has.
pub open spec fn standard_yarn(max_seq_len: usize) -> YarnParams {
    YarnParams {
        factor: Real { bits: ONE },
        original_max_pos: max_seq_len,
        beta_fast: Real { bits: THIRTY_TWO },
        beta_slow: Real { bits: ONE },
        attention_factor: Real { bits: ONE },
    }
}

impl YarnParams {
    /// Rotations that stretch nothing, over the positions that a model has.
    pub fn standard(max_seq_len: usize) -> (yarn: YarnParams)
        ensures
            yarn == standard_yarn(max_seq_len),
    {
        YarnParams {
            factor: Real { bits: ONE },
            original_max_pos: max_seq_len,
            beta_fast: Real { bits: THIRTY_TWO },
            beta_slow: Real { bits: ONE },
            attention_factor: Real { bits: ONE },
        }
    }
}

impl Real {
    /// The number is no number.
    pub open spec fn nan(self) -> bool {
        self.bits & 0x7fff_ffff_ffff_ffff > 0x7ff0_0000_0000_0000
    }

    /// Narrowed to single precision, the number differs from one by more than
    /// a hundred-thousandth. Positive numbers are ordered as their bit patterns
    /// are; the two bounds are the first patterns on either side of one that
    /// narrow to such a number.
    pub open spec fn spec_departs_from_one(self) -> bool {
        !self.nan() && (self.bits >= 0x3ff0_000a_7000_0000 || self.bits <= 0x3fef_ffeb_1000_0000)
    }

    /// Whether scaling by the number is worth doing.
    pub fn departs_from_one(&self) -> (r: bool)
        ensures
            r == self.spec_departs_from_one(),
    {
        let magnitude: u64 = self.bits & 0x7fff_ffff_ffff_ffff;
        if magnitude > 0x7ff0_0000_0000_0000 {
            false
        } else {
            self.bits >= 0x3ff0_000a_7000_0000 || self.bits <= 0x3fef_ffeb_1000_0000
        }
    }
}

} // verus!
