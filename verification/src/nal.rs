//! NAL unit classification from the header byte.
//!
//! The low five bits of the first byte of a NAL unit give its type;
//! types 1 through 5 carry coded picture data ("video" NAL units).

use vstd::prelude::*;

verus! {

/// The NAL unit types this crate distinguishes.
#[derive(Clone, Copy, Debug, PartialEq, Eq, Structural)]
pub enum NaluType {
    /// Coded slice of a non-IDR picture (type 1).
    NonIdr,
    /// Coded slice data partition A (type 2).
    DataPartA,
    /// Coded slice data partition B (type 3).
    DataPartB,
    /// Coded slice data partition C (type 4).
    DataPartC,
    /// Coded slice of an IDR picture (type 5).
    Idr,
    /// Supplemental enhancement information (type 6).
    Sei,
    /// Sequence parameter set (type 7).
    Sps,
    /// Picture parameter set (type 8).
    Pps,
    /// Access unit delimiter (type 9).
    Aud,
    /// End of sequence (type 10).
    EndOfSequence,
    /// End of stream (type 11).
    EndOfStream,
    /// Filler data (type 12).
    Filler,
    /// Sequence parameter set extension (type 13).
    SpsExt,
    /// Prefix NAL unit (type 14).
    Prefix,
    /// Any other type.
    Other,
}

/// The type coded in the low five bits of a NAL header byte.
pub open spec fn nalu_type_of(b: u8) -> NaluType {
    let t = b % 32;
    if t == 1 {
        NaluType::NonIdr
    } else if t == 2 {
        NaluType::DataPartA
    } else if t == 3 {
        NaluType::DataPartB
    } else if t == 4 {
        NaluType::DataPartC
    } else if t == 5 {
        NaluType::Idr
    } else if t == 6 {
        NaluType::Sei
    } else if t == 7 {
        NaluType::Sps
    } else if t == 8 {
        NaluType::Pps
    } else if t == 9 {
        NaluType::Aud
    } else if t == 10 {
        NaluType::EndOfSequence
    } else if t == 11 {
        NaluType::EndOfStream
    } else if t == 12 {
        NaluType::Filler
    } else if t == 13 {
        NaluType::SpsExt
    } else if t == 14 {
        NaluType::Prefix
    } else {
        NaluType::Other
    }
}

/// True for the types that carry coded picture data (1 through 5).
pub open spec fn is_video_type(t: NaluType) -> bool {
    t == NaluType::NonIdr || t == NaluType::DataPartA || t == NaluType::DataPartB || t
        == NaluType::DataPartC || t == NaluType::Idr
}

impl NaluType {
    /// Classify a NAL unit by its header byte.
    pub fn from_header_byte(b: u8) -> (r: NaluType)
        ensures
            r == nalu_type_of(b),
    {
        let t = b % 32;
        if t == 1 {
            NaluType::NonIdr
        } else if t == 2 {
            NaluType::DataPartA
        } else if t == 3 {
            NaluType::DataPartB
        } else if t == 4 {
            NaluType::DataPartC
        } else if t == 5 {
            NaluType::Idr
        } else if t == 6 {
            NaluType::Sei
        } else if t == 7 {
            NaluType::Sps
        } else if t == 8 {
            NaluType::Pps
        } else if t == 9 {
            NaluType::Aud
        } else if t == 10 {
            NaluType::EndOfSequence
        } else if t == 11 {
            NaluType::EndOfStream
        } else if t == 12 {
            NaluType::Filler
        } else if t == 13 {
            NaluType::SpsExt
        } else if t == 14 {
            NaluType::Prefix
        } else {
            NaluType::Other
        }
    }

    /// True for the types that carry coded picture data (1 through 5).
    pub fn is_video(&self) -> (r: bool)
        ensures
            r == is_video_type(*self),
    {
        match self {
            NaluType::NonIdr | NaluType::DataPartA | NaluType::DataPartB | NaluType::DataPartC
            | NaluType::Idr => true,
            _ => false,
        }
    }

    /// A short name for the type.
    pub open spec fn spec_name(self) -> Seq<char> {
        match self {
            NaluType::NonIdr => "NonIDR"@,
            NaluType::DataPartA => "DPA"@,
            NaluType::DataPartB => "DPB"@,
            NaluType::DataPartC => "DPC"@,
            NaluType::Idr => "IDR"@,
            NaluType::Sei => "SEI"@,
            NaluType::Sps => "SPS"@,
            NaluType::Pps => "PPS"@,
            NaluType::Aud => "AUD"@,
            NaluType::EndOfSequence => "EndOfSequence"@,
            NaluType::EndOfStream => "EndOfStream"@,
            NaluType::Filler => "Filler"@,
            NaluType::SpsExt => "SPSExt"@,
            NaluType::Prefix => "Prefix"@,
            NaluType::Other => "Other"@,
        }
    }

    /// A short name for the type.
    pub fn name(&self) -> (r: &'static str)
        ensures
            r@ == self.spec_name(),
    {
        match self {
            NaluType::NonIdr => "NonIDR",
            NaluType::DataPartA => "DPA",
            NaluType::DataPartB => "DPB",
            NaluType::DataPartC => "DPC",
            NaluType::Idr => "IDR",
            NaluType::Sei => "SEI",
            NaluType::Sps => "SPS",
            NaluType::Pps => "PPS",
            NaluType::Aud => "AUD",
            NaluType::EndOfSequence => "EndOfSequence",
            NaluType::EndOfStream => "EndOfStream",
            NaluType::Filler => "Filler",
            NaluType::SpsExt => "SPSExt",
            NaluType::Prefix => "Prefix",
            NaluType::Other => "Other",
        }
    }
}

} // verus!
