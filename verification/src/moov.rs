//! Leaf parsers for boxes inside `moov`: media timescale, the decode
//! timing table, and the movie header's duration.

use vstd::prelude::*;
use crate::annexb::be32_at;
use crate::boxes::{be64_at, read_be32};

verus! {

/// The media timescale of an `mdhd` payload; version 1 uses 64-bit
/// creation and modification times before it.
pub open spec fn mdhd_timescale_spec(data: Seq<u8>) -> Option<u32> {
    if data.len() < 12 {
        None
    } else {
        let p: int = if data[0] == 1 {
            20
        } else {
            12
        };
        if p + 4 > data.len() {
            None
        } else {
            Some(be32_at(data, p) as u32)
        }
    }
}

/// Parse the `mdhd` payload and return the media timescale.
pub fn parse_mdhd_timescale(mdhd: &[u8]) -> (r: Option<u32>)
    ensures
        r == mdhd_timescale_spec(mdhd@),
{
    let n = mdhd.len();
    if n < 12 {
        return None;
    }
    let p: usize = if mdhd[0] == 1 {
        20
    } else {
        12
    };
    if n < p + 4 {
        return None;
    }
    Some(read_be32(mdhd, p))
}

/// The `(sample count, duration delta)` entries of an `stts` payload.
pub open spec fn stts_spec(data: Seq<u8>) -> Option<Seq<(u32, u32)>> {
    if data.len() < 8 {
        None
    } else {
        let count = be32_at(data, 4);
        if 8 + 8 * count > data.len() {
            None
        } else {
            Some(
                Seq::new(
                    count as nat,
                    |i: int| (be32_at(data, 8 + 8 * i) as u32, be32_at(data, 12 + 8 * i) as u32),
                ),
            )
        }
    }
}

/// Parse the decode-timing entries of an `stts` payload.
pub fn parse_stts_entries(stts: &[u8]) -> (r: Option<Vec<(u32, u32)>>)
    ensures
        match r {
            Some(v) => stts_spec(stts@) == Some(v@),
            None => stts_spec(stts@) is None,
        },
{
    let n = stts.len();
    if n < 8 {
        return None;
    }
    let count = read_be32(stts, 4);
    if count as usize > (n - 8) / 8 {
        proof {
            assert(8 + 8 * (count as int) > n) by (nonlinear_arith)
                requires
                    count as int > ((n - 8) / 8) as int,
                    n >= 8,
            ;
        }
        return None;
    }
    let count = count as usize;
    proof {
        assert(8 + 8 * (count as int) <= n) by (nonlinear_arith)
            requires
                count as int <= ((n - 8) / 8) as int,
                n >= 8,
        ;
    }
    let mut out: Vec<(u32, u32)> = Vec::new();
    let mut i: usize = 0;
    while i < count
        invariant
            i <= count,
            8 + 8 * (count as int) <= n == stts@.len(),
            out@.len() == i,
            forall|k: int|
                0 <= k < i ==> #[trigger] out@[k] == (
                    be32_at(stts@, 8 + 8 * k) as u32,
                    be32_at(stts@, 12 + 8 * k) as u32,
                ),
        decreases count - i,
    {
        proof {
            assert(8 + 8 * (i as int) + 8 <= n) by (nonlinear_arith)
                requires
                    (i as int) < count as int,
                    8 + 8 * (count as int) <= n,
            ;
        }
        let c = read_be32(stts, 8 + 8 * i);
        let d = read_be32(stts, 8 + 8 * i + 4);
        out.push((c, d));
        i = i + 1;
    }
    proof {
        assert(out@ =~= stts_spec(stts@)->Some_0);
    }
    Some(out)
}

/// The movie duration and timescale of an `mvhd` payload, version
/// dependent: version 1 carries 64-bit times, version 0 32-bit.
pub open spec fn mvhd_duration_spec(data: Seq<u8>) -> Option<(u64, u32)> {
    if data.len() < 4 {
        None
    } else if data[0] == 1 {
        if data.len() < 32 {
            None
        } else {
            Some((be64_at(data, 24) as u64, be32_at(data, 20) as u32))
        }
    } else {
        if data.len() < 20 {
            None
        } else {
            Some((be32_at(data, 16) as u64, be32_at(data, 12) as u32))
        }
    }
}

/// Parse the `mvhd` payload and return `(duration, timescale)`, both in
/// movie-timescale units.
pub fn parse_mvhd_duration(mvhd: &[u8]) -> (r: Option<(u64, u32)>)
    ensures
        r == mvhd_duration_spec(mvhd@),
{
    let n = mvhd.len();
    if n < 4 {
        return None;
    }
    if mvhd[0] == 1 {
        if n < 32 {
            return None;
        }
        let ts = read_be32(mvhd, 20);
        let hi = read_be32(mvhd, 24);
        let lo = read_be32(mvhd, 28);
        Some(((hi as u64) * 0x100000000 + (lo as u64), ts))
    } else {
        if n < 20 {
            return None;
        }
        let ts = read_be32(mvhd, 12);
        let dur = read_be32(mvhd, 16);
        Some((dur as u64, ts))
    }
}

} // verus!
