//! The ISO base media box walker.
//!
//! A box is a length-prefixed record: a big-endian 32-bit total size, a
//! four-character type, then the payload. A size of 1 means a 64-bit
//! size follows the type; a size of 0 means the box runs to the end of
//! its container. Box types are handled as big-endian 32-bit values.

use vstd::prelude::*;
use crate::annexb::be32_at;

verus! {

/// The big-endian 64-bit value at index `i`.
pub open spec fn be64_at(s: Seq<u8>, i: int) -> int {
    be32_at(s, i) * 0x100000000 + be32_at(s, i + 4)
}

/// A parsed box header: four-character type as a big-endian 32-bit
/// value, total box size (header included), and header size.
#[derive(Debug, Clone, Copy, PartialEq, Eq, Structural)]
pub struct BoxHeader {
    pub name: u32,
    pub size: u64,
    pub header_size: u64,
}

/// The box header at `pos`: its type, total size, and header size
/// (8 bytes, or 16 when the 64-bit `largesize` form is used).
pub open spec fn box_header_at(data: Seq<u8>, pos: int) -> Option<BoxHeader> {
    if pos < 0 || pos + 8 > data.len() {
        None
    } else {
        let size32 = be32_at(data, pos);
        let name = be32_at(data, pos + 4) as u32;
        if size32 == 1 {
            if pos + 16 > data.len() {
                None
            } else {
                Some(BoxHeader { name, size: be64_at(data, pos + 8) as u64, header_size: 16 })
            }
        } else {
            Some(BoxHeader { name, size: size32 as u64, header_size: 8 })
        }
    }
}

/// Read the box header at `pos` without moving a cursor.
pub fn read_box_header(data: &[u8], pos: usize) -> (r: Option<BoxHeader>)
    ensures
        r == box_header_at(data@, pos as int),
{
    let n = data.len();
    if pos >= n || n - pos < 8 {
        return None;
    }
    let size32 = read_be32(data, pos);
    let name = read_be32(data, pos + 4);
    if size32 == 1 {
        if n - pos < 16 {
            return None;
        }
        let hi = read_be32(data, pos + 8);
        let lo = read_be32(data, pos + 12);
        let size = (hi as u64) * 0x100000000 + (lo as u64);
        Some(BoxHeader { name, size, header_size: 16 })
    } else {
        Some(BoxHeader { name, size: size32 as u64, header_size: 8 })
    }
}

/// Read the big-endian 32-bit value at `pos`.
pub fn read_be32(data: &[u8], pos: usize) -> (r: u32)
    requires
        pos + 4 <= data@.len(),
    ensures
        r == be32_at(data@, pos as int),
{
    (data[pos] as u32) * 0x1000000 + (data[pos + 1] as u32) * 0x10000 + (data[pos + 2] as u32)
        * 0x100 + (data[pos + 3] as u32)
}

/// Parse the box header at `*pos` and advance `*pos` past it, returning
/// the type and total size.
pub fn parse_box_header(data: &[u8], pos: &mut usize) -> (r: Option<(u32, u64)>)
    requires
        *old(pos) <= data@.len(),
    ensures
        match r {
            Some((name, size)) => box_header_at(data@, *old(pos) as int) matches Some(h)
                && h.name == name && h.size == size && *final(pos) == *old(pos) + h.header_size
                && *final(pos) <= data@.len(),
            None => box_header_at(data@, *old(pos) as int) is None && *final(pos) == *old(pos),
        },
{
    let n = data.len();
    match read_box_header(data, *pos) {
        Some(h) => {
            proof {
                assert(n == data@.len());
                assert(h.header_size == 8 || h.header_size == 16);
                assert(*pos + h.header_size <= data@.len());
            }
            let hs: usize = if h.header_size == 16 {
                16
            } else {
                8
            };
            *pos = *pos + hs;
            Some((h.name, h.size))
        },
        None => None,
    }
}

/// The first box named `name` at this nesting level, scanning from
/// `pos`: `(box start, payload start, payload end)`. A box whose size
/// is 0 runs to the end of the container; a size that is non-zero but
/// smaller than its header, or that overruns the container, ends the
/// scan with nothing.
pub open spec fn find_box_spec(data: Seq<u8>, pos: int, name: u32) -> Option<(int, int, int)>
    decreases data.len() - pos,
{
    if pos < 0 || pos + 8 > data.len() {
        None
    } else {
        match box_header_at(data, pos) {
            None => None,
            Some(h) => {
                if h.size == 0 {
                    if h.name == name {
                        Some((pos, pos + h.header_size, data.len() as int))
                    } else {
                        None
                    }
                } else if h.size < h.header_size || h.size > data.len() - pos {
                    None
                } else if h.name == name {
                    Some((pos, pos + h.header_size, pos + h.size))
                } else {
                    find_box_spec(data, pos + h.size, name)
                }
            },
        }
    }
}

/// Find a box by type and return the indices of its extent: the box
/// start, its payload start, and its payload end.
pub fn find_box_range(data: &[u8], name: u32) -> (r: Option<(usize, usize, usize)>)
    ensures
        match r {
            Some((outer, a, b)) => find_box_spec(data@, 0, name) == Some(
                (outer as int, a as int, b as int),
            ) && outer <= a <= b <= data@.len(),
            None => find_box_spec(data@, 0, name) is None,
        },
{
    let n = data.len();
    let mut pos: usize = 0;
    while pos < n && n - pos >= 8
        invariant
            pos <= n == data@.len(),
            find_box_spec(data@, 0, name) == find_box_spec(data@, pos as int, name),
        decreases data@.len() - pos,
    {
        let start = pos;
        let h = match read_box_header(data, pos) {
            Some(h) => h,
            None => {
                return None;
            },
        };
        if h.size == 0 {
            if h.name == name {
                let hs = if h.header_size == 16 {
                    16
                } else {
                    8
                };
                return Some((start, start + hs, n));
            }
            return None;
        }
        if h.size < h.header_size || h.size > (n - pos) as u64 {
            return None;
        }
        let hs: usize = if h.header_size == 16 {
            16
        } else {
            8
        };
        let size = h.size as usize;
        if h.name == name {
            return Some((start, start + hs, start + size));
        }
        pos = pos + size;
    }
    proof {
        assert(find_box_spec(data@, pos as int, name) is None);
    }
    None
}

/// Find a box by type and return its payload slice.
pub fn find_box<'a>(data: &'a [u8], name: u32) -> (r: Option<&'a [u8]>)
    ensures
        match r {
            Some(payload) => find_box_spec(data@, 0, name) matches Some((o, a, b)) && 0 <= o <= a
                <= b <= data@.len() && payload@ == data@.subrange(a, b),
            None => find_box_spec(data@, 0, name) is None,
        },
{
    match find_box_range(data, name) {
        Some((_, a, b)) => Some(&data[a..b]),
        None => None,
    }
}


/// Four-character box and sample-entry types as big-endian 32-bit values.
pub const MOOV: u32 = 0x6d6f6f76;

pub const TRAK: u32 = 0x7472616b;

pub const MDIA: u32 = 0x6d646961;

pub const HDLR: u32 = 0x68646c72;

pub const MDHD: u32 = 0x6d646864;

pub const MINF: u32 = 0x6d696e66;

pub const STBL: u32 = 0x7374626c;

pub const STSD: u32 = 0x73747364;

pub const STSZ: u32 = 0x7374737a;

pub const STCO: u32 = 0x7374636f;

pub const CO64: u32 = 0x636f3634;

pub const STSC: u32 = 0x73747363;

pub const STTS: u32 = 0x73747473;

pub const MDAT: u32 = 0x6d646174;

pub const MVHD: u32 = 0x6d766864;

pub const UDTA: u32 = 0x75647461;

pub const META: u32 = 0x6d657461;

pub const ILST: u32 = 0x696c7374;

pub const DATA: u32 = 0x64617461;

pub const TKHD: u32 = 0x746b6864;

pub const PAYL: u32 = 0x7061796c;

pub const AVCC: u32 = 0x61766343;

pub const TAG_NAM: u32 = 0xa96e616d;

pub const TAG_ART: u32 = 0xa9415254;

pub const TAG_ALB: u32 = 0xa9616c62;

pub const TAG_CPRT: u32 = 0x63707274;

pub const VIDE: u32 = 0x76696465;

pub const TEXT: u32 = 0x74657874;

pub const SUBT: u32 = 0x73756274;

pub const SBTL: u32 = 0x7362746c;

pub const WVTT: u32 = 0x77767474;

pub const STPP: u32 = 0x73747070;

pub const TX3G: u32 = 0x74783367;

pub const AVC1: u32 = 0x61766331;

pub const AVC3: u32 = 0x61766333;


/// Whether the four-character value occurs anywhere in the bytes.
pub open spec fn contains_fourcc(s: Seq<u8>, cc: u32) -> bool {
    exists|i: int| 0 <= i && i + 4 <= s.len() && be32_at(s, i) == cc
}

/// Scan for a four-character value anywhere in the bytes.
pub fn find_fourcc(data: &[u8], cc: u32) -> (r: bool)
    ensures
        r == contains_fourcc(data@, cc),
{
    let n = data.len();
    if n < 4 {
        proof {
            assert(!contains_fourcc(data@, cc));
        }
        return false;
    }
    let mut i: usize = 0;
    while i <= n - 4
        invariant
            4 <= n == data@.len(),
            i <= n - 3,
            forall|k: int| 0 <= k < i ==> be32_at(data@, k) != cc,
        decreases n - i,
    {
        if read_be32(data, i) == cc {
            proof {
                assert(contains_fourcc(data@, cc));
            }
            return true;
        }
        i = i + 1;
    }
    proof {
        assert(forall|k: int| 0 <= k && k + 4 <= data@.len() ==> be32_at(data@, k) != cc);
    }
    false
}

} // verus!
