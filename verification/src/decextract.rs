//! Finding a file's AVC decoder configuration: the `avcC` child of the
//! first `avc1` or `avc3` sample entry of a video track.

use vstd::prelude::*;
use crate::annexb::be32_at;
use crate::boxes::{
    box_header_at, find_box, find_box_spec, read_box_header, AVC1, AVC3, AVCC, HDLR, MDIA, MINF,
    MOOV, STBL, STSD, TRAK, VIDE,
};
use crate::decconf::{decconf_spec, decode_avc_decoder_config, DecConfRec};

verus! {

/// The configuration coded by the `avcC` box of a sample entry,
/// scanning the entry's child boxes from `pos`; the scan ends at the
/// first `avcC`, whether or not its payload decodes.
pub open spec fn scan_entry_spec(entry: Seq<u8>, pos: int) -> Option<
    (u8, u8, u8, Seq<Seq<u8>>, Seq<Seq<u8>>, int),
>
    decreases entry.len() - pos,
{
    if pos < 0 || pos + 8 > entry.len() {
        None
    } else {
        match box_header_at(entry, pos) {
            None => None,
            Some(h) => {
                if h.size < h.header_size || h.size > entry.len() - pos {
                    None
                } else if h.name == AVCC {
                    decconf_spec(entry.subrange(pos + h.header_size, pos + h.size))
                } else {
                    scan_entry_spec(entry, pos + h.size)
                }
            },
        }
    }
}

/// The configuration of the first sample entry of an `stsd` payload:
/// the entry must name `avc1` or `avc3`, and its child boxes are
/// scanned from byte 78, past the fixed visual sample-entry fields.
pub open spec fn stsd_avcc_spec(stsd: Seq<u8>) -> Option<
    (u8, u8, u8, Seq<Seq<u8>>, Seq<Seq<u8>>, int),
> {
    if stsd.len() < 16 {
        None
    } else {
        let esize = be32_at(stsd, 8);
        let format = be32_at(stsd, 12);
        if 8 + esize > stsd.len() {
            None
        } else if format != AVC1 && format != AVC3 {
            None
        } else {
            scan_entry_spec(stsd.subrange(8, 8 + esize), 78)
        }
    }
}

/// What one `trak` payload yields: the configuration of a `vide`
/// track's first sample entry.
pub open spec fn dec_trak_spec(trak: Seq<u8>) -> Option<
    (u8, u8, u8, Seq<Seq<u8>>, Seq<Seq<u8>>, int),
> {
    match find_box_spec(trak, 0, MDIA) {
        None => None,
        Some((_o, ma, mb)) => {
            let mdia = trak.subrange(ma, mb);
            match find_box_spec(mdia, 0, HDLR) {
                None => None,
                Some((_o2, ha, hb)) => {
                    let hdlr = mdia.subrange(ha, hb);
                    if hdlr.len() < 12 || be32_at(hdlr, 8) != VIDE {
                        None
                    } else {
                        match find_box_spec(mdia, 0, MINF) {
                            None => None,
                            Some((_o3, fa, fb)) => {
                                let minf = mdia.subrange(fa, fb);
                                match find_box_spec(minf, 0, STBL) {
                                    None => None,
                                    Some((_o4, sa, sb)) => {
                                        let stbl = minf.subrange(sa, sb);
                                        match find_box_spec(stbl, 0, STSD) {
                                            None => None,
                                            Some((_o5, ta, tb)) => stsd_avcc_spec(
                                                stbl.subrange(ta, tb),
                                            ),
                                        }
                                    },
                                }
                            },
                        }
                    }
                },
            }
        },
    }
}

/// The first track configuration among the `trak` boxes of a `moov`
/// payload, scanning from `pos`.
pub open spec fn scan_dec_traks_spec(moov: Seq<u8>, pos: int) -> Option<
    (u8, u8, u8, Seq<Seq<u8>>, Seq<Seq<u8>>, int),
>
    decreases moov.len() - pos,
{
    if pos < 0 || pos + 8 > moov.len() {
        None
    } else {
        match box_header_at(moov, pos) {
            None => None,
            Some(h) => {
                if h.size == 0 {
                    if h.name == TRAK {
                        dec_trak_spec(moov.subrange(pos + h.header_size, moov.len() as int))
                    } else {
                        None
                    }
                } else if h.size < h.header_size || h.size > moov.len() - pos {
                    None
                } else {
                    let here: Option<(u8, u8, u8, Seq<Seq<u8>>, Seq<Seq<u8>>, int)> = if h.name
                        == TRAK {
                        dec_trak_spec(moov.subrange(pos + h.header_size, pos + h.size))
                    } else {
                        None
                    };
                    if here is Some {
                        here
                    } else {
                        scan_dec_traks_spec(moov, pos + h.size)
                    }
                }
            },
        }
    }
}

/// The decoder configuration of the file's first video track.
pub open spec fn decoder_config_spec(data: Seq<u8>) -> Option<
    (u8, u8, u8, Seq<Seq<u8>>, Seq<Seq<u8>>, int),
> {
    match find_box_spec(data, 0, MOOV) {
        None => None,
        Some((_o, a, b)) => scan_dec_traks_spec(data.subrange(a, b), 0),
    }
}

/// A record carries the specified configuration.
pub open spec fn decconf_matches(
    rec: DecConfRec,
    model: (u8, u8, u8, Seq<Seq<u8>>, Seq<Seq<u8>>, int),
) -> bool {
    &&& rec.profile_indication == model.0
    &&& rec.profile_compatibility == model.1
    &&& rec.level_indication == model.2
    &&& rec.sps_view() == model.3
    &&& rec.pps_view() == model.4
}

/// Scan a sample entry's child boxes for the `avcC` configuration.
fn scan_entry_avcc(entry: &[u8]) -> (r: Option<DecConfRec>)
    ensures
        match r {
            Some(rec) => scan_entry_spec(entry@, 78) matches Some(model) && decconf_matches(
                rec,
                model,
            ),
            None => scan_entry_spec(entry@, 78) is None,
        },
{
    let n = entry.len();
    let mut pos: usize = 78;
    while pos < n && n - pos >= 8
        invariant
            pos <= n || pos == 78,
            n == entry@.len(),
            scan_entry_spec(entry@, 78) == scan_entry_spec(entry@, pos as int),
        decreases entry@.len() - pos,
    {
        let h = match read_box_header(entry, pos) {
            Some(h) => h,
            None => {
                return None;
            },
        };
        proof {
            assert(h.header_size == 8 || h.header_size == 16);
        }
        let hs: usize = if h.header_size == 16 {
            16
        } else {
            8
        };
        if h.size < hs as u64 || h.size > (n - pos) as u64 {
            return None;
        }
        let size = h.size as usize;
        if h.name == AVCC {
            proof {
                assert(entry@.subrange(pos + hs, pos + size) =~= entry@.subrange(
                    pos as int + h.header_size,
                    pos as int + h.size,
                ));
            }
            return decode_avc_decoder_config(&entry[pos + hs..pos + size]);
        }
        pos = pos + size;
    }
    proof {
        assert(scan_entry_spec(entry@, pos as int) is None);
    }
    None
}

/// Parse the first sample entry of an `stsd` payload.
fn parse_stsd_avcc(stsd: &[u8]) -> (r: Option<DecConfRec>)
    ensures
        match r {
            Some(rec) => stsd_avcc_spec(stsd@) matches Some(model) && decconf_matches(rec, model),
            None => stsd_avcc_spec(stsd@) is None,
        },
{
    let n = stsd.len();
    if n < 16 {
        return None;
    }
    let esize = crate::boxes::read_be32(stsd, 8) as usize;
    let format = crate::boxes::read_be32(stsd, 12);
    if esize > n - 8 {
        return None;
    }
    if format != AVC1 && format != AVC3 {
        return None;
    }
    proof {
        assert(stsd@.subrange(8, 8 + esize as int) =~= stsd@.subrange(
            8,
            8 + be32_at(stsd@, 8),
        ));
    }
    scan_entry_avcc(&stsd[8..8 + esize])
}

/// Try one `trak` payload for a video track's configuration.
fn parse_trak_avcc(trak: &[u8]) -> (r: Option<DecConfRec>)
    ensures
        match r {
            Some(rec) => dec_trak_spec(trak@) matches Some(model) && decconf_matches(rec, model),
            None => dec_trak_spec(trak@) is None,
        },
{
    let mdia = match find_box(trak, MDIA) {
        Some(p) => p,
        None => {
            return None;
        },
    };
    let hdlr = match find_box(mdia, HDLR) {
        Some(p) => p,
        None => {
            return None;
        },
    };
    if hdlr.len() < 12 {
        return None;
    }
    if crate::boxes::read_be32(hdlr, 8) != VIDE {
        return None;
    }
    let minf = match find_box(mdia, MINF) {
        Some(p) => p,
        None => {
            return None;
        },
    };
    let stbl = match find_box(minf, STBL) {
        Some(p) => p,
        None => {
            return None;
        },
    };
    let stsd = match find_box(stbl, STSD) {
        Some(p) => p,
        None => {
            return None;
        },
    };
    parse_stsd_avcc(stsd)
}

/// Find the decoder configuration of the first video track of an MP4
/// file held in memory.
pub fn extract_decoder_config(data: &[u8]) -> (r: Option<DecConfRec>)
    ensures
        match r {
            Some(rec) => decoder_config_spec(data@) matches Some(model) && decconf_matches(
                rec,
                model,
            ),
            None => decoder_config_spec(data@) is None,
        },
{
    let moov = match find_box(data, MOOV) {
        Some(p) => p,
        None => {
            return None;
        },
    };
    let n = moov.len();
    let mut pos: usize = 0;
    while pos < n && n - pos >= 8
        invariant
            pos <= n == moov@.len(),
            decoder_config_spec(data@) == scan_dec_traks_spec(moov@, pos as int),
        decreases moov@.len() - pos,
    {
        let h = match read_box_header(moov, pos) {
            Some(h) => h,
            None => {
                return None;
            },
        };
        proof {
            assert(h.header_size == 8 || h.header_size == 16);
            assert(pos + h.header_size <= n);
        }
        let hs: usize = if h.header_size == 16 {
            16
        } else {
            8
        };
        if h.size == 0 {
            if h.name == TRAK {
                return parse_trak_avcc(&moov[pos + hs..n]);
            }
            return None;
        }
        if h.size < h.header_size || h.size > (n - pos) as u64 {
            return None;
        }
        let size = h.size as usize;
        if h.name == TRAK {
            if let Some(v) = parse_trak_avcc(&moov[pos + hs..pos + size]) {
                return Some(v);
            }
        }
        pos = pos + size;
    }
    proof {
        assert(scan_dec_traks_spec(moov@, pos as int) is None);
    }
    None
}

} // verus!
