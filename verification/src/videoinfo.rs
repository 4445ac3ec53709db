//! Basic information about the first video track: its presentation
//! size from `tkhd` and its codec name from the first `stsd` entry.

use vstd::prelude::*;
use vstd::utf8::{decode_utf8, valid_utf8};
use crate::boxes::{
    box_header_at, find_box, find_box_spec, read_box_header, HDLR, MDHD, MDIA, MINF, MOOV, STBL,
    STSD, TKHD, TRAK, VIDE,
};
use crate::moov::mdhd_timescale_spec;
use crate::metadata::text_matches;
use crate::strutil::utf8_to_string;
use crate::annexb::be32_at;

verus! {

/// Basic video track information.
pub struct VideoInfo {
    pub width: u16,
    pub height: u16,
    pub codec: String,
}

/// The presentation width and height of a `tkhd` payload: 16.16 fixed
/// point values whose integer parts are taken.
pub open spec fn tkhd_size_spec(data: Seq<u8>) -> Option<(u16, u16)> {
    if data.len() < 84 {
        None
    } else {
        let p: int = if data[0] == 1 {
            88
        } else {
            76
        };
        if data.len() < p + 8 {
            None
        } else {
            Some(((be32_at(data, p) / 0x10000) as u16, (be32_at(data, p + 4) / 0x10000) as u16))
        }
    }
}

/// The four-character type of the first sample entry of an `stsd`
/// payload, as text.
pub open spec fn stsd_codec_spec(data: Seq<u8>) -> Option<Seq<u8>> {
    if data.len() < 16 {
        None
    } else {
        match box_header_at(data, 0) {
            None => None,
            Some(h) => {
                let p = h.header_size;
                if p + 8 > data.len() {
                    None
                } else {
                    let t = data.subrange(p + 4, p + 8);
                    if valid_utf8(t) {
                        Some(t)
                    } else {
                        None
                    }
                }
            },
        }
    }
}

/// What one `trak` payload yields: size and codec of a `vide` track.
pub open spec fn info_trak_spec(trak: Seq<u8>) -> Option<((u16, u16), Seq<u8>)> {
    match find_box_spec(trak, 0, MDIA) {
        None => None,
        Some((_o, ma, mb)) => {
            let mdia = trak.subrange(ma, mb);
            match find_box_spec(mdia, 0, HDLR) {
                None => None,
                Some((_o2, ha, hb)) => {
                    let hdlr = mdia.subrange(ha, hb);
                    if hdlr.len() < 12 || be32_at(hdlr, 8) != VIDE {
                        None
                    } else {
                        match find_box_spec(trak, 0, TKHD) {
                            None => None,
                            Some((_o3, ka, kb)) => match tkhd_size_spec(trak.subrange(ka, kb)) {
                                None => None,
                                Some(wh) => match find_box_spec(mdia, 0, MINF) {
                                    None => None,
                                    Some((_o4, fa, fb)) => {
                                        let minf = mdia.subrange(fa, fb);
                                        match find_box_spec(minf, 0, STBL) {
                                            None => None,
                                            Some((_o5, sa, sb)) => {
                                                let stbl = minf.subrange(sa, sb);
                                                match find_box_spec(stbl, 0, STSD) {
                                                    None => None,
                                                    Some((_o6, ta, tb)) => match stsd_codec_spec(
                                                        stbl.subrange(ta, tb),
                                                    ) {
                                                        None => None,
                                                        Some(codec) => Some((wh, codec)),
                                                    },
                                                }
                                            },
                                        }
                                    },
                                },
                            },
                        }
                    }
                },
            }
        },
    }
}

/// The first video track's info among the `trak` boxes of a `moov`
/// payload, scanning from `pos`.
pub open spec fn scan_info_traks_spec(moov: Seq<u8>, pos: int) -> Option<((u16, u16), Seq<u8>)>
    decreases moov.len() - pos,
{
    if pos < 0 || pos + 8 > moov.len() {
        None
    } else {
        match box_header_at(moov, pos) {
            None => None,
            Some(h) => {
                if h.size == 0 {
                    if h.name == TRAK {
                        info_trak_spec(moov.subrange(pos + h.header_size, moov.len() as int))
                    } else {
                        None
                    }
                } else if h.size < h.header_size || h.size > moov.len() - pos {
                    None
                } else {
                    let here: Option<((u16, u16), Seq<u8>)> = if h.name == TRAK {
                        info_trak_spec(moov.subrange(pos + h.header_size, pos + h.size))
                    } else {
                        None
                    };
                    if here is Some {
                        here
                    } else {
                        scan_info_traks_spec(moov, pos + h.size)
                    }
                }
            },
        }
    }
}

/// The info of the file's first video track.
pub open spec fn video_info_spec(data: Seq<u8>) -> Option<((u16, u16), Seq<u8>)> {
    match find_box_spec(data, 0, MOOV) {
        None => None,
        Some((_o, a, b)) => scan_info_traks_spec(data.subrange(a, b), 0),
    }
}

/// Parse the presentation size of a `tkhd` payload.
fn parse_tkhd_size(tkhd: &[u8]) -> (r: Option<(u16, u16)>)
    ensures
        r == tkhd_size_spec(tkhd@),
{
    let n = tkhd.len();
    if n < 84 {
        return None;
    }
    let p: usize = if tkhd[0] == 1 {
        88
    } else {
        76
    };
    if n < p + 8 {
        return None;
    }
    let w = crate::boxes::read_be32(tkhd, p) / 0x10000;
    let h = crate::boxes::read_be32(tkhd, p + 4) / 0x10000;
    Some((w as u16, h as u16))
}

/// Parse the codec name of the first `stsd` sample entry.
fn parse_stsd_codec(stsd: &[u8]) -> (r: Option<String>)
    ensures
        text_matches(r, stsd_codec_spec(stsd@)),
{
    let n = stsd.len();
    if n < 16 {
        return None;
    }
    let h = match read_box_header(stsd, 0) {
        Some(h) => h,
        None => {
            return None;
        },
    };
    proof {
        assert(h.header_size == 8 || h.header_size == 16);
    }
    let p: usize = if h.header_size == 16 {
        16
    } else {
        8
    };
    if n < p + 8 {
        return None;
    }
    utf8_to_string(&stsd[p + 4..p + 8])
}

/// An info value models the specified size and codec bytes.
pub open spec fn info_matches(v: &VideoInfo, model: ((u16, u16), Seq<u8>)) -> bool {
    &&& v.width == model.0.0
    &&& v.height == model.0.1
    &&& valid_utf8(model.1) && v.codec@ == decode_utf8(model.1)
}

/// Try one `trak` payload for a video track's info.
fn parse_trak(trak: &[u8]) -> (r: Option<VideoInfo>)
    ensures
        match r {
            Some(v) => info_trak_spec(trak@) matches Some(model) && info_matches(&v, model),
            None => info_trak_spec(trak@) is None,
        },
{
    let mdia = match find_box(trak, MDIA) {
        Some(p) => p,
        None => {
            return None;
        },
    };
    let hdlr = match find_box(mdia, HDLR) {
        Some(p) => p,
        None => {
            return None;
        },
    };
    if hdlr.len() < 12 {
        return None;
    }
    if crate::boxes::read_be32(hdlr, 8) != VIDE {
        return None;
    }
    let tkhd = match find_box(trak, TKHD) {
        Some(p) => p,
        None => {
            return None;
        },
    };
    let (width, height) = match parse_tkhd_size(tkhd) {
        Some(wh) => wh,
        None => {
            return None;
        },
    };
    let minf = match find_box(mdia, MINF) {
        Some(p) => p,
        None => {
            return None;
        },
    };
    let stbl = match find_box(minf, STBL) {
        Some(p) => p,
        None => {
            return None;
        },
    };
    let stsd = match find_box(stbl, STSD) {
        Some(p) => p,
        None => {
            return None;
        },
    };
    let codec = match parse_stsd_codec(stsd) {
        Some(c) => c,
        None => {
            return None;
        },
    };
    Some(VideoInfo { width, height, codec })
}

/// Find the first video track of an MP4 file held in memory and return
/// its size and codec name.
pub fn find_video_track(data: &[u8]) -> (r: Option<VideoInfo>)
    ensures
        match r {
            Some(v) => video_info_spec(data@) matches Some(model) && info_matches(&v, model),
            None => video_info_spec(data@) is None,
        },
{
    let moov = match find_box(data, MOOV) {
        Some(p) => p,
        None => {
            return None;
        },
    };
    let n = moov.len();
    let mut pos: usize = 0;
    while pos < n && n - pos >= 8
        invariant
            pos <= n == moov@.len(),
            video_info_spec(data@) == scan_info_traks_spec(moov@, pos as int),
        decreases moov@.len() - pos,
    {
        let h = match read_box_header(moov, pos) {
            Some(h) => h,
            None => {
                return None;
            },
        };
        proof {
            assert(h.header_size == 8 || h.header_size == 16);
            assert(pos + h.header_size <= n);
        }
        let hs: usize = if h.header_size == 16 {
            16
        } else {
            8
        };
        if h.size == 0 {
            if h.name == TRAK {
                return parse_trak(&moov[pos + hs..n]);
            }
            return None;
        }
        if h.size < h.header_size || h.size > (n - pos) as u64 {
            return None;
        }
        let size = h.size as usize;
        if h.name == TRAK {
            if let Some(v) = parse_trak(&moov[pos + hs..pos + size]) {
                return Some(v);
            }
        }
        pos = pos + size;
    }
    proof {
        assert(scan_info_traks_spec(moov@, pos as int) is None);
    }
    None
}

/// What one `trak` payload yields: the media timescale of a `vide`
/// track.
pub open spec fn ts_trak_spec(trak: Seq<u8>) -> Option<u32> {
    match find_box_spec(trak, 0, MDIA) {
        None => None,
        Some((_o, ma, mb)) => {
            let mdia = trak.subrange(ma, mb);
            match find_box_spec(mdia, 0, HDLR) {
                None => None,
                Some((_o2, ha, hb)) => {
                    let hdlr = mdia.subrange(ha, hb);
                    if hdlr.len() < 12 || be32_at(hdlr, 8) != VIDE {
                        None
                    } else {
                        match find_box_spec(mdia, 0, MDHD) {
                            None => None,
                            Some((_o3, da, db)) => mdhd_timescale_spec(mdia.subrange(da, db)),
                        }
                    }
                },
            }
        },
    }
}

/// The first video track's timescale among the `trak` boxes of a
/// `moov` payload, scanning from `pos`.
pub open spec fn scan_ts_traks_spec(moov: Seq<u8>, pos: int) -> Option<u32>
    decreases moov.len() - pos,
{
    if pos < 0 || pos + 8 > moov.len() {
        None
    } else {
        match box_header_at(moov, pos) {
            None => None,
            Some(h) => {
                if h.size == 0 {
                    if h.name == TRAK {
                        ts_trak_spec(moov.subrange(pos + h.header_size, moov.len() as int))
                    } else {
                        None
                    }
                } else if h.size < h.header_size || h.size > moov.len() - pos {
                    None
                } else {
                    let here: Option<u32> = if h.name == TRAK {
                        ts_trak_spec(moov.subrange(pos + h.header_size, pos + h.size))
                    } else {
                        None
                    };
                    if here is Some {
                        here
                    } else {
                        scan_ts_traks_spec(moov, pos + h.size)
                    }
                }
            },
        }
    }
}

/// The timescale of the file's first video track.
pub open spec fn video_timescale_spec(data: Seq<u8>) -> Option<u32> {
    match find_box_spec(data, 0, MOOV) {
        None => None,
        Some((_o, a, b)) => scan_ts_traks_spec(data.subrange(a, b), 0),
    }
}

/// Try one `trak` payload for a video track's timescale.
fn parse_trak_ts(trak: &[u8]) -> (r: Option<u32>)
    ensures
        r == ts_trak_spec(trak@),
{
    let mdia = match find_box(trak, MDIA) {
        Some(p) => p,
        None => {
            return None;
        },
    };
    let hdlr = match find_box(mdia, HDLR) {
        Some(p) => p,
        None => {
            return None;
        },
    };
    if hdlr.len() < 12 {
        return None;
    }
    if crate::boxes::read_be32(hdlr, 8) != VIDE {
        return None;
    }
    let mdhd = match find_box(mdia, MDHD) {
        Some(p) => p,
        None => {
            return None;
        },
    };
    crate::moov::parse_mdhd_timescale(mdhd)
}

/// Find the media timescale of the first video track of an MP4 file
/// held in memory.
pub fn get_video_timescale(data: &[u8]) -> (r: Option<u32>)
    ensures
        r == video_timescale_spec(data@),
{
    let moov = match find_box(data, MOOV) {
        Some(p) => p,
        None => {
            return None;
        },
    };
    let n = moov.len();
    let mut pos: usize = 0;
    while pos < n && n - pos >= 8
        invariant
            pos <= n == moov@.len(),
            video_timescale_spec(data@) == scan_ts_traks_spec(moov@, pos as int),
        decreases moov@.len() - pos,
    {
        let h = match read_box_header(moov, pos) {
            Some(h) => h,
            None => {
                return None;
            },
        };
        proof {
            assert(h.header_size == 8 || h.header_size == 16);
            assert(pos + h.header_size <= n);
        }
        let hs: usize = if h.header_size == 16 {
            16
        } else {
            8
        };
        if h.size == 0 {
            if h.name == TRAK {
                return parse_trak_ts(&moov[pos + hs..n]);
            }
            return None;
        }
        if h.size < h.header_size || h.size > (n - pos) as u64 {
            return None;
        }
        let size = h.size as usize;
        if h.name == TRAK {
            if let Some(v) = parse_trak_ts(&moov[pos + hs..pos + size]) {
                return Some(v);
            }
        }
        pos = pos + size;
    }
    proof {
        assert(scan_ts_traks_spec(moov@, pos as int) is None);
    }
    None
}

} // verus!
