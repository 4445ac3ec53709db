//! Extraction of the first AVC video track of a file.
//!
//! A video track has handler type `vide` and an `avc1` or `avc3`
//! sample entry. Each resolved sample also carries the NAL units split
//! out of its length-prefixed bytes.

use vstd::prelude::*;
use crate::boxes::{
    box_header_at, contains_fourcc, find_box, find_box_spec, find_fourcc, read_box_header, AVC1,
    AVC3, HDLR, MDHD, MDIA, MINF, MOOV, STBL, STSD, TRAK, VIDE,
};
use crate::moov::parse_mdhd_timescale;
use crate::nalus::{get_nalus_from_sample, sample_nalus};
use crate::sampletable::{resolve_stbl_samples, stbl_samples_spec};

verus! {

/// One video sample: its raw bytes, timing, and the NAL units split
/// out of the bytes (empty when the sample is malformed).
pub struct Sample {
    /// Raw bytes of the sample, in length-prefixed form.
    pub bytes: Vec<u8>,
    /// Decode time (start) in track-timescale units.
    pub start: u64,
    /// Duration in track-timescale units.
    pub dur: u32,
    /// Parsed NAL units extracted from `bytes`.
    pub nalus: Vec<Vec<u8>>,
}

/// Why extraction failed.
#[derive(Debug)]
pub enum Error {
    InvalidData(&'static str),
}

/// The NAL units a sample's bytes split into; a malformed sample gives
/// an empty list.
pub open spec fn sample_nalus_or_empty(bytes: Seq<u8>) -> Seq<Seq<u8>> {
    match sample_nalus(bytes) {
        Some(l) => l,
        None => Seq::empty(),
    }
}

/// What one `trak` payload yields: the resolved samples of the first
/// track whose handler is `vide` and whose sample description names
/// `avc1` or `avc3`.
pub open spec fn video_trak_spec(root: Seq<u8>, trak: Seq<u8>) -> Option<
    Seq<(Seq<u8>, int, u32)>,
> {
    match find_box_spec(trak, 0, MDIA) {
        None => None,
        Some((_o, ma, mb)) => {
            let mdia = trak.subrange(ma, mb);
            match find_box_spec(mdia, 0, HDLR) {
                None => None,
                Some((_o2, ha, hb)) => {
                    let hdlr = mdia.subrange(ha, hb);
                    if hdlr.len() < 12 || crate::annexb::be32_at(hdlr, 8) != VIDE {
                        None
                    } else {
                        match find_box_spec(mdia, 0, MDHD) {
                            None => None,
                            Some((_o3, da, db)) => match crate::moov::mdhd_timescale_spec(
                                mdia.subrange(da, db),
                            ) {
                                None => None,
                                Some(_ts) => match find_box_spec(mdia, 0, MINF) {
                                    None => None,
                                    Some((_o4, fa, fb)) => {
                                        let minf = mdia.subrange(fa, fb);
                                        match find_box_spec(minf, 0, STBL) {
                                            None => None,
                                            Some((_o5, sa, sb)) => {
                                                let stbl = minf.subrange(sa, sb);
                                                match find_box_spec(stbl, 0, STSD) {
                                                    None => None,
                                                    Some((_o6, ta, tb)) => {
                                                        let stsd = stbl.subrange(ta, tb);
                                                        if !contains_fourcc(stsd, AVC1)
                                                            && !contains_fourcc(stsd, AVC3) {
                                                            None
                                                        } else {
                                                            stbl_samples_spec(root, stbl)
                                                        }
                                                    },
                                                }
                                            },
                                        }
                                    },
                                },
                            },
                        }
                    }
                },
            }
        },
    }
}

/// The first AVC track's samples among the `trak` boxes of a `moov`
/// payload, scanning from `pos`.
pub open spec fn scan_video_traks_spec(root: Seq<u8>, moov: Seq<u8>, pos: int) -> Option<
    Seq<(Seq<u8>, int, u32)>,
>
    decreases moov.len() - pos,
{
    if pos < 0 || pos + 8 > moov.len() {
        None
    } else {
        match box_header_at(moov, pos) {
            None => None,
            Some(h) => {
                if h.size == 0 {
                    if h.name == TRAK {
                        video_trak_spec(root, moov.subrange(pos + h.header_size, moov.len() as int))
                    } else {
                        None
                    }
                } else if h.size < h.header_size || h.size > moov.len() - pos {
                    None
                } else {
                    let here: Option<Seq<(Seq<u8>, int, u32)>> = if h.name == TRAK {
                        video_trak_spec(root, moov.subrange(pos + h.header_size, pos + h.size))
                    } else {
                        None
                    };
                    if here is Some {
                        here
                    } else {
                        scan_video_traks_spec(root, moov, pos + h.size)
                    }
                }
            },
        }
    }
}

/// The samples of the file's first AVC video track.
pub open spec fn avc_track_spec(data: Seq<u8>) -> Option<Seq<(Seq<u8>, int, u32)>> {
    match find_box_spec(data, 0, MOOV) {
        None => None,
        Some((_o, a, b)) => scan_video_traks_spec(data, data.subrange(a, b), 0),
    }
}

/// The sample list models the specified `(bytes, time, duration)`
/// triples, each with its split NAL units.
pub open spec fn samples_match(v: Seq<Sample>, model: Seq<(Seq<u8>, int, u32)>) -> bool {
    &&& v.len() == model.len()
    &&& forall|j: int|
        0 <= j < model.len() ==> (#[trigger] v[j]).bytes@ == model[j].0 && v[j].start == model[j].1
            && v[j].dur == model[j].2 && v[j].nalus.deep_view() == sample_nalus_or_empty(
            model[j].0,
        )
}

/// Try one `trak` payload for an AVC video track.
fn parse_trak(root: &[u8], trak: &[u8]) -> (r: Option<Vec<Sample>>)
    ensures
        match r {
            Some(v) => video_trak_spec(root@, trak@) matches Some(model) && samples_match(
                v@,
                model,
            ),
            None => video_trak_spec(root@, trak@) is None,
        },
{
    let mdia = match find_box(trak, MDIA) {
        Some(p) => p,
        None => {
            return None;
        },
    };
    let hdlr = match find_box(mdia, HDLR) {
        Some(p) => p,
        None => {
            return None;
        },
    };
    if hdlr.len() < 12 {
        return None;
    }
    if crate::boxes::read_be32(hdlr, 8) != VIDE {
        return None;
    }
    let mdhd = match find_box(mdia, MDHD) {
        Some(p) => p,
        None => {
            return None;
        },
    };
    if parse_mdhd_timescale(mdhd).is_none() {
        return None;
    }
    let minf = match find_box(mdia, MINF) {
        Some(p) => p,
        None => {
            return None;
        },
    };
    let stbl = match find_box(minf, STBL) {
        Some(p) => p,
        None => {
            return None;
        },
    };
    let stsd = match find_box(stbl, STSD) {
        Some(p) => p,
        None => {
            return None;
        },
    };
    if !find_fourcc(stsd, AVC1) && !find_fourcc(stsd, AVC3) {
        return None;
    }
    let raw = match resolve_stbl_samples(root, stbl) {
        Some(v) => v,
        None => {
            return None;
        },
    };
    let ghost model = stbl_samples_spec(root@, stbl@)->Some_0;
    let mut samples: Vec<Sample> = Vec::new();
    let mut i: usize = 0;
    while i < raw.len()
        invariant
            i <= raw@.len(),
            raw@.len() == model.len(),
            forall|j: int|
                0 <= j < model.len() ==> (#[trigger] raw@[j]).0@ == model[j].0 && raw@[j].1
                    == model[j].1 && raw@[j].2 == model[j].2,
            samples@.len() == i,
            forall|j: int|
                0 <= j < i ==> (#[trigger] samples@[j]).bytes@ == model[j].0 && samples@[j].start
                    == model[j].1 && samples@[j].dur == model[j].2
                    && samples@[j].nalus.deep_view() == sample_nalus_or_empty(model[j].0),
        decreases raw@.len() - i,
    {
        let bytes = raw[i].0.clone();
        let start = raw[i].1;
        let dur = raw[i].2;
        let nalus = match get_nalus_from_sample(bytes.as_slice()) {
            Some(v) => v,
            None => Vec::new(),
        };
        proof {
            assert(nalus.deep_view() =~~= sample_nalus_or_empty(model[i as int].0));
        }
        samples.push(Sample { bytes, start, dur, nalus });
        i = i + 1;
    }
    Some(samples)
}

/// Extract the first AVC video track from an MP4 file held in memory.
pub fn extract_avc_track(data: &[u8]) -> (r: Result<Vec<Sample>, Error>)
    ensures
        match r {
            Ok(v) => avc_track_spec(data@) matches Some(model) && samples_match(v@, model),
            Err(_) => avc_track_spec(data@) is None,
        },
{
    let moov = match find_box(data, MOOV) {
        Some(p) => p,
        None => {
            return Err(Error::InvalidData("no moov"));
        },
    };
    let n = moov.len();
    let mut pos: usize = 0;
    while pos < n && n - pos >= 8
        invariant
            pos <= n == moov@.len(),
            avc_track_spec(data@) == scan_video_traks_spec(data@, moov@, pos as int),
        decreases moov@.len() - pos,
    {
        let h = match read_box_header(moov, pos) {
            Some(h) => h,
            None => {
                return Err(Error::InvalidData("invalid box"));
            },
        };
        proof {
            assert(h.header_size == 8 || h.header_size == 16);
            assert(pos + h.header_size <= n);
        }
        let hs: usize = if h.header_size == 16 {
            16
        } else {
            8
        };
        if h.size == 0 {
            if h.name == TRAK {
                if let Some(v) = parse_trak(data, &moov[pos + hs..n]) {
                    return Ok(v);
                }
            }
            return Err(Error::InvalidData("no video trak"));
        }
        if h.size < h.header_size || h.size > (n - pos) as u64 {
            return Err(Error::InvalidData("size"));
        }
        let size = h.size as usize;
        if h.name == TRAK {
            if let Some(v) = parse_trak(data, &moov[pos + hs..pos + size]) {
                return Ok(v);
            }
        }
        pos = pos + size;
    }
    proof {
        assert(scan_video_traks_spec(data@, moov@, pos as int) is None);
    }
    Err(Error::InvalidData("no video trak"))
}

/// Pick the sample shown for a target time: the first sample whose
/// start time has reached the target, the first sample when none has.
pub fn pick_sample_at(samples: &Vec<Sample>, target: u64) -> (r: Option<usize>)
    ensures
        match r {
            None => samples@.len() == 0,
            Some(i) => samples@.len() > 0 && i < samples@.len() && (if samples@[i as int].start
                >= target {
                forall|j: int| 0 <= j < i ==> samples@[j].start < target
            } else {
                i == 0 && (forall|j: int| 0 <= j < samples@.len() ==> samples@[j].start < target)
            }),
        },
{
    if samples.len() == 0 {
        return None;
    }
    let mut k: usize = 0;
    while k < samples.len()
        invariant
            k <= samples@.len(),
            forall|j: int| 0 <= j < k ==> samples@[j].start < target,
        decreases samples@.len() - k,
    {
        if samples[k].start >= target {
            return Some(k);
        }
        k = k + 1;
    }
    Some(0)
}

} // verus!
