//! Timed-text track selection and extraction.
//!
//! A track matches a subtitle variant when its handler type is in the
//! variant's accepted set and its sample description holds the
//! variant's codec type. The matched track's sample table is resolved
//! into per-sample bytes and timing.

use vstd::prelude::*;
use vstd::utf8::{decode_utf8, valid_utf8};
use crate::boxes::{
    box_header_at, contains_fourcc, find_box, find_box_spec, find_fourcc, read_box_header, HDLR,
    MDHD, MDIA, MINF, MOOV, PAYL, SBTL, STBL, STPP, STSD, SUBT, TEXT, TRAK, TX3G, WVTT,
};
use crate::moov::{mdhd_timescale_spec, parse_mdhd_timescale};
use crate::sampletable::{resolve_stbl_samples, stbl_samples_spec};
use crate::strutil::utf8_to_string;

verus! {

/// Supported subtitle track variants.
#[derive(Clone, Copy, Debug, PartialEq, Eq, Structural)]
pub enum SubtitleVariant {
    /// WebVTT cues carried in `wvtt` samples.
    Wvtt,
    /// TTML documents carried in `stpp` samples.
    Stpp,
    /// 3GPP timed text carried in `tx3g` samples.
    Tx3g,
}

/// A single subtitle sample with its timing, in track-timescale units.
pub struct Sample {
    /// Raw bytes of the subtitle sample.
    pub bytes: Vec<u8>,
    /// Decode time (start).
    pub start: u64,
    /// Duration.
    pub dur: u32,
}

/// A subtitle track: its variant, timescale, and extracted samples.
pub struct Track {
    pub variant: SubtitleVariant,
    pub timescale: u32,
    pub samples: Vec<Sample>,
}

/// The handler types a variant accepts.
pub open spec fn handler_ok(variant: SubtitleVariant, handler: u32) -> bool {
    match variant {
        SubtitleVariant::Wvtt => handler == TEXT || handler == SUBT,
        SubtitleVariant::Stpp => handler == SUBT,
        SubtitleVariant::Tx3g => handler == SBTL || handler == TEXT || handler == SUBT,
    }
}

/// The sample-entry type of a variant.
pub open spec fn variant_codec(variant: SubtitleVariant) -> u32 {
    match variant {
        SubtitleVariant::Wvtt => WVTT,
        SubtitleVariant::Stpp => STPP,
        SubtitleVariant::Tx3g => TX3G,
    }
}

/// What one `trak` payload yields for a variant: the track timescale
/// and the resolved samples, provided the handler and the sample
/// description match and the sample table resolves.
pub open spec fn subs_trak_spec(root: Seq<u8>, trak: Seq<u8>, variant: SubtitleVariant) -> Option<
    (u32, Seq<(Seq<u8>, int, u32)>),
> {
    match find_box_spec(trak, 0, MDIA) {
        None => None,
        Some((_o, ma, mb)) => {
            let mdia = trak.subrange(ma, mb);
            match find_box_spec(mdia, 0, HDLR) {
                None => None,
                Some((_o2, ha, hb)) => {
                    let hdlr = mdia.subrange(ha, hb);
                    if hdlr.len() < 16 || !handler_ok(
                        variant,
                        crate::annexb::be32_at(hdlr, 8) as u32,
                    ) {
                        None
                    } else {
                        match find_box_spec(mdia, 0, MDHD) {
                            None => None,
                            Some((_o3, da, db)) => match mdhd_timescale_spec(
                                mdia.subrange(da, db),
                            ) {
                                None => None,
                                Some(ts) => match find_box_spec(mdia, 0, MINF) {
                                    None => None,
                                    Some((_o4, fa, fb)) => {
                                        let minf = mdia.subrange(fa, fb);
                                        match find_box_spec(minf, 0, STBL) {
                                            None => None,
                                            Some((_o5, sa, sb)) => {
                                                let stbl = minf.subrange(sa, sb);
                                                match find_box_spec(stbl, 0, STSD) {
                                                    None => None,
                                                    Some((_o6, ta, tb)) => {
                                                        if !contains_fourcc(
                                                            stbl.subrange(ta, tb),
                                                            variant_codec(variant),
                                                        ) {
                                                            None
                                                        } else {
                                                            match stbl_samples_spec(root, stbl) {
                                                                None => None,
                                                                Some(samples) => Some(
                                                                    (ts, samples),
                                                                ),
                                                            }
                                                        }
                                                    },
                                                }
                                            },
                                        }
                                    },
                                },
                            },
                        }
                    }
                },
            }
        },
    }
}

/// The first matching track among the `trak` boxes of a `moov`
/// payload, scanning from `pos`; a `trak` that does not match or does
/// not resolve is passed over.
pub open spec fn scan_traks_spec(
    root: Seq<u8>,
    moov: Seq<u8>,
    pos: int,
    variant: SubtitleVariant,
) -> Option<(u32, Seq<(Seq<u8>, int, u32)>)>
    decreases moov.len() - pos,
{
    if pos < 0 || pos + 8 > moov.len() {
        None
    } else {
        match box_header_at(moov, pos) {
            None => None,
            Some(h) => {
                if h.size == 0 {
                    if h.name == TRAK {
                        subs_trak_spec(
                            root,
                            moov.subrange(pos + h.header_size, moov.len() as int),
                            variant,
                        )
                    } else {
                        None
                    }
                } else if h.size < h.header_size || h.size > moov.len() - pos {
                    None
                } else {
                    let here: Option<(u32, Seq<(Seq<u8>, int, u32)>)> = if h.name == TRAK {
                        subs_trak_spec(
                            root,
                            moov.subrange(pos + h.header_size, pos + h.size),
                            variant,
                        )
                    } else {
                        None
                    };
                    if here is Some {
                        here
                    } else {
                        scan_traks_spec(root, moov, pos + h.size, variant)
                    }
                }
            },
        }
    }
}

/// The subtitle track of the file for a variant: the first matching
/// `trak` of the first `moov` box.
pub open spec fn subs_track_spec(data: Seq<u8>, variant: SubtitleVariant) -> Option<
    (u32, Seq<(Seq<u8>, int, u32)>),
> {
    match find_box_spec(data, 0, MOOV) {
        None => None,
        Some((_o, a, b)) => scan_traks_spec(data, data.subrange(a, b), 0, variant),
    }
}

/// A track value models the specified `(timescale, samples)` pair.
pub open spec fn track_matches(
    t: &Track,
    variant: SubtitleVariant,
    model: (u32, Seq<(Seq<u8>, int, u32)>),
) -> bool {
    &&& t.variant == variant
    &&& t.timescale == model.0
    &&& t.samples@.len() == model.1.len()
    &&& forall|j: int|
        0 <= j < model.1.len() ==> (#[trigger] t.samples@[j]).bytes@ == model.1[j].0
            && t.samples@[j].start == model.1[j].1 && t.samples@[j].dur == model.1[j].2
}

/// Try one `trak` payload for a variant.
fn parse_trak(root: &[u8], trak: &[u8], variant: SubtitleVariant) -> (r: Option<Track>)
    ensures
        match r {
            Some(t) => subs_trak_spec(root@, trak@, variant) matches Some(model) && track_matches(
                &t,
                variant,
                model,
            ),
            None => subs_trak_spec(root@, trak@, variant) is None,
        },
{
    let mdia = match find_box(trak, MDIA) {
        Some(p) => p,
        None => {
            return None;
        },
    };
    let hdlr = match find_box(mdia, HDLR) {
        Some(p) => p,
        None => {
            return None;
        },
    };
    if hdlr.len() < 16 {
        return None;
    }
    let handler = crate::boxes::read_be32(hdlr, 8);
    let ok = match variant {
        SubtitleVariant::Wvtt => handler == TEXT || handler == SUBT,
        SubtitleVariant::Stpp => handler == SUBT,
        SubtitleVariant::Tx3g => handler == SBTL || handler == TEXT || handler == SUBT,
    };
    if !ok {
        return None;
    }
    let mdhd = match find_box(mdia, MDHD) {
        Some(p) => p,
        None => {
            return None;
        },
    };
    let timescale = match parse_mdhd_timescale(mdhd) {
        Some(ts) => ts,
        None => {
            return None;
        },
    };
    let minf = match find_box(mdia, MINF) {
        Some(p) => p,
        None => {
            return None;
        },
    };
    let stbl = match find_box(minf, STBL) {
        Some(p) => p,
        None => {
            return None;
        },
    };
    let stsd = match find_box(stbl, STSD) {
        Some(p) => p,
        None => {
            return None;
        },
    };
    let cc = match variant {
        SubtitleVariant::Wvtt => WVTT,
        SubtitleVariant::Stpp => STPP,
        SubtitleVariant::Tx3g => TX3G,
    };
    if !find_fourcc(stsd, cc) {
        return None;
    }
    let raw = match resolve_stbl_samples(root, stbl) {
        Some(v) => v,
        None => {
            return None;
        },
    };
    let ghost model = stbl_samples_spec(root@, stbl@)->Some_0;
    let mut samples: Vec<Sample> = Vec::new();
    let mut i: usize = 0;
    while i < raw.len()
        invariant
            i <= raw@.len(),
            raw@.len() == model.len(),
            forall|j: int|
                0 <= j < model.len() ==> (#[trigger] raw@[j]).0@ == model[j].0 && raw@[j].1
                    == model[j].1 && raw@[j].2 == model[j].2,
            samples@.len() == i,
            forall|j: int|
                0 <= j < i ==> (#[trigger] samples@[j]).bytes@ == model[j].0 && samples@[j].start
                    == model[j].1 && samples@[j].dur == model[j].2,
        decreases raw@.len() - i,
    {
        let bytes = raw[i].0.clone();
        let start = raw[i].1;
        let dur = raw[i].2;
        samples.push(Sample { bytes, start, dur });
        i = i + 1;
    }
    Some(Track { variant, timescale, samples })
}

/// Find the first track of a variant in the file.
fn find_track_inner(data: &[u8], variant: SubtitleVariant) -> (r: Option<Track>)
    ensures
        match r {
            Some(t) => subs_track_spec(data@, variant) matches Some(model) && track_matches(
                &t,
                variant,
                model,
            ),
            None => subs_track_spec(data@, variant) is None,
        },
{
    let moov = match find_box(data, MOOV) {
        Some(p) => p,
        None => {
            return None;
        },
    };
    let n = moov.len();
    let mut pos: usize = 0;
    while pos < n && n - pos >= 8
        invariant
            pos <= n == moov@.len(),
            subs_track_spec(data@, variant) == scan_traks_spec(data@, moov@, pos as int, variant),
        decreases moov@.len() - pos,
    {
        let h = match read_box_header(moov, pos) {
            Some(h) => h,
            None => {
                return None;
            },
        };
        proof {
            assert(h.header_size == 8 || h.header_size == 16);
            assert(pos + h.header_size <= n);
        }
        let hs: usize = if h.header_size == 16 {
            16
        } else {
            8
        };
        if h.size == 0 {
            if h.name == TRAK {
                return parse_trak(data, &moov[pos + hs..n], variant);
            }
            return None;
        }
        if h.size < h.header_size || h.size > (n - pos) as u64 {
            return None;
        }
        let size = h.size as usize;
        if h.name == TRAK {
            if let Some(t) = parse_trak(data, &moov[pos + hs..pos + size], variant) {
                return Some(t);
            }
        }
        pos = pos + size;
    }
    proof {
        assert(scan_traks_spec(data@, moov@, pos as int, variant) is None);
    }
    None
}

/// Find the WebVTT subtitle track of the file.
pub fn find_wvtt_track(data: &[u8]) -> (r: Result<Track, &'static str>)
    ensures
        match r {
            Ok(t) => subs_track_spec(data@, SubtitleVariant::Wvtt) matches Some(model)
                && track_matches(&t, SubtitleVariant::Wvtt, model),
            Err(_) => subs_track_spec(data@, SubtitleVariant::Wvtt) is None,
        },
{
    match find_track_inner(data, SubtitleVariant::Wvtt) {
        Some(t) => Ok(t),
        None => Err("no wvtt track"),
    }
}

/// Find the TTML subtitle track of the file.
pub fn find_stpp_track(data: &[u8]) -> (r: Result<Track, &'static str>)
    ensures
        match r {
            Ok(t) => subs_track_spec(data@, SubtitleVariant::Stpp) matches Some(model)
                && track_matches(&t, SubtitleVariant::Stpp, model),
            Err(_) => subs_track_spec(data@, SubtitleVariant::Stpp) is None,
        },
{
    match find_track_inner(data, SubtitleVariant::Stpp) {
        Some(t) => Ok(t),
        None => Err("no stpp track"),
    }
}

/// Find the 3GPP timed-text track of the file.
pub fn find_tx3g_track(data: &[u8]) -> (r: Result<Track, &'static str>)
    ensures
        match r {
            Ok(t) => subs_track_spec(data@, SubtitleVariant::Tx3g) matches Some(model)
                && track_matches(&t, SubtitleVariant::Tx3g, model),
            Err(_) => subs_track_spec(data@, SubtitleVariant::Tx3g) is None,
        },
{
    match find_track_inner(data, SubtitleVariant::Tx3g) {
        Some(t) => Ok(t),
        None => Err("no tx3g track"),
    }
}

/// The text of a WebVTT sample: the payload of its first `payl` box
/// whose bytes are valid UTF-8, scanning from `pos`.
pub open spec fn wvtt_text_spec(sample: Seq<u8>, pos: int) -> Option<Seq<u8>>
    decreases sample.len() - pos,
{
    if pos < 0 || pos + 8 > sample.len() {
        None
    } else {
        match box_header_at(sample, pos) {
            None => None,
            Some(h) => {
                if h.size == 0 {
                    let payload = sample.subrange(pos + h.header_size, sample.len() as int);
                    if h.name == PAYL && valid_utf8(payload) {
                        Some(payload)
                    } else {
                        None
                    }
                } else if h.size < h.header_size || h.size > sample.len() - pos {
                    None
                } else {
                    let payload = sample.subrange(pos + h.header_size, pos + h.size);
                    if h.name == PAYL && valid_utf8(payload) {
                        Some(payload)
                    } else {
                        wvtt_text_spec(sample, pos + h.size)
                    }
                }
            },
        }
    }
}

/// The text bytes of a subtitle sample, by variant: the first valid
/// `payl` box for WebVTT; the whole sample for TTML; the 2-byte
/// length-prefixed text for 3GPP timed text.
pub open spec fn sample_text_spec(variant: SubtitleVariant, sample: Seq<u8>) -> Option<Seq<u8>> {
    match variant {
        SubtitleVariant::Wvtt => wvtt_text_spec(sample, 0),
        SubtitleVariant::Stpp => if valid_utf8(sample) {
            Some(sample)
        } else {
            None
        },
        SubtitleVariant::Tx3g => {
            if sample.len() < 2 {
                None
            } else {
                let l = crate::decconf::be16_at(sample, 0);
                let end: int = if l <= sample.len() - 2 {
                    2 + l
                } else {
                    sample.len() as int
                };
                let t = sample.subrange(2, end);
                if valid_utf8(t) {
                    Some(t)
                } else {
                    None
                }
            }
        },
    }
}

/// Extract the text of a WebVTT sample.
fn extract_wvtt_text(sample: &[u8]) -> (r: Option<String>)
    ensures
        crate::metadata::text_matches(r, wvtt_text_spec(sample@, 0)),
{
    let n = sample.len();
    let mut pos: usize = 0;
    while pos < n && n - pos >= 8
        invariant
            pos <= n == sample@.len(),
            wvtt_text_spec(sample@, 0) == wvtt_text_spec(sample@, pos as int),
        decreases sample@.len() - pos,
    {
        let h = match read_box_header(sample, pos) {
            Some(h) => h,
            None => {
                return None;
            },
        };
        proof {
            assert(h.header_size == 8 || h.header_size == 16);
            assert(pos + h.header_size <= n);
        }
        let hs: usize = if h.header_size == 16 {
            16
        } else {
            8
        };
        if h.size == 0 {
            if h.name == PAYL {
                return utf8_to_string(&sample[pos + hs..n]);
            }
            return None;
        }
        if h.size < h.header_size || h.size > (n - pos) as u64 {
            return None;
        }
        let size = h.size as usize;
        if h.name == PAYL {
            let got = utf8_to_string(&sample[pos + hs..pos + size]);
            if got.is_some() {
                return got;
            }
        }
        pos = pos + size;
    }
    None
}

/// Extract the text of a TTML sample: the whole sample as UTF-8.
fn extract_stpp_text(sample: &[u8]) -> (r: Option<String>)
    ensures
        crate::metadata::text_matches(
            r,
            if valid_utf8(sample@) {
                Some(sample@)
            } else {
                None
            },
        ),
{
    proof {
        assert(sample@.subrange(0, sample@.len() as int) =~= sample@);
    }
    utf8_to_string(&sample[0..sample.len()])
}

/// Extract the text of a 3GPP timed-text sample: a 2-byte big-endian
/// length, then the text.
fn extract_tx3g_text(sample: &[u8]) -> (r: Option<String>)
    ensures
        crate::metadata::text_matches(
            r,
            sample_text_spec(SubtitleVariant::Tx3g, sample@),
        ),
{
    let n = sample.len();
    if n < 2 {
        return None;
    }
    let l = (sample[0] as usize) * 0x100 + (sample[1] as usize);
    let end: usize = if l <= n - 2 {
        2 + l
    } else {
        n
    };
    utf8_to_string(&sample[2..end])
}

/// Decode a subtitle sample's text, by variant.
pub fn extract_text(variant: SubtitleVariant, sample: &[u8]) -> (r: Option<String>)
    ensures
        crate::metadata::text_matches(r, sample_text_spec(variant, sample@)),
{
    match variant {
        SubtitleVariant::Wvtt => extract_wvtt_text(sample),
        SubtitleVariant::Stpp => extract_stpp_text(sample),
        SubtitleVariant::Tx3g => extract_tx3g_text(sample),
    }
}

/// The milliseconds a track time stands for: 0 under a zero timescale.
pub open spec fn millis_of(ts: u64, timescale: u32) -> int {
    if timescale == 0 {
        0
    } else {
        ts * 1000 / (timescale as int)
    }
}

/// Split a track time into hours, minutes, seconds and milliseconds,
/// rounding the milliseconds down.
pub fn timestamp_parts(ts: u64, timescale: u32) -> (r: (u64, u64, u64, u64))
    ensures
        ({
            let millis = millis_of(ts, timescale);
            &&& r.0 == millis / 3_600_000
            &&& r.1 == millis % 3_600_000 / 60_000
            &&& r.2 == millis % 60_000 / 1000
            &&& r.3 == millis % 1000
        }),
{
    let millis: u128 = if timescale == 0 {
        0
    } else {
        (ts as u128) * 1000 / (timescale as u128)
    };
    proof {
        if timescale != 0 {
            vstd::arithmetic::div_mod::lemma_div_is_ordered_by_denominator(
                ts * 1000,
                1,
                timescale as int,
            );
        }
        assert(millis <= u64::MAX as u128 * 1000);
        vstd::arithmetic::div_mod::lemma_div_is_ordered_by_denominator(
            millis as int,
            1000,
            3_600_000,
        );
        vstd::arithmetic::div_mod::lemma_div_is_ordered(
            millis as int,
            u64::MAX as int * 1000,
            1000,
        );
    }
    let h = (millis / 3_600_000) as u64;
    let m = (millis % 3_600_000 / 60_000) as u64;
    let s = (millis % 60_000 / 1000) as u64;
    let ms = (millis % 1000) as u64;
    (h, m, s, ms)
}

} // verus!
