//! Movie metadata: the `mvhd` duration and the `udta/meta/ilst` tags.
//!
//! Each tag box carries a `data` box whose payload is 8 bytes of type
//! and locale followed by UTF-8 text. When a tag occurs more than once,
//! the last occurrence with valid text wins. A malformed child box ends
//! the scan of its container, keeping what was found before it.

use vstd::prelude::*;
use vstd::utf8::{decode_utf8, valid_utf8};
use crate::boxes::{
    box_header_at, find_box, find_box_spec, read_box_header, DATA, HDLR, ILST, META, MOOV, MVHD,
    TAG_ALB, TAG_ART, TAG_CPRT, TAG_NAM, UDTA,
};
use crate::moov::{mvhd_duration_spec, parse_mvhd_duration};
use crate::strutil::utf8_to_string;
use crate::annexb::be32_at;

verus! {

/// Basic metadata of an MP4 file. The duration is kept exact, as
/// `(duration, timescale)` in movie-timescale units.
pub struct Metadata {
    pub title: Option<String>,
    pub artist: Option<String>,
    pub album: Option<String>,
    pub copyright: Option<String>,
    pub duration: Option<(u64, u32)>,
    pub size: u64,
}

/// The text of a tag box: the bytes of its first `data` box after the
/// 8 type-and-locale bytes, when they are valid UTF-8.
pub open spec fn name_box_spec(data: Seq<u8>) -> Option<Seq<u8>> {
    match find_box_spec(data, 0, DATA) {
        None => None,
        Some((_o, a, b)) => {
            if b - a < 8 {
                None
            } else {
                let t = data.subrange(a + 8, b);
                if valid_utf8(t) {
                    Some(t)
                } else {
                    None
                }
            }
        },
    }
}

/// The later value wins when both are present.
pub open spec fn pick(a: Option<Seq<u8>>, b: Option<Seq<u8>>) -> Option<Seq<u8>> {
    if b is Some {
        b
    } else {
        a
    }
}

/// The four tag texts `(title, artist, album, copyright)` found in an
/// `ilst` payload from `pos` on.
pub open spec fn ilst_spec(data: Seq<u8>, pos: int) -> (
    Option<Seq<u8>>,
    Option<Seq<u8>>,
    Option<Seq<u8>>,
    Option<Seq<u8>>,
)
    decreases data.len() - pos,
{
    if pos < 0 || pos + 8 > data.len() {
        (None, None, None, None)
    } else {
        match box_header_at(data, pos) {
            None => (None, None, None, None),
            Some(h) => {
                if h.size == 0 {
                    let payload = data.subrange(pos + h.header_size, data.len() as int);
                    ilst_tag(h.name, payload)
                } else if h.size < h.header_size || h.size > data.len() - pos {
                    (None, None, None, None)
                } else {
                    let payload = data.subrange(pos + h.header_size, pos + h.size);
                    let cur = ilst_tag(h.name, payload);
                    let rest = ilst_spec(data, pos + h.size);
                    (
                        pick(cur.0, rest.0),
                        pick(cur.1, rest.1),
                        pick(cur.2, rest.2),
                        pick(cur.3, rest.3),
                    )
                }
            },
        }
    }
}

/// The contribution of a single tag box.
pub open spec fn ilst_tag(name: u32, payload: Seq<u8>) -> (
    Option<Seq<u8>>,
    Option<Seq<u8>>,
    Option<Seq<u8>>,
    Option<Seq<u8>>,
) {
    if name == TAG_NAM {
        (name_box_spec(payload), None, None, None)
    } else if name == TAG_ART {
        (None, name_box_spec(payload), None, None)
    } else if name == TAG_ALB {
        (None, None, name_box_spec(payload), None)
    } else if name == TAG_CPRT {
        (None, None, None, name_box_spec(payload))
    } else {
        (None, None, None, None)
    }
}

/// The tags of a `meta` payload: a 4-byte version-and-flags prefix is
/// skipped unless the payload opens with the letters of `hdlr`.
pub open spec fn meta_spec(data: Seq<u8>) -> (
    Option<Seq<u8>>,
    Option<Seq<u8>>,
    Option<Seq<u8>>,
    Option<Seq<u8>>,
) {
    if data.len() < 4 {
        (None, None, None, None)
    } else {
        let body = if be32_at(data, 0) == HDLR {
            data
        } else {
            data.skip(4)
        };
        match find_box_spec(body, 0, ILST) {
            None => (None, None, None, None),
            Some((_o, a, b)) => ilst_spec(body.subrange(a, b), 0),
        }
    }
}

/// The tags under `udta`: those of its first `meta` box.
pub open spec fn udta_spec(data: Seq<u8>) -> (
    Option<Seq<u8>>,
    Option<Seq<u8>>,
    Option<Seq<u8>>,
    Option<Seq<u8>>,
) {
    match find_box_spec(data, 0, META) {
        None => (None, None, None, None),
        Some((_o, a, b)) => meta_spec(data.subrange(a, b)),
    }
}

/// The tags of a whole `moov` payload.
pub open spec fn moov_tags_spec(data: Seq<u8>) -> (
    Option<Seq<u8>>,
    Option<Seq<u8>>,
    Option<Seq<u8>>,
    Option<Seq<u8>>,
) {
    match find_box_spec(data, 0, UDTA) {
        None => (None, None, None, None),
        Some((_o, a, b)) => udta_spec(data.subrange(a, b)),
    }
}

/// The duration of a `moov` payload, from its `mvhd` box.
pub open spec fn moov_duration_spec(data: Seq<u8>) -> Option<(u64, u32)> {
    match find_box_spec(data, 0, MVHD) {
        None => None,
        Some((_o, a, b)) => mvhd_duration_spec(data.subrange(a, b)),
    }
}

/// An optional decoded text matches an optional byte sequence when it
/// is exactly the sequence's UTF-8 decoding.
pub open spec fn text_matches(s: Option<String>, b: Option<Seq<u8>>) -> bool {
    match (s, b) {
        (Some(s), Some(b)) => valid_utf8(b) && s@ == decode_utf8(b),
        (None, None) => true,
        _ => false,
    }
}

/// Parse one tag box: the text of its `data` box.
fn parse_name_box(data: &[u8]) -> (r: Option<String>)
    ensures
        text_matches(r, name_box_spec(data@)),
{
    match find_box(data, DATA) {
        None => None,
        Some(payload) => {
            if payload.len() < 8 {
                None
            } else {
                proof {
                    let (_o, a, b) = find_box_spec(data@, 0, DATA)->Some_0;
                    assert(payload@.subrange(8, payload@.len() as int) =~= data@.subrange(
                        a + 8,
                        b,
                    ));
                }
                utf8_to_string(&payload[8..payload.len()])
            }
        },
    }
}

/// Parse the tag boxes of an `ilst` payload.
fn parse_ilst(data: &[u8]) -> (r: (Option<String>, Option<String>, Option<String>, Option<String>))
    ensures
        text_matches(r.0, ilst_spec(data@, 0).0),
        text_matches(r.1, ilst_spec(data@, 0).1),
        text_matches(r.2, ilst_spec(data@, 0).2),
        text_matches(r.3, ilst_spec(data@, 0).3),
{
    let n = data.len();
    let mut title: Option<String> = None;
    let mut artist: Option<String> = None;
    let mut album: Option<String> = None;
    let mut copyright: Option<String> = None;
    let ghost full = ilst_spec(data@, 0);
    let mut pos: usize = 0;
    let ghost gt: Option<Seq<u8>> = None;
    let ghost ga: Option<Seq<u8>> = None;
    let ghost gl: Option<Seq<u8>> = None;
    let ghost gc: Option<Seq<u8>> = None;
    let mut gtt = Ghost((gt, ga, gl, gc));
    while pos < n && n - pos >= 8
        invariant
            pos <= n == data@.len(),
            text_matches(title, gtt@.0),
            text_matches(artist, gtt@.1),
            text_matches(album, gtt@.2),
            text_matches(copyright, gtt@.3),
            full.0 == pick(gtt@.0, ilst_spec(data@, pos as int).0),
            full.1 == pick(gtt@.1, ilst_spec(data@, pos as int).1),
            full.2 == pick(gtt@.2, ilst_spec(data@, pos as int).2),
            full.3 == pick(gtt@.3, ilst_spec(data@, pos as int).3),
            full == ilst_spec(data@, 0),
        decreases data@.len() - pos,
    {
        let h = match read_box_header(data, pos) {
            Some(h) => h,
            None => {
                proof {
                    assert(ilst_spec(data@, pos as int) == (
                        None::<Seq<u8>>,
                        None::<Seq<u8>>,
                        None::<Seq<u8>>,
                        None::<Seq<u8>>,
                    ));
                }
                return (title, artist, album, copyright);
            },
        };
        proof {
            assert(h.header_size == 8 || h.header_size == 16);
            assert(pos + h.header_size <= n);
        }
        let hs: usize = if h.header_size == 16 {
            16
        } else {
            8
        };
        if h.size == 0 {
            // The box runs to the end of the container; it is the last.
            let payload = &data[pos + hs..n];
            let got = parse_name_box(payload);
            proof {
                assert(ilst_spec(data@, pos as int) == ilst_tag(
                    h.name,
                    data@.subrange(pos + h.header_size, data@.len() as int),
                ));
            }
            if h.name == TAG_NAM {
                if got.is_some() {
                    title = got;
                    proof {
                        gtt@ = (name_box_spec(payload@), gtt@.1, gtt@.2, gtt@.3);
                    }
                }
                proof {
                    if got is None {
                        assert(name_box_spec(payload@) is None);
                    }
                }
            } else if h.name == TAG_ART {
                if got.is_some() {
                    artist = got;
                    proof {
                        gtt@ = (gtt@.0, name_box_spec(payload@), gtt@.2, gtt@.3);
                    }
                }
            } else if h.name == TAG_ALB {
                if got.is_some() {
                    album = got;
                    proof {
                        gtt@ = (gtt@.0, gtt@.1, name_box_spec(payload@), gtt@.3);
                    }
                }
            } else if h.name == TAG_CPRT {
                if got.is_some() {
                    copyright = got;
                    proof {
                        gtt@ = (gtt@.0, gtt@.1, gtt@.2, name_box_spec(payload@));
                    }
                }
            }
            return (title, artist, album, copyright);
        }
        if h.size < h.header_size as u64 || h.size > (n - pos) as u64 {
            proof {
                assert(ilst_spec(data@, pos as int) == (
                    None::<Seq<u8>>,
                    None::<Seq<u8>>,
                    None::<Seq<u8>>,
                    None::<Seq<u8>>,
                ));
            }
            return (title, artist, album, copyright);
        }
        let size = h.size as usize;
        let payload = &data[pos + hs..pos + size];
        let got = parse_name_box(payload);
        proof {
            assert(data@.subrange(pos + h.header_size, pos + h.size) == payload@);
        }
        if h.name == TAG_NAM {
            if got.is_some() {
                title = got;
                proof {
                    gtt@ = (name_box_spec(payload@), gtt@.1, gtt@.2, gtt@.3);
                }
            }
        } else if h.name == TAG_ART {
            if got.is_some() {
                artist = got;
                proof {
                    gtt@ = (gtt@.0, name_box_spec(payload@), gtt@.2, gtt@.3);
                }
            }
        } else if h.name == TAG_ALB {
            if got.is_some() {
                album = got;
                proof {
                    gtt@ = (gtt@.0, gtt@.1, name_box_spec(payload@), gtt@.3);
                }
            }
        } else if h.name == TAG_CPRT {
            if got.is_some() {
                copyright = got;
                proof {
                    gtt@ = (gtt@.0, gtt@.1, gtt@.2, name_box_spec(payload@));
                }
            }
        }
        pos = pos + size;
    }
    proof {
        assert(ilst_spec(data@, pos as int) == (
            None::<Seq<u8>>,
            None::<Seq<u8>>,
            None::<Seq<u8>>,
            None::<Seq<u8>>,
        ));
    }
    (title, artist, album, copyright)
}

/// Parse the tags of a `meta` payload.
fn parse_meta(data: &[u8]) -> (r: (Option<String>, Option<String>, Option<String>, Option<String>))
    ensures
        text_matches(r.0, meta_spec(data@).0),
        text_matches(r.1, meta_spec(data@).1),
        text_matches(r.2, meta_spec(data@).2),
        text_matches(r.3, meta_spec(data@).3),
{
    let n = data.len();
    if n < 4 {
        return (None, None, None, None);
    }
    let first = crate::boxes::read_be32(data, 0);
    let body: &[u8] = if first == HDLR {
        data
    } else {
        &data[4..n]
    };
    proof {
        if first != HDLR {
            assert(body@ =~= data@.skip(4));
        }
    }
    match find_box(body, ILST) {
        None => (None, None, None, None),
        Some(payload) => parse_ilst(payload),
    }
}

/// Read the basic metadata of a whole MP4 file held in memory: the
/// movie duration from `mvhd`, the title, artist, album and copyright
/// tags from `udta/meta/ilst`, and the input size.
pub fn read_mp4_metadata(data: &[u8]) -> (r: Metadata)
    ensures
        r.size == data@.len(),
        match find_box_spec(data@, 0, MOOV) {
            None => r.duration is None && r.title is None && r.artist is None && r.album is None
                && r.copyright is None,
            Some((_o, a, b)) => {
                let moov = data@.subrange(a, b);
                &&& r.duration == moov_duration_spec(moov)
                &&& text_matches(r.title, moov_tags_spec(moov).0)
                &&& text_matches(r.artist, moov_tags_spec(moov).1)
                &&& text_matches(r.album, moov_tags_spec(moov).2)
                &&& text_matches(r.copyright, moov_tags_spec(moov).3)
            },
        },
{
    let size = data.len() as u64;
    let moov = match find_box(data, MOOV) {
        None => {
            return Metadata {
                title: None,
                artist: None,
                album: None,
                copyright: None,
                duration: None,
                size,
            };
        },
        Some(m) => m,
    };
    let duration = match find_box(moov, MVHD) {
        None => None,
        Some(mvhd) => parse_mvhd_duration(mvhd),
    };
    let (title, artist, album, copyright) = match find_box(moov, UDTA) {
        None => (None, None, None, None),
        Some(udta) => {
            match find_box(udta, META) {
                None => (None, None, None, None),
                Some(meta) => parse_meta(meta),
            }
        },
    };
    Metadata { title, artist, album, copyright, duration, size }
}

} // verus!
