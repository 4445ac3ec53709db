use mp4ff::{
    extract_avc_track, extract_decoder_config, extract_text, find_box, find_box_range,
    find_stpp_track, find_tx3g_track, find_video_track, find_wvtt_track, parse_box_header,
    parse_mdhd_timescale, parse_stts_entries, read_box_header, read_mp4_metadata, SubtitleVariant,
};

fn fourcc(name: &[u8; 4]) -> u32 {
    u32::from_be_bytes(*name)
}

/// A box with a 32-bit size: header plus payload.
fn boxed(name: &[u8; 4], payload: &[u8]) -> Vec<u8> {
    let mut out = Vec::new();
    out.extend_from_slice(&((payload.len() as u32 + 8).to_be_bytes()));
    out.extend_from_slice(name);
    out.extend_from_slice(payload);
    out
}

fn concat(parts: &[Vec<u8>]) -> Vec<u8> {
    let mut out = Vec::new();
    for p in parts {
        out.extend_from_slice(p);
    }
    out
}

#[test]
fn test_box_walker() {
    let inner = boxed(b"mdat", &[1, 2, 3, 4]);
    let file = concat(&[boxed(b"free", &[9, 9]), inner]);
    let (outer, a, b) = find_box_range(&file, fourcc(b"mdat")).unwrap();
    assert_eq!(outer, 10);
    assert_eq!(a, 18);
    assert_eq!(b, 22);
    assert_eq!(find_box(&file, fourcc(b"mdat")).unwrap(), &[1, 2, 3, 4]);
    assert!(find_box(&file, fourcc(b"moov")).is_none());
    let h = read_box_header(&file, 0).unwrap();
    assert_eq!(h.name, fourcc(b"free"));
    assert_eq!(h.size, 10);
    assert_eq!(h.header_size, 8);
    let mut pos = 0usize;
    let (name, size) = parse_box_header(&file, &mut pos).unwrap();
    assert_eq!(name, fourcc(b"free"));
    assert_eq!(size, 10);
    assert_eq!(pos, 8);
}

#[test]
fn test_box_walker_largesize() {
    // size == 1 switches to a 64-bit size after the type.
    let mut file = Vec::new();
    file.extend_from_slice(&1u32.to_be_bytes());
    file.extend_from_slice(b"mdat");
    file.extend_from_slice(&20u64.to_be_bytes());
    file.extend_from_slice(&[7, 8, 9, 10]);
    let (outer, a, b) = find_box_range(&file, fourcc(b"mdat")).unwrap();
    assert_eq!((outer, a, b), (0, 16, 20));
    assert_eq!(find_box(&file, fourcc(b"mdat")).unwrap(), &[7, 8, 9, 10]);
}

#[test]
fn test_mdhd_timescale() {
    // Version 0: 4 bytes version and flags, two 32-bit times, then the
    // timescale.
    let mut mdhd = vec![0u8, 0, 0, 0];
    mdhd.extend_from_slice(&0u32.to_be_bytes());
    mdhd.extend_from_slice(&0u32.to_be_bytes());
    mdhd.extend_from_slice(&90000u32.to_be_bytes());
    mdhd.extend_from_slice(&0u32.to_be_bytes());
    assert_eq!(parse_mdhd_timescale(&mdhd), Some(90000));
    assert_eq!(parse_mdhd_timescale(&[0u8; 4]), None);
}

#[test]
fn test_stts_entries() {
    let mut stts = vec![0u8, 0, 0, 0];
    stts.extend_from_slice(&2u32.to_be_bytes());
    stts.extend_from_slice(&3u32.to_be_bytes());
    stts.extend_from_slice(&100u32.to_be_bytes());
    stts.extend_from_slice(&1u32.to_be_bytes());
    stts.extend_from_slice(&50u32.to_be_bytes());
    let entries = parse_stts_entries(&stts).unwrap();
    assert_eq!(entries, vec![(3, 100), (1, 50)]);
    // A declared count that runs past the payload is malformed.
    let mut bad = vec![0u8, 0, 0, 0];
    bad.extend_from_slice(&9u32.to_be_bytes());
    assert!(parse_stts_entries(&bad).is_none());
}

#[test]
fn test_metadata_duration() {
    // mvhd version 0: timescale 1000, duration 8000.
    let mut mvhd = vec![0u8, 0, 0, 0];
    mvhd.extend_from_slice(&0u32.to_be_bytes());
    mvhd.extend_from_slice(&0u32.to_be_bytes());
    mvhd.extend_from_slice(&1000u32.to_be_bytes());
    mvhd.extend_from_slice(&8000u32.to_be_bytes());
    let moov = boxed(b"moov", &boxed(b"mvhd", &mvhd));
    let md = read_mp4_metadata(&moov);
    assert_eq!(md.duration, Some((8000, 1000)));
    let (dur, ts) = md.duration.unwrap();
    let seconds = dur as f64 / ts as f64;
    assert_eq!(seconds, 8.0);
    assert_eq!(md.size, moov.len() as u64);
    assert!(md.title.is_none());
}

#[test]
fn test_metadata_tags() {
    // moov/udta/meta(ilst(©nam(data))), with a version header on meta.
    let text = b"A Title";
    let mut data_payload = vec![0u8; 8];
    data_payload.extend_from_slice(text);
    let nam = boxed(&[0xA9, b'n', b'a', b'm'], &boxed(b"data", &data_payload));
    let ilst = boxed(b"ilst", &nam);
    let mut meta_payload = vec![0u8, 0, 0, 0];
    meta_payload.extend_from_slice(&ilst);
    let meta = boxed(b"meta", &meta_payload);
    let udta = boxed(b"udta", &meta);
    let file = boxed(b"moov", &udta);
    let md = read_mp4_metadata(&file);
    assert_eq!(md.title.as_deref(), Some("A Title"));
    assert!(md.artist.is_none());
    assert!(md.album.is_none());
    assert!(md.copyright.is_none());
}

/// A whole sample-table block for one track: two samples of the given
/// sizes and durations, both in one chunk at `chunk_offset`.
fn build_stbl(codec: &[u8; 4], sizes: &[u32], durs: &[(u32, u32)], chunk_offset: u32) -> Vec<u8> {
    let stsd_entry = boxed(codec, &[0u8; 8]);
    let mut stsd_payload = vec![0u8, 0, 0, 0];
    stsd_payload.extend_from_slice(&1u32.to_be_bytes());
    stsd_payload.extend_from_slice(&stsd_entry);
    let stsd = boxed(b"stsd", &stsd_payload);

    let mut stsz_payload = vec![0u8, 0, 0, 0];
    stsz_payload.extend_from_slice(&0u32.to_be_bytes());
    stsz_payload.extend_from_slice(&(sizes.len() as u32).to_be_bytes());
    for s in sizes {
        stsz_payload.extend_from_slice(&s.to_be_bytes());
    }
    let stsz = boxed(b"stsz", &stsz_payload);

    let mut stco_payload = vec![0u8, 0, 0, 0];
    stco_payload.extend_from_slice(&1u32.to_be_bytes());
    stco_payload.extend_from_slice(&chunk_offset.to_be_bytes());
    let stco = boxed(b"stco", &stco_payload);

    let mut stsc_payload = vec![0u8, 0, 0, 0];
    stsc_payload.extend_from_slice(&1u32.to_be_bytes());
    stsc_payload.extend_from_slice(&1u32.to_be_bytes());
    stsc_payload.extend_from_slice(&(sizes.len() as u32).to_be_bytes());
    stsc_payload.extend_from_slice(&1u32.to_be_bytes());
    let stsc = boxed(b"stsc", &stsc_payload);

    let mut stts_payload = vec![0u8, 0, 0, 0];
    stts_payload.extend_from_slice(&(durs.len() as u32).to_be_bytes());
    for (count, delta) in durs {
        stts_payload.extend_from_slice(&count.to_be_bytes());
        stts_payload.extend_from_slice(&delta.to_be_bytes());
    }
    let stts = boxed(b"stts", &stts_payload);

    boxed(b"stbl", &concat(&[stsd, stsz, stco, stsc, stts]))
}

fn build_track_file(
    handler: &[u8; 4],
    codec: &[u8; 4],
    sample_bytes: &[&[u8]],
    delta: u32,
    with_tkhd: bool,
) -> Vec<u8> {
    let mut hdlr_payload = vec![0u8; 8];
    hdlr_payload.extend_from_slice(handler);
    hdlr_payload.extend_from_slice(&[0u8; 14]);
    let hdlr = boxed(b"hdlr", &hdlr_payload);

    let mut mdhd_payload = vec![0u8, 0, 0, 0];
    mdhd_payload.extend_from_slice(&0u32.to_be_bytes());
    mdhd_payload.extend_from_slice(&0u32.to_be_bytes());
    mdhd_payload.extend_from_slice(&1000u32.to_be_bytes());
    mdhd_payload.extend_from_slice(&0u32.to_be_bytes());
    let mdhd = boxed(b"mdhd", &mdhd_payload);

    let sizes: Vec<u32> = sample_bytes.iter().map(|b| b.len() as u32).collect();
    let mdat_bytes: Vec<u8> = sample_bytes.concat();

    let mut tkhd_payload = vec![0u8; 76];
    tkhd_payload.extend_from_slice(&(640u32 << 16).to_be_bytes());
    tkhd_payload.extend_from_slice(&(360u32 << 16).to_be_bytes());
    let tkhd = boxed(b"tkhd", &tkhd_payload);

    // The moov box comes first; the chunk offset is where mdat's
    // payload will land, computed from the moov size.
    let make = |chunk_offset: u32| -> Vec<u8> {
        let stbl = build_stbl(codec, &sizes, &[(sizes.len() as u32, delta)], chunk_offset);
        let minf = boxed(b"minf", &stbl);
        let mdia = boxed(b"mdia", &concat(&[hdlr.clone(), mdhd.clone(), minf]));
        let trak = if with_tkhd {
            boxed(b"trak", &concat(&[tkhd.clone(), mdia]))
        } else {
            boxed(b"trak", &mdia)
        };
        boxed(b"moov", &trak)
    };
    let probe = make(0);
    let chunk_offset = (probe.len() + 8) as u32;
    let moov = make(chunk_offset);
    let mdat = boxed(b"mdat", &mdat_bytes);
    concat(&[moov, mdat])
}

#[test]
fn test_extract_avc_track() {
    // Two length-prefixed samples; decode times chain by the delta.
    let s0: Vec<u8> = vec![0, 0, 0, 2, 0x65, 0x11];
    let s1: Vec<u8> = vec![0, 0, 0, 2, 0x41, 0x22];
    let file = build_track_file(b"vide", b"avc1", &[&s0, &s1], 100, false);
    let samples = extract_avc_track(&file).expect("track");
    assert_eq!(samples.len(), 2);
    assert_eq!(samples[0].bytes, s0);
    assert_eq!(samples[1].bytes, s1);
    assert_eq!(samples[0].start, 0);
    assert_eq!(samples[0].dur, 100);
    assert_eq!(samples[1].start, samples[0].start + samples[0].dur as u64);
    assert_eq!(samples[0].nalus, vec![vec![0x65, 0x11]]);
    assert_eq!(samples[1].nalus, vec![vec![0x41, 0x22]]);
}

#[test]
fn test_extract_avc_track_requires_video() {
    let s0: Vec<u8> = vec![0, 0, 0, 1, 0x65];
    let file = build_track_file(b"soun", b"avc1", &[&s0], 100, false);
    assert!(extract_avc_track(&file).is_err());
    assert!(extract_avc_track(&[0u8; 4]).is_err());
}

#[test]
fn test_find_wvtt_track() {
    let sample = boxed(b"payl", b"Hello cue");
    let file = build_track_file(b"text", b"wvtt", &[&sample], 500, false);
    let track = find_wvtt_track(&file).expect("wvtt");
    assert_eq!(track.variant, SubtitleVariant::Wvtt);
    assert_eq!(track.timescale, 1000);
    assert_eq!(track.samples.len(), 1);
    assert_eq!(track.samples[0].start, 0);
    assert_eq!(track.samples[0].dur, 500);
    let text = extract_text(SubtitleVariant::Wvtt, &track.samples[0].bytes);
    assert_eq!(text.as_deref(), Some("Hello cue"));
    assert!(find_stpp_track(&file).is_err());
}

#[test]
fn test_find_tx3g_track() {
    let mut sample = vec![0u8, 5];
    sample.extend_from_slice(b"hello");
    let file = build_track_file(b"sbtl", b"tx3g", &[&sample], 250, false);
    let track = find_tx3g_track(&file).expect("tx3g");
    assert_eq!(track.variant, SubtitleVariant::Tx3g);
    assert_eq!(track.samples.len(), 1);
    assert_eq!(track.samples[0].bytes, sample);
    let text = extract_text(SubtitleVariant::Tx3g, &track.samples[0].bytes);
    assert_eq!(text.as_deref(), Some("hello"));
}

#[test]
fn test_extract_text_variants() {
    assert_eq!(
        extract_text(SubtitleVariant::Stpp, b"<tt>doc</tt>").as_deref(),
        Some("<tt>doc</tt>")
    );
    // tx3g: the 2-byte length caps the text.
    let mut s = vec![0u8, 2];
    s.extend_from_slice(b"abcd");
    assert_eq!(extract_text(SubtitleVariant::Tx3g, &s).as_deref(), Some("ab"));
    assert!(extract_text(SubtitleVariant::Tx3g, &[0u8]).is_none());
    // wvtt: the first payl box wins.
    let sample = concat(&[boxed(b"sttg", b"x"), boxed(b"payl", b"cue text")]);
    assert_eq!(
        extract_text(SubtitleVariant::Wvtt, &sample).as_deref(),
        Some("cue text")
    );
}

#[test]
fn test_extract_text_utf8() {
    // Multi-byte UTF-8 must decode to characters, not raw bytes.
    let text = "h\u{e9}llo \u{2192}";
    let sample = text.as_bytes();
    assert_eq!(extract_text(SubtitleVariant::Stpp, sample).as_deref(), Some(text));
    assert_eq!(sample.len(), 10);
    assert_eq!(text.chars().count(), 7);
    // Invalid UTF-8 yields nothing.
    assert!(extract_text(SubtitleVariant::Stpp, &[0xFF, 0xFE, 0x01]).is_none());
}

#[test]
fn test_video_info() {
    let s0: Vec<u8> = vec![0, 0, 0, 2, 0x65, 0x11];
    let file = build_track_file(b"vide", b"avc1", &[&s0], 100, true);
    let info = find_video_track(&file).expect("info");
    assert_eq!(info.width, 640);
    assert_eq!(info.height, 360);
    assert_eq!(info.codec, "avc1");
    assert!(find_video_track(&[0u8; 8]).is_none());
}

#[test]
fn test_timestamp_parts() {
    // 1 h, 1 min, 1 s and 500 ms at a millisecond timescale.
    assert_eq!(mp4ff::timestamp_parts(3_661_500, 1000), (1, 1, 1, 500));
    // 90 kHz: 90000 ticks are one second.
    assert_eq!(mp4ff::timestamp_parts(90_000 * 61, 90_000), (0, 1, 1, 0));
    assert_eq!(mp4ff::timestamp_parts(7, 0), (0, 0, 0, 0));
}


#[test]
fn test_extract_decoder_config() {
    // avcC: version 1, profile 100, compat 0, level 30, 4-byte lengths,
    // one SPS and one PPS.
    let avcc_payload: Vec<u8> = vec![
        1, 100, 0, 30, 0xFF, 0xE1, 0, 2, 0x67, 0x64, 1, 0, 2, 0x68, 0xEB,
    ];
    let avcc = boxed(b"avcC", &avcc_payload);
    // A visual sample entry: 70 fixed bytes after the header, then the
    // configuration box.
    let mut entry_payload = vec![0u8; 70];
    entry_payload.extend_from_slice(&avcc);
    let entry = boxed(b"avc1", &entry_payload);
    let mut stsd_payload = vec![0u8, 0, 0, 0];
    stsd_payload.extend_from_slice(&1u32.to_be_bytes());
    stsd_payload.extend_from_slice(&entry);
    let stsd = boxed(b"stsd", &stsd_payload);
    let mut hdlr_payload = vec![0u8; 8];
    hdlr_payload.extend_from_slice(b"vide");
    hdlr_payload.extend_from_slice(&[0u8; 14]);
    let hdlr = boxed(b"hdlr", &hdlr_payload);
    let stbl = boxed(b"stbl", &stsd);
    let minf = boxed(b"minf", &stbl);
    let mdia = boxed(b"mdia", &concat(&[hdlr, minf]));
    let trak = boxed(b"trak", &mdia);
    let file = boxed(b"moov", &trak);
    let rec = extract_decoder_config(&file).unwrap();
    assert_eq!(rec.profile_indication, 100);
    assert_eq!(rec.profile_compatibility, 0);
    assert_eq!(rec.level_indication, 30);
    assert_eq!(rec.sps, vec![vec![0x67, 0x64]]);
    assert_eq!(rec.pps, vec![vec![0x68, 0xEB]]);
    // A sound track yields nothing.
    assert!(extract_decoder_config(&boxed(b"moov", &boxed(b"free", &[]))).is_none());
}

#[test]
fn test_get_video_timescale() {
    let mut hdlr_payload = vec![0u8; 8];
    hdlr_payload.extend_from_slice(b"vide");
    hdlr_payload.extend_from_slice(&[0u8; 14]);
    let hdlr = boxed(b"hdlr", &hdlr_payload);
    let mut mdhd_payload = vec![0u8, 0, 0, 0];
    mdhd_payload.extend_from_slice(&0u32.to_be_bytes());
    mdhd_payload.extend_from_slice(&0u32.to_be_bytes());
    mdhd_payload.extend_from_slice(&90000u32.to_be_bytes());
    mdhd_payload.extend_from_slice(&0u32.to_be_bytes());
    let mdhd = boxed(b"mdhd", &mdhd_payload);
    let mdia = boxed(b"mdia", &concat(&[hdlr, mdhd]));
    let trak = boxed(b"trak", &mdia);
    let file = boxed(b"moov", &trak);
    assert_eq!(mp4ff::get_video_timescale(&file), Some(90000));
    assert_eq!(mp4ff::get_video_timescale(&boxed(b"moov", &[])), None);
}

#[test]
fn test_pick_sample_at() {
    let mk = |start: u64| mp4ff::Sample { bytes: Vec::new(), start, dur: 10, nalus: Vec::new() };
    let samples = vec![mk(0), mk(10), mk(20), mk(30)];
    // The first sample at or past the target is chosen.
    assert_eq!(mp4ff::pick_sample_at(&samples, 15), Some(2));
    assert_eq!(mp4ff::pick_sample_at(&samples, 0), Some(0));
    // Past the end, the first sample stands in.
    assert_eq!(mp4ff::pick_sample_at(&samples, 99), Some(0));
    assert_eq!(mp4ff::pick_sample_at(&Vec::new(), 5), None);
}
