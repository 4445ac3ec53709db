//! Reading ISO base media (MP4) containers and the AVC/H.264 elementary
//! streams and timed-text tracks they carry.
//!
//! The crate is organised bottom-up: the bit-level readers ([`bits`],
//! [`ebsp`]) and writer ([`bit_writer`]), Exp-Golomb codes ([`golomb`]),
//! the box walker ([`boxes`]), the sample-table resolver and track
//! selectors ([`sampletable`], [`subs`], [`video_track`], [`videoinfo`],
//! [`metadata`]), and the AVC bitstream parsers ([`annexb`], [`decconf`],
//! [`sps`], [`pps`], [`slice`], [`sei`], [`mime`]).

pub mod bits;
pub mod ebsp;
pub mod golomb;
pub mod bit_writer;
pub mod nal;
pub mod annexb;
pub mod decconf;
pub mod decextract;
pub mod boxes;
pub mod sampletable;
pub mod moov;
pub mod strutil;
pub mod metadata;
pub mod subs;
pub mod nalus;
pub mod video_track;
pub mod videoinfo;
pub mod sei;
pub mod sps;
pub mod pps;
pub mod slice;
pub mod mime;
pub mod simple;

pub use bits::BitReader;
pub use bits::BitError;
pub use ebsp::EbspReader;
pub use bit_writer::BitWriter;
pub use nal::NaluType;
pub use decconf::{decode_avc_decoder_config, DecConfRec};
pub use boxes::{find_box, find_box_range, parse_box_header, read_box_header, BoxHeader};
pub use moov::{parse_mdhd_timescale, parse_stts_entries};
pub use metadata::{read_mp4_metadata, Metadata};
pub use decextract::extract_decoder_config;
pub use subs::{extract_text, find_stpp_track, find_tx3g_track, find_wvtt_track, timestamp_parts, SubtitleVariant, Track};
pub use nalus::{dump_nalu_types, get_nalus_from_sample};
pub use video_track::{extract_avc_track, pick_sample_at, Sample};
pub use videoinfo::{find_video_track, get_video_timescale, VideoInfo};
pub use sei::{parse_sei_nalu, SeiMessage};
pub use sps::{parse_sps_nalu, parse_sps_nalu_with_vui, CpbEntry, HrdParameters, Sps, VuiParameters};
pub use pps::{parse_pps_nalu, Pps};
pub use slice::{get_slice_type_from_nalu, parse_slice_header, SliceHeader, SliceType};
pub use mime::codec_string;
pub use simple::{decode_idr_to_rgb, Rgb, RgbImage};
pub use annexb::{
    convert_bytestream_to_nalu_sample, convert_sample_to_bytestream,
    extract_nalus_from_bytestream, extract_nalus_of_type_from_bytestream,
    get_first_video_nalu_from_bytestream, get_parameter_sets_from_bytestream,
};
