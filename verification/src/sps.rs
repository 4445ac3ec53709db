//! The AVC sequence parameter set, with VUI and HRD parameters.
//!
//! The NAL unit's payload is un-escaped first; the bit reader then
//! walks the fields in order. Ghost mirrors ([`sps_spec`],
//! [`vui_spec`], [`hrd_spec`]) walk the same un-escaped stream with a
//! [`BitCursor`]; the parser returns a record exactly when its mirror
//! does, with exactly the mirror's fields.

use vstd::prelude::*;
use crate::bits::BitReader;
use crate::ebsp::{remove_emulation_prevention_bytes, rbsp};
use crate::golomb::{
    read_scaling_list, read_ue, reader_at, reader_cursor, s_flag, s_read, s_uev,
    scaling_list_spec, BitCursor,
};
use crate::nal::{nalu_type_of, NaluType};

verus! {

/// Parameters of the hypothetical reference decoder, from the VUI.
#[derive(Debug, Clone, PartialEq, Eq)]
pub struct HrdParameters {
    pub cpb_count_minus1: u32,
    pub bit_rate_scale: u32,
    pub cpb_size_scale: u32,
    pub cpb_entries: Vec<CpbEntry>,
    pub initial_cpb_removal_delay_length_minus1: u32,
    pub cpb_removal_delay_length_minus1: u32,
    pub dpb_output_delay_length_minus1: u32,
    pub time_offset_length: u32,
}

/// One coded-picture-buffer entry inside [`HrdParameters`].
#[derive(Debug, Clone, PartialEq, Eq)]
pub struct CpbEntry {
    pub bit_rate_value_minus1: u32,
    pub cpb_size_value_minus1: u32,
    pub cbr_flag: bool,
}

/// Video usability information, as far as this crate reads it.
#[derive(Debug, Clone, PartialEq, Eq)]
pub struct VuiParameters {
    pub sample_aspect_ratio_width: u32,
    pub sample_aspect_ratio_height: u32,
    pub overscan_info_present_flag: bool,
    pub overscan_appropriate_flag: bool,
    pub video_signal_type_present_flag: bool,
    pub video_format: u32,
    pub video_full_range_flag: bool,
    pub colour_description_flag: bool,
    pub colour_primaries: u32,
    pub transfer_characteristics: u32,
    pub matrix_coefficients: u32,
    pub chroma_loc_info_present_flag: bool,
    pub chroma_sample_loc_type_top_field: u32,
    pub chroma_sample_loc_type_bottom_field: u32,
    pub timing_info_present_flag: bool,
    pub num_units_in_tick: u32,
    pub time_scale: u32,
    pub fixed_frame_rate_flag: bool,
    pub nal_hrd_parameters_present_flag: bool,
    pub nal_hrd_parameters: Option<HrdParameters>,
    pub vcl_hrd_parameters_present_flag: bool,
    pub vcl_hrd_parameters: Option<HrdParameters>,
    pub low_delay_hrd_flag: bool,
    pub pic_struct_present_flag: bool,
    pub bitstream_restriction_flag: bool,
    pub motion_vectors_over_pic_boundaries_flag: bool,
    pub max_bytes_per_pic_denom: u32,
    pub max_bits_per_mb_denom: u32,
    pub log2_max_mv_length_horizontal: u32,
    pub log2_max_mv_length_vertical: u32,
    pub max_num_reorder_frames: u32,
    pub max_dec_frame_buffering: u32,
}

/// The ghost image of an [`HrdParameters`] record: the same fields
/// with the entry list as a sequence.
pub struct GHrd {
    pub cpb_count_minus1: u32,
    pub bit_rate_scale: u32,
    pub cpb_size_scale: u32,
    pub cpb_entries: Seq<CpbEntry>,
    pub initial_cpb_removal_delay_length_minus1: u32,
    pub cpb_removal_delay_length_minus1: u32,
    pub dpb_output_delay_length_minus1: u32,
    pub time_offset_length: u32,
}

/// The ghost image of a [`VuiParameters`] record.
pub struct GVui {
    pub sample_aspect_ratio_width: u32,
    pub sample_aspect_ratio_height: u32,
    pub overscan_info_present_flag: bool,
    pub overscan_appropriate_flag: bool,
    pub video_signal_type_present_flag: bool,
    pub video_format: u32,
    pub video_full_range_flag: bool,
    pub colour_description_flag: bool,
    pub colour_primaries: u32,
    pub transfer_characteristics: u32,
    pub matrix_coefficients: u32,
    pub chroma_loc_info_present_flag: bool,
    pub chroma_sample_loc_type_top_field: u32,
    pub chroma_sample_loc_type_bottom_field: u32,
    pub timing_info_present_flag: bool,
    pub num_units_in_tick: u32,
    pub time_scale: u32,
    pub fixed_frame_rate_flag: bool,
    pub nal_hrd_parameters_present_flag: bool,
    pub nal_hrd_parameters: Option<GHrd>,
    pub vcl_hrd_parameters_present_flag: bool,
    pub vcl_hrd_parameters: Option<GHrd>,
    pub low_delay_hrd_flag: bool,
    pub pic_struct_present_flag: bool,
    pub bitstream_restriction_flag: bool,
    pub motion_vectors_over_pic_boundaries_flag: bool,
    pub max_bytes_per_pic_denom: u32,
    pub max_bits_per_mb_denom: u32,
    pub log2_max_mv_length_horizontal: u32,
    pub log2_max_mv_length_vertical: u32,
    pub max_num_reorder_frames: u32,
    pub max_dec_frame_buffering: u32,
}

/// The ghost image of an [`Sps`] record.
pub struct GSps {
    pub profile: u8,
    pub profile_compatibility: u8,
    pub level: u8,
    pub parameter_set_id: u32,
    pub chroma_format_idc: u32,
    pub separate_colour_plane_flag: bool,
    pub bit_depth_luma_minus8: u32,
    pub bit_depth_chroma_minus8: u32,
    pub qpprime_y_zero_transform_bypass_flag: bool,
    pub seq_scaling_matrix_present_flag: bool,
    pub seq_scaling_lists: Seq<Option<Seq<i32>>>,
    pub log2_max_frame_num_minus4: u32,
    pub pic_order_cnt_type: u32,
    pub log2_max_pic_order_cnt_lsb_minus4: u32,
    pub delta_pic_order_always_zero_flag: bool,
    pub offset_for_non_ref_pic: u32,
    pub offset_for_top_to_bottom_field: u32,
    pub ref_frames_in_pic_order_cnt_cycle: Seq<u32>,
    pub num_ref_frames: u32,
    pub gaps_in_frame_num_value_allowed_flag: bool,
    pub frame_mbs_only_flag: bool,
    pub mb_adaptive_frame_field_flag: bool,
    pub direct_8x8_inference_flag: bool,
    pub frame_cropping_flag: bool,
    pub frame_crop_left_offset: u32,
    pub frame_crop_right_offset: u32,
    pub frame_crop_top_offset: u32,
    pub frame_crop_bottom_offset: u32,
    pub width: u32,
    pub height: u32,
    pub nr_bytes_before_vui: u32,
    pub nr_bytes_read: u32,
    pub vui: Option<GVui>,
}

/// A record carries exactly its ghost image's fields.
pub open spec fn hrd_matches(h: HrdParameters, g: GHrd) -> bool {
    &&& h.cpb_count_minus1 == g.cpb_count_minus1
    &&& h.bit_rate_scale == g.bit_rate_scale
    &&& h.cpb_size_scale == g.cpb_size_scale
    &&& h.cpb_entries@ == g.cpb_entries
    &&& h.initial_cpb_removal_delay_length_minus1 == g.initial_cpb_removal_delay_length_minus1
    &&& h.cpb_removal_delay_length_minus1 == g.cpb_removal_delay_length_minus1
    &&& h.dpb_output_delay_length_minus1 == g.dpb_output_delay_length_minus1
    &&& h.time_offset_length == g.time_offset_length
}

pub open spec fn opt_hrd_matches(h: Option<HrdParameters>, g: Option<GHrd>) -> bool {
    match (h, g) {
        (Some(h), Some(g)) => hrd_matches(h, g),
        (None, None) => true,
        _ => false,
    }
}

pub open spec fn vui_matches(v: VuiParameters, g: GVui) -> bool {
    &&& v.sample_aspect_ratio_width == g.sample_aspect_ratio_width
    &&& v.sample_aspect_ratio_height == g.sample_aspect_ratio_height
    &&& v.overscan_info_present_flag == g.overscan_info_present_flag
    &&& v.overscan_appropriate_flag == g.overscan_appropriate_flag
    &&& v.video_signal_type_present_flag == g.video_signal_type_present_flag
    &&& v.video_format == g.video_format
    &&& v.video_full_range_flag == g.video_full_range_flag
    &&& v.colour_description_flag == g.colour_description_flag
    &&& v.colour_primaries == g.colour_primaries
    &&& v.transfer_characteristics == g.transfer_characteristics
    &&& v.matrix_coefficients == g.matrix_coefficients
    &&& v.chroma_loc_info_present_flag == g.chroma_loc_info_present_flag
    &&& v.chroma_sample_loc_type_top_field == g.chroma_sample_loc_type_top_field
    &&& v.chroma_sample_loc_type_bottom_field == g.chroma_sample_loc_type_bottom_field
    &&& v.timing_info_present_flag == g.timing_info_present_flag
    &&& v.num_units_in_tick == g.num_units_in_tick
    &&& v.time_scale == g.time_scale
    &&& v.fixed_frame_rate_flag == g.fixed_frame_rate_flag
    &&& v.nal_hrd_parameters_present_flag == g.nal_hrd_parameters_present_flag
    &&& opt_hrd_matches(v.nal_hrd_parameters, g.nal_hrd_parameters)
    &&& v.vcl_hrd_parameters_present_flag == g.vcl_hrd_parameters_present_flag
    &&& opt_hrd_matches(v.vcl_hrd_parameters, g.vcl_hrd_parameters)
    &&& v.low_delay_hrd_flag == g.low_delay_hrd_flag
    &&& v.pic_struct_present_flag == g.pic_struct_present_flag
    &&& v.bitstream_restriction_flag == g.bitstream_restriction_flag
    &&& v.motion_vectors_over_pic_boundaries_flag == g.motion_vectors_over_pic_boundaries_flag
    &&& v.max_bytes_per_pic_denom == g.max_bytes_per_pic_denom
    &&& v.max_bits_per_mb_denom == g.max_bits_per_mb_denom
    &&& v.log2_max_mv_length_horizontal == g.log2_max_mv_length_horizontal
    &&& v.log2_max_mv_length_vertical == g.log2_max_mv_length_vertical
    &&& v.max_num_reorder_frames == g.max_num_reorder_frames
    &&& v.max_dec_frame_buffering == g.max_dec_frame_buffering
}

pub open spec fn opt_vui_matches(v: Option<VuiParameters>, g: Option<GVui>) -> bool {
    match (v, g) {
        (Some(v), Some(g)) => vui_matches(v, g),
        (None, None) => true,
        _ => false,
    }
}

/// A list of optional scaling lists carries exactly its ghost image.
pub open spec fn scaling_lists_match(v: Seq<Option<Vec<i32>>>, g: Seq<Option<Seq<i32>>>) -> bool {
    &&& v.len() == g.len()
    &&& forall|j: int|
        0 <= j < v.len() ==> match (#[trigger] v[j], g[j]) {
            (Some(a), Some(b)) => a@ == b,
            (None, None) => true,
            _ => false,
        }
}

pub open spec fn sps_matches(sps: Sps, g: GSps) -> bool {
    &&& sps.profile == g.profile
    &&& sps.profile_compatibility == g.profile_compatibility
    &&& sps.level == g.level
    &&& sps.parameter_set_id == g.parameter_set_id
    &&& sps.chroma_format_idc == g.chroma_format_idc
    &&& sps.separate_colour_plane_flag == g.separate_colour_plane_flag
    &&& sps.bit_depth_luma_minus8 == g.bit_depth_luma_minus8
    &&& sps.bit_depth_chroma_minus8 == g.bit_depth_chroma_minus8
    &&& sps.qpprime_y_zero_transform_bypass_flag == g.qpprime_y_zero_transform_bypass_flag
    &&& sps.seq_scaling_matrix_present_flag == g.seq_scaling_matrix_present_flag
    &&& scaling_lists_match(sps.seq_scaling_lists@, g.seq_scaling_lists)
    &&& sps.log2_max_frame_num_minus4 == g.log2_max_frame_num_minus4
    &&& sps.pic_order_cnt_type == g.pic_order_cnt_type
    &&& sps.log2_max_pic_order_cnt_lsb_minus4 == g.log2_max_pic_order_cnt_lsb_minus4
    &&& sps.delta_pic_order_always_zero_flag == g.delta_pic_order_always_zero_flag
    &&& sps.offset_for_non_ref_pic == g.offset_for_non_ref_pic
    &&& sps.offset_for_top_to_bottom_field == g.offset_for_top_to_bottom_field
    &&& sps.ref_frames_in_pic_order_cnt_cycle@ == g.ref_frames_in_pic_order_cnt_cycle
    &&& sps.num_ref_frames == g.num_ref_frames
    &&& sps.gaps_in_frame_num_value_allowed_flag == g.gaps_in_frame_num_value_allowed_flag
    &&& sps.frame_mbs_only_flag == g.frame_mbs_only_flag
    &&& sps.mb_adaptive_frame_field_flag == g.mb_adaptive_frame_field_flag
    &&& sps.direct_8x8_inference_flag == g.direct_8x8_inference_flag
    &&& sps.frame_cropping_flag == g.frame_cropping_flag
    &&& sps.frame_crop_left_offset == g.frame_crop_left_offset
    &&& sps.frame_crop_right_offset == g.frame_crop_right_offset
    &&& sps.frame_crop_top_offset == g.frame_crop_top_offset
    &&& sps.frame_crop_bottom_offset == g.frame_crop_bottom_offset
    &&& sps.width == g.width
    &&& sps.height == g.height
    &&& sps.nr_bytes_before_vui == g.nr_bytes_before_vui
    &&& sps.nr_bytes_read == g.nr_bytes_read
    &&& opt_vui_matches(sps.vui, g.vui)
}

/// All fields absent or zero.
pub open spec fn default_gvui() -> GVui {
    GVui {
        sample_aspect_ratio_width: 0,
        sample_aspect_ratio_height: 0,
        overscan_info_present_flag: false,
        overscan_appropriate_flag: false,
        video_signal_type_present_flag: false,
        video_format: 0,
        video_full_range_flag: false,
        colour_description_flag: false,
        colour_primaries: 0,
        transfer_characteristics: 0,
        matrix_coefficients: 0,
        chroma_loc_info_present_flag: false,
        chroma_sample_loc_type_top_field: 0,
        chroma_sample_loc_type_bottom_field: 0,
        timing_info_present_flag: false,
        num_units_in_tick: 0,
        time_scale: 0,
        fixed_frame_rate_flag: false,
        nal_hrd_parameters_present_flag: false,
        nal_hrd_parameters: None,
        vcl_hrd_parameters_present_flag: false,
        vcl_hrd_parameters: None,
        low_delay_hrd_flag: false,
        pic_struct_present_flag: false,
        bitstream_restriction_flag: false,
        motion_vectors_over_pic_boundaries_flag: false,
        max_bytes_per_pic_denom: 0,
        max_bits_per_mb_denom: 0,
        log2_max_mv_length_horizontal: 0,
        log2_max_mv_length_vertical: 0,
        max_num_reorder_frames: 0,
        max_dec_frame_buffering: 0,
    }
}

impl Default for VuiParameters {
    fn default() -> (r: VuiParameters)
        ensures
            vui_matches(r, default_gvui()),
    {
        VuiParameters {
            sample_aspect_ratio_width: 0,
            sample_aspect_ratio_height: 0,
            overscan_info_present_flag: false,
            overscan_appropriate_flag: false,
            video_signal_type_present_flag: false,
            video_format: 0,
            video_full_range_flag: false,
            colour_description_flag: false,
            colour_primaries: 0,
            transfer_characteristics: 0,
            matrix_coefficients: 0,
            chroma_loc_info_present_flag: false,
            chroma_sample_loc_type_top_field: 0,
            chroma_sample_loc_type_bottom_field: 0,
            timing_info_present_flag: false,
            num_units_in_tick: 0,
            time_scale: 0,
            fixed_frame_rate_flag: false,
            nal_hrd_parameters_present_flag: false,
            nal_hrd_parameters: None,
            vcl_hrd_parameters_present_flag: false,
            vcl_hrd_parameters: None,
            low_delay_hrd_flag: false,
            pic_struct_present_flag: false,
            bitstream_restriction_flag: false,
            motion_vectors_over_pic_boundaries_flag: false,
            max_bytes_per_pic_denom: 0,
            max_bits_per_mb_denom: 0,
            log2_max_mv_length_horizontal: 0,
            log2_max_mv_length_vertical: 0,
            max_num_reorder_frames: 0,
            max_dec_frame_buffering: 0,
        }
    }
}

/// An AVC sequence parameter set, as parsed from a NAL unit.
#[derive(Debug, Clone, PartialEq, Eq)]
pub struct Sps {
    pub profile: u8,
    pub profile_compatibility: u8,
    pub level: u8,
    pub parameter_set_id: u32,
    pub chroma_format_idc: u32,
    pub separate_colour_plane_flag: bool,
    pub bit_depth_luma_minus8: u32,
    pub bit_depth_chroma_minus8: u32,
    pub qpprime_y_zero_transform_bypass_flag: bool,
    pub seq_scaling_matrix_present_flag: bool,
    pub seq_scaling_lists: Vec<Option<Vec<i32>>>,
    pub log2_max_frame_num_minus4: u32,
    pub pic_order_cnt_type: u32,
    pub log2_max_pic_order_cnt_lsb_minus4: u32,
    pub delta_pic_order_always_zero_flag: bool,
    pub offset_for_non_ref_pic: u32,
    pub offset_for_top_to_bottom_field: u32,
    pub ref_frames_in_pic_order_cnt_cycle: Vec<u32>,
    pub num_ref_frames: u32,
    pub gaps_in_frame_num_value_allowed_flag: bool,
    pub frame_mbs_only_flag: bool,
    pub mb_adaptive_frame_field_flag: bool,
    pub direct_8x8_inference_flag: bool,
    pub frame_cropping_flag: bool,
    pub frame_crop_left_offset: u32,
    pub frame_crop_right_offset: u32,
    pub frame_crop_top_offset: u32,
    pub frame_crop_bottom_offset: u32,
    pub width: u32,
    pub height: u32,
    pub nr_bytes_before_vui: u32,
    pub nr_bytes_read: u32,
    pub vui: Option<VuiParameters>,
}

impl Sps {
    /// The four constraint bits: the high nibble of the compatibility
    /// byte.
    pub fn constraint_flags(&self) -> (r: u8)
        ensures
            r == self.profile_compatibility / 16,
    {
        self.profile_compatibility / 16
    }

    /// The chroma array type: the chroma format when the colour planes
    /// are coded together, 0 when they are separate.
    pub fn chroma_array_type(&self) -> (r: u32)
        ensures
            r == (if self.separate_colour_plane_flag {
                0u32
            } else {
                self.chroma_format_idc
            }),
    {
        if !self.separate_colour_plane_flag {
            self.chroma_format_idc
        } else {
            0
        }
    }

    /// Whether picture-timing SEI messages carry buffer delays: true
    /// when either HRD block is present in the VUI.
    pub fn cpb_dpb_delays_present(&self) -> (r: bool)
        ensures
            r == match self.vui {
                Some(v) => v.nal_hrd_parameters_present_flag || v.vcl_hrd_parameters_present_flag,
                None => false,
            },
    {
        match &self.vui {
            Some(v) => v.nal_hrd_parameters_present_flag || v.vcl_hrd_parameters_present_flag,
            None => false,
        }
    }

    /// Whether picture-timing SEI messages carry a `pic_struct` field.
    pub fn pic_struct_present(&self) -> (r: bool)
        ensures
            r == match self.vui {
                Some(v) => v.pic_struct_present_flag,
                None => false,
            },
    {
        match &self.vui {
            Some(v) => v.pic_struct_present_flag,
            None => false,
        }
    }
}

/// The sample aspect ratio for an aspect-ratio code of 1 through 16.
pub open spec fn sar_of_idc(idc: u32) -> Option<(u32, u32)> {
    if idc == 1 {
        Some((1u32, 1u32))
    } else if idc == 2 {
        Some((12u32, 11u32))
    } else if idc == 3 {
        Some((10u32, 11u32))
    } else if idc == 4 {
        Some((16u32, 11u32))
    } else if idc == 5 {
        Some((40u32, 33u32))
    } else if idc == 6 {
        Some((24u32, 11u32))
    } else if idc == 7 {
        Some((20u32, 11u32))
    } else if idc == 8 {
        Some((32u32, 11u32))
    } else if idc == 9 {
        Some((80u32, 33u32))
    } else if idc == 10 {
        Some((18u32, 11u32))
    } else if idc == 11 {
        Some((15u32, 11u32))
    } else if idc == 12 {
        Some((64u32, 33u32))
    } else if idc == 13 {
        Some((160u32, 99u32))
    } else if idc == 14 {
        Some((4u32, 3u32))
    } else if idc == 15 {
        Some((3u32, 2u32))
    } else if idc == 16 {
        Some((2u32, 1u32))
    } else {
        None
    }
}

/// Look up the sample aspect ratio table by code.
fn get_sar_from_idc(index: u32) -> (r: Option<(u32, u32)>)
    ensures
        r == sar_of_idc(index),
{
    if index == 1 {
        Some((1, 1))
    } else if index == 2 {
        Some((12, 11))
    } else if index == 3 {
        Some((10, 11))
    } else if index == 4 {
        Some((16, 11))
    } else if index == 5 {
        Some((40, 33))
    } else if index == 6 {
        Some((24, 11))
    } else if index == 7 {
        Some((20, 11))
    } else if index == 8 {
        Some((32, 11))
    } else if index == 9 {
        Some((80, 33))
    } else if index == 10 {
        Some((18, 11))
    } else if index == 11 {
        Some((15, 11))
    } else if index == 12 {
        Some((64, 33))
    } else if index == 13 {
        Some((160, 99))
    } else if index == 14 {
        Some((4, 3))
    } else if index == 15 {
        Some((3, 2))
    } else if index == 16 {
        Some((2, 1))
    } else {
        None
    }
}

/// Whether a profile reads the chroma, bit-depth and scaling-matrix
/// block.
pub open spec fn is_high_profile(p: u8) -> bool {
    p == 100 || p == 110 || p == 122 || p == 244 || p == 44 || p == 83 || p == 86 || p == 118 || p
        == 128 || p == 138 || p == 139 || p == 134 || p == 135
}

/// Reading `n` coded-picture-buffer entries at a cursor.
pub open spec fn s_cpb_entries(s: Seq<u8>, c: BitCursor, n: nat) -> (Seq<CpbEntry>, BitCursor)
    decreases n,
{
    if n == 0 {
        (Seq::empty(), c)
    } else {
        let (br, c1) = s_uev(s, c);
        let (sz, c2) = s_uev(s, c1);
        let (f, c3) = s_flag(s, c2);
        let e = CpbEntry {
            bit_rate_value_minus1: br as u32,
            cpb_size_value_minus1: sz as u32,
            cbr_flag: f,
        };
        let (rest, c4) = s_cpb_entries(s, c3, (n - 1) as nat);
        (seq![e] + rest, c4)
    }
}

/// The HRD block at a cursor: the entry count, two 4-bit scales, the
/// entries, and four 5-bit length fields.
pub open spec fn hrd_spec(s: Seq<u8>, c: BitCursor) -> (GHrd, BitCursor) {
    let (cnt, c1) = s_uev(s, c);
    let (brs, c2) = s_read(s, c1, 4);
    let (css, c3) = s_read(s, c2, 4);
    let (entries, c4) = s_cpb_entries(s, c3, (cnt + 1) as nat);
    let (i1, c5) = s_read(s, c4, 5);
    let (i2, c6) = s_read(s, c5, 5);
    let (i3, c7) = s_read(s, c6, 5);
    let (i4, c8) = s_read(s, c7, 5);
    (
        GHrd {
            cpb_count_minus1: cnt as u32,
            bit_rate_scale: brs as u32,
            cpb_size_scale: css as u32,
            cpb_entries: entries,
            initial_cpb_removal_delay_length_minus1: i1 as u32,
            cpb_removal_delay_length_minus1: i2 as u32,
            dpb_output_delay_length_minus1: i3 as u32,
            time_offset_length: i4 as u32,
        },
        c8,
    )
}

/// The aspect-ratio part of the VUI: the flag, then either an
/// extended ratio or the table entry; an unknown code leaves zeros.
pub open spec fn sar_spec(s: Seq<u8>, c0: BitCursor) -> (u32, u32, BitCursor) {
    let (ar, c1) = s_flag(s, c0);
    if ar {
        let (idc, ca) = s_read(s, c1, 8);
        if idc == 255 {
            let (w, cb) = s_read(s, ca, 16);
            let (h, cc) = s_read(s, cb, 16);
            (w as u32, h as u32, cc)
        } else {
            match sar_of_idc(idc as u32) {
                Some((w, h)) => (w, h, ca),
                None => (0, 0, ca),
            }
        }
    } else {
        (0, 0, c1)
    }
}

/// The overscan pair: the presence flag and, when set, the
/// appropriateness flag.
pub open spec fn s_overscan(s: Seq<u8>, c: BitCursor) -> (bool, bool, BitCursor) {
    let (ov, c1) = s_flag(s, c);
    if ov {
        let (a, c2) = s_flag(s, c1);
        (ov, a, c2)
    } else {
        (ov, false, c1)
    }
}

/// The video-signal group: format, full-range flag, and the optional
/// colour description triple.
pub open spec fn s_video_signal(s: Seq<u8>, c: BitCursor) -> (
    (bool, u32, bool, bool, u32, u32, u32),
    BitCursor,
) {
    let (vst, c1) = s_flag(s, c);
    if vst {
        let (f, ca) = s_read(s, c1, 3);
        let (fr, cb) = s_flag(s, ca);
        let (cd, cc) = s_flag(s, cb);
        if cd {
            let (p, cd1) = s_read(s, cc, 8);
            let (t, cd2) = s_read(s, cd1, 8);
            let (m, cd3) = s_read(s, cd2, 8);
            ((vst, f as u32, fr, cd, p as u32, t as u32, m as u32), cd3)
        } else {
            ((vst, f as u32, fr, cd, 0, 0, 0), cc)
        }
    } else {
        ((vst, 0, false, false, 0, 0, 0), c1)
    }
}

/// The chroma sample location group.
pub open spec fn s_chroma_loc(s: Seq<u8>, c: BitCursor) -> ((bool, u32, u32), BitCursor) {
    let (cl, c1) = s_flag(s, c);
    if cl {
        let (t, ca) = s_uev(s, c1);
        let (b, cb) = s_uev(s, ca);
        ((cl, t as u32, b as u32), cb)
    } else {
        ((cl, 0, 0), c1)
    }
}

/// The timing group: tick, scale, and the fixed-frame-rate flag.
pub open spec fn s_timing(s: Seq<u8>, c: BitCursor) -> ((bool, u32, u32, bool), BitCursor) {
    let (ti, c1) = s_flag(s, c);
    if ti {
        let (n, ca) = s_read(s, c1, 32);
        let (t, cb) = s_read(s, ca, 32);
        let (f, cc) = s_flag(s, cb);
        ((ti, n as u32, t as u32, f), cc)
    } else {
        ((ti, 0, 0, false), c1)
    }
}

/// One optional HRD block behind its presence flag.
pub open spec fn s_opt_hrd(s: Seq<u8>, c: BitCursor) -> ((bool, Option<GHrd>), BitCursor) {
    let (f, c1) = s_flag(s, c);
    if f {
        let (g, c2) = hrd_spec(s, c1);
        ((f, Some(g)), c2)
    } else {
        ((f, None), c1)
    }
}

/// The bitstream-restriction group: the flag and its six fields.
pub open spec fn s_restriction(s: Seq<u8>, c: BitCursor) -> (
    (bool, bool, u32, u32, u32, u32, u32, u32),
    BitCursor,
) {
    let (brf, c1) = s_flag(s, c);
    if brf {
        let (m, ca) = s_flag(s, c1);
        let (a, cb) = s_uev(s, ca);
        let (b, cc) = s_uev(s, cb);
        let (c2, cd) = s_uev(s, cc);
        let (d, ce) = s_uev(s, cd);
        let (e, cf) = s_uev(s, ce);
        let (f, cg) = s_uev(s, cf);
        ((brf, m, a as u32, b as u32, c2 as u32, d as u32, e as u32, f as u32), cg)
    } else {
        ((brf, false, 0, 0, 0, 0, 0, 0), c1)
    }
}

/// The VUI fields after the aspect ratio, at a cursor; the two
/// aspect-ratio values are passed through into the record.
pub open spec fn vui_tail_spec(s: Seq<u8>, c2: BitCursor, sarw: u32, sarh: u32) -> (
    GVui,
    BitCursor,
) {
    let (ov, ova, c3) = s_overscan(s, c2);
    let (vs, c4) = s_video_signal(s, c3);
    let (cg, c5) = s_chroma_loc(s, c4);
    let (tg, c6) = s_timing(s, c5);
    let (ng, c7) = s_opt_hrd(s, c6);
    let (vg, c8) = s_opt_hrd(s, c7);
    let (ld, c9): (bool, BitCursor) = if ng.0 || vg.0 {
        s_flag(s, c8)
    } else {
        (false, c8)
    };
    let (ps, c10) = s_flag(s, c9);
    let (rg, c11) = s_restriction(s, c10);
    (
        GVui {
            sample_aspect_ratio_width: sarw,
            sample_aspect_ratio_height: sarh,
            overscan_info_present_flag: ov,
            overscan_appropriate_flag: ova,
            video_signal_type_present_flag: vs.0,
            video_format: vs.1,
            video_full_range_flag: vs.2,
            colour_description_flag: vs.3,
            colour_primaries: vs.4,
            transfer_characteristics: vs.5,
            matrix_coefficients: vs.6,
            chroma_loc_info_present_flag: cg.0,
            chroma_sample_loc_type_top_field: cg.1,
            chroma_sample_loc_type_bottom_field: cg.2,
            timing_info_present_flag: tg.0,
            num_units_in_tick: tg.1,
            time_scale: tg.2,
            fixed_frame_rate_flag: tg.3,
            nal_hrd_parameters_present_flag: ng.0,
            nal_hrd_parameters: ng.1,
            vcl_hrd_parameters_present_flag: vg.0,
            vcl_hrd_parameters: vg.1,
            low_delay_hrd_flag: ld,
            pic_struct_present_flag: ps,
            bitstream_restriction_flag: rg.0,
            motion_vectors_over_pic_boundaries_flag: rg.1,
            max_bytes_per_pic_denom: rg.2,
            max_bits_per_mb_denom: rg.3,
            log2_max_mv_length_horizontal: rg.4,
            log2_max_mv_length_vertical: rg.5,
            max_num_reorder_frames: rg.6,
            max_dec_frame_buffering: rg.7,
        },
        c11,
    )
}

/// The VUI block at a cursor; with `beyond` false only the
/// aspect-ratio part is read and the rest stays at its defaults.
pub open spec fn vui_spec(s: Seq<u8>, c0: BitCursor, beyond: bool) -> (GVui, BitCursor) {
    let (sarw, sarh, c2) = sar_spec(s, c0);
    if !beyond {
        (
            GVui {
                sample_aspect_ratio_width: sarw,
                sample_aspect_ratio_height: sarh,
                overscan_info_present_flag: false,
                overscan_appropriate_flag: false,
                video_signal_type_present_flag: false,
                video_format: 0,
                video_full_range_flag: false,
                colour_description_flag: false,
                colour_primaries: 0,
                transfer_characteristics: 0,
                matrix_coefficients: 0,
                chroma_loc_info_present_flag: false,
                chroma_sample_loc_type_top_field: 0,
                chroma_sample_loc_type_bottom_field: 0,
                timing_info_present_flag: false,
                num_units_in_tick: 0,
                time_scale: 0,
                fixed_frame_rate_flag: false,
                nal_hrd_parameters_present_flag: false,
                nal_hrd_parameters: None,
                vcl_hrd_parameters_present_flag: false,
                vcl_hrd_parameters: None,
                low_delay_hrd_flag: false,
                pic_struct_present_flag: false,
                bitstream_restriction_flag: false,
                motion_vectors_over_pic_boundaries_flag: false,
                max_bytes_per_pic_denom: 0,
                max_bits_per_mb_denom: 0,
                log2_max_mv_length_horizontal: 0,
                log2_max_mv_length_vertical: 0,
                max_num_reorder_frames: 0,
                max_dec_frame_buffering: 0,
            },
            c2,
        )
    } else {
        vui_tail_spec(s, c2, sarw, sarh)
    }
}

/// Reading the optional scaling lists `i .. nr`: a presence flag per
/// list, 4x4 lists (16 entries) for the first six, 8x8 (64) after.
pub open spec fn s_scaling_lists(s: Seq<u8>, c: BitCursor, i: nat, nr: nat) -> (
    Seq<Option<Seq<i32>>>,
    BitCursor,
)
    decreases nr - i,
{
    if i >= nr {
        (Seq::empty(), c)
    } else {
        let (present, c1) = s_flag(s, c);
        let (entry, c2): (Option<Seq<i32>>, BitCursor) = if present {
            let size: nat = if i < 6 {
                16
            } else {
                64
            };
            let (l, ca) = scaling_list_spec(s, c1, size, 8, 8);
            (Some(l), ca)
        } else {
            (None, c1)
        };
        let (rest, c3) = s_scaling_lists(s, c2, i + 1, nr);
        (seq![entry] + rest, c3)
    }
}

/// Reading `n` unsigned Exp-Golomb codes at a cursor.
pub open spec fn s_uev_list(s: Seq<u8>, c: BitCursor, n: nat) -> (Seq<u32>, BitCursor)
    decreases n,
{
    if n == 0 {
        (Seq::empty(), c)
    } else {
        let (v, c1) = s_uev(s, c);
        let (rest, c2) = s_uev_list(s, c1, (n - 1) as nat);
        (seq![v as u32] + rest, c2)
    }
}

/// Bytes touched after consuming `pos` bits, capped to 32 bits.
pub open spec fn byte_count(pos: int) -> u32 {
    if (pos + 7) / 8 > u32::MAX {
        u32::MAX
    } else {
        ((pos + 7) / 8) as u32
    }
}

/// The ghost image of the chroma, bit-depth and scaling-matrix block.
pub struct GHigh {
    pub chroma_format_idc: u32,
    pub separate_colour_plane_flag: bool,
    pub bit_depth_luma_minus8: u32,
    pub bit_depth_chroma_minus8: u32,
    pub qpprime_y_zero_transform_bypass_flag: bool,
    pub seq_scaling_matrix_present_flag: bool,
    pub seq_scaling_lists: Seq<Option<Seq<i32>>>,
}

/// The chroma, bit-depth and scaling-matrix block of a high-family
/// profile at a cursor.
pub open spec fn high_spec(s: Seq<u8>, c: BitCursor) -> (GHigh, BitCursor) {
    let (cf, ca) = s_uev(s, c);
    let (sp, cb): (bool, BitCursor) = if cf == 3 {
        s_flag(s, ca)
    } else {
        (false, ca)
    };
    let (bl, cc) = s_uev(s, cb);
    let (bc, cd) = s_uev(s, cc);
    let (q, ce) = s_flag(s, cd);
    let (sm, cf2) = s_flag(s, ce);
    let (ls, cg): (Seq<Option<Seq<i32>>>, BitCursor) = if sm {
        let nr: nat = if cf != 3 {
            8
        } else {
            12
        };
        s_scaling_lists(s, cf2, 0, nr)
    } else {
        (Seq::empty(), cf2)
    };
    (
        GHigh {
            chroma_format_idc: cf as u32,
            separate_colour_plane_flag: sp,
            bit_depth_luma_minus8: bl as u32,
            bit_depth_chroma_minus8: bc as u32,
            qpprime_y_zero_transform_bypass_flag: q,
            seq_scaling_matrix_present_flag: sm,
            seq_scaling_lists: ls,
        },
        cg,
    )
}

/// The ghost image of the picture-order-count fields.
pub struct GPoc {
    pub log2_max_pic_order_cnt_lsb_minus4: u32,
    pub delta_pic_order_always_zero_flag: bool,
    pub offset_for_non_ref_pic: u32,
    pub offset_for_top_to_bottom_field: u32,
    pub ref_frames_in_pic_order_cnt_cycle: Seq<u32>,
}

/// The picture-order-count fields for a POC type at a cursor.
pub open spec fn poc_spec(s: Seq<u8>, c: BitCursor, poct: nat) -> (GPoc, BitCursor) {
    if poct == 0 {
        let (v, ca) = s_uev(s, c);
        (
            GPoc {
                log2_max_pic_order_cnt_lsb_minus4: v as u32,
                delta_pic_order_always_zero_flag: false,
                offset_for_non_ref_pic: 0,
                offset_for_top_to_bottom_field: 0,
                ref_frames_in_pic_order_cnt_cycle: Seq::empty(),
            },
            ca,
        )
    } else if poct == 1 {
        let (d, ca) = s_flag(s, c);
        let (o1, cb) = s_uev(s, ca);
        let (o2, cc) = s_uev(s, cb);
        let (num, cd) = s_uev(s, cc);
        let (l, ce) = s_uev_list(s, cd, num);
        (
            GPoc {
                log2_max_pic_order_cnt_lsb_minus4: 0,
                delta_pic_order_always_zero_flag: d,
                offset_for_non_ref_pic: o1 as u32,
                offset_for_top_to_bottom_field: o2 as u32,
                ref_frames_in_pic_order_cnt_cycle: l,
            },
            ce,
        )
    } else {
        (
            GPoc {
                log2_max_pic_order_cnt_lsb_minus4: 0,
                delta_pic_order_always_zero_flag: false,
                offset_for_non_ref_pic: 0,
                offset_for_top_to_bottom_field: 0,
                ref_frames_in_pic_order_cnt_cycle: Seq::empty(),
            },
            c,
        )
    }
}

/// The frame-layout fields between the POC block and the cropping
/// offsets: reference count, gaps flag, the two sizes in macroblocks,
/// the frame/field flags, and the inference and cropping flags.
pub open spec fn s_frame_fields(s: Seq<u8>, c: BitCursor) -> (
    (u32, bool, u32, u32, bool, bool, bool, bool),
    BitCursor,
) {
    let (nref, c1) = s_uev(s, c);
    let (gaps, c2) = s_flag(s, c1);
    let (pw, c3) = s_uev(s, c2);
    let (ph, c4) = s_uev(s, c3);
    let (fmo, c5) = s_flag(s, c4);
    let (mbaff, c6): (bool, BitCursor) = if !fmo {
        s_flag(s, c5)
    } else {
        (false, c5)
    };
    let (d88, c7) = s_flag(s, c6);
    let (cropf, c8) = s_flag(s, c7);
    ((nref as u32, gaps, pw as u32, ph as u32, fmo, mbaff, d88, cropf), c8)
}

/// The four cropping offsets.
pub open spec fn s_crop(s: Seq<u8>, c: BitCursor) -> ((u32, u32, u32, u32), BitCursor) {
    let (cl, ca) = s_uev(s, c);
    let (cr, cb) = s_uev(s, ca);
    let (ct, cc) = s_uev(s, cb);
    let (cbo, cd) = s_uev(s, cc);
    ((cl as u32, cr as u32, ct as u32, cbo as u32), cd)
}

/// The SPS fields after the picture-order-count block, with the
/// already-read prefix passed through; the crop and dimension checks
/// and the final assembly live here.
/// The cropped picture size, or nothing when the chroma format has no
/// crop-unit entry, the cropping window leaves no picture, or a
/// dimension does not fit 32 bits.
pub open spec fn sps_dims_spec(
    cfi: u32,
    ff: (u32, bool, u32, u32, bool, bool, bool, bool),
    cg: (u32, u32, u32, u32),
) -> Option<(u32, u32)> {
    let fmo = ff.4;
    let cropf = ff.7;
    let width0: int = (ff.2 + 1) * 16int;
    let height0: int = if fmo {
        (ff.3 + 1) * 16int
    } else {
        (ff.3 + 1) * 32int
    };
    if cropf && cfi > 3 {
        None
    } else {
        let fm: int = if fmo {
            1
        } else {
            0
        };
        let (cux, cuy): (int, int) = if cfi == 0 {
            (1, 2 - fm)
        } else if cfi == 1 {
            (2, 2 * (2 - fm))
        } else if cfi == 2 {
            (2, 2 - fm)
        } else {
            (1, 2 - fm)
        };
        let crop_w: int = (cg.0 + cg.1) * cux;
        let crop_h: int = (cg.2 + cg.3) * cuy;
        if cropf && (crop_w > width0 || crop_h > height0) {
            None
        } else {
            let width: int = width0 - crop_w;
            let height: int = height0 - crop_h;
            if width > u32::MAX || height > u32::MAX {
                None
            } else {
                Some((width as u32, height as u32))
            }
        }
    }
}

pub open spec fn sps_finish_spec(
    s: Seq<u8>,
    c17: BitCursor,
    beyond: bool,
    profile: u8,
    compat: u8,
    level: u8,
    id: u32,
    hb: GHigh,
    lmfn: u32,
    poct: u32,
    poc: GPoc,
    ff: (u32, bool, u32, u32, bool, bool, bool, bool),
    cg: (u32, u32, u32, u32),
    width: u32,
    height: u32,
) -> Option<GSps> {
    {
        {
            let (vuif, c18) = s_flag(s, c17);
            let before = byte_count(c18.pos);
            let (vui, c19): (Option<GVui>, BitCursor) = if vuif {
                let (g, ca2) = vui_spec(s, c18, beyond);
                (Some(g), ca2)
            } else {
                (None, c18)
            };
            let after = byte_count(c19.pos);
            if c19.failed {
                None
            } else {
                Some(
                    GSps {
                        profile,
                        profile_compatibility: compat,
                        level,
                        parameter_set_id: id,
                        chroma_format_idc: hb.chroma_format_idc,
                        separate_colour_plane_flag: hb.separate_colour_plane_flag,
                        bit_depth_luma_minus8: hb.bit_depth_luma_minus8,
                        bit_depth_chroma_minus8: hb.bit_depth_chroma_minus8,
                        qpprime_y_zero_transform_bypass_flag:
                            hb.qpprime_y_zero_transform_bypass_flag,
                        seq_scaling_matrix_present_flag: hb.seq_scaling_matrix_present_flag,
                        seq_scaling_lists: hb.seq_scaling_lists,
                        log2_max_frame_num_minus4: lmfn,
                        pic_order_cnt_type: poct,
                        log2_max_pic_order_cnt_lsb_minus4: poc.log2_max_pic_order_cnt_lsb_minus4,
                        delta_pic_order_always_zero_flag: poc.delta_pic_order_always_zero_flag,
                        offset_for_non_ref_pic: poc.offset_for_non_ref_pic,
                        offset_for_top_to_bottom_field: poc.offset_for_top_to_bottom_field,
                        ref_frames_in_pic_order_cnt_cycle: poc.ref_frames_in_pic_order_cnt_cycle,
                        num_ref_frames: ff.0,
                        gaps_in_frame_num_value_allowed_flag: ff.1,
                        frame_mbs_only_flag: ff.4,
                        mb_adaptive_frame_field_flag: ff.5,
                        direct_8x8_inference_flag: ff.6,
                        frame_cropping_flag: ff.7,
                        frame_crop_left_offset: cg.0,
                        frame_crop_right_offset: cg.1,
                        frame_crop_top_offset: cg.2,
                        frame_crop_bottom_offset: cg.3,
                        width,
                        height,
                        nr_bytes_before_vui: before,
                        nr_bytes_read: after,
                        vui,
                    },
                )
            }
        }
    }
}

pub open spec fn sps_tail_spec(
    s: Seq<u8>,
    c8: BitCursor,
    beyond: bool,
    profile: u8,
    compat: u8,
    level: u8,
    id: u32,
    hb: GHigh,
    lmfn: u32,
    poct: u32,
    poc: GPoc,
) -> Option<GSps> {
    let (ff, c16) = s_frame_fields(s, c8);
    let (cg, c17): ((u32, u32, u32, u32), BitCursor) = if ff.7 {
        s_crop(s, c16)
    } else {
        ((0, 0, 0, 0), c16)
    };
    match sps_dims_spec(hb.chroma_format_idc, ff, cg) {
        None => None,
        Some((width, height)) => sps_finish_spec(
            s,
            c17,
            beyond,
            profile,
            compat,
            level,
            id,
            hb,
            lmfn,
            poct,
            poc,
            ff,
            cg,
            width,
            height,
        ),
    }
}

/// The whole SPS at the start of an un-escaped payload, per the walk
/// of ITU-T H.264 section 7.3.2.1: nothing when a read runs out of
/// stream, when the chroma format under cropping is not one of 0
/// through 3, when the cropping window leaves no picture, or when a
/// picture dimension does not fit 32 bits.
pub open spec fn sps_spec(s: Seq<u8>, beyond: bool) -> Option<GSps> {
    let c0 = BitCursor { pos: 0, failed: false };
    let (profile, c1) = s_read(s, c0, 8);
    let (compat, c2) = s_read(s, c1, 8);
    let (level, c3) = s_read(s, c2, 8);
    let (id, c4) = s_uev(s, c3);
    let (hb, c5): (GHigh, BitCursor) = if is_high_profile(profile as u8) {
        high_spec(s, c4)
    } else {
        (
            GHigh {
                chroma_format_idc: if profile == 138 {
                    0
                } else {
                    1
                },
                separate_colour_plane_flag: false,
                bit_depth_luma_minus8: 0,
                bit_depth_chroma_minus8: 0,
                qpprime_y_zero_transform_bypass_flag: false,
                seq_scaling_matrix_present_flag: false,
                seq_scaling_lists: Seq::empty(),
            },
            c4,
        )
    };
    let (lmfn, c6) = s_uev(s, c5);
    let (poct, c7) = s_uev(s, c6);
    let (poc, c8) = poc_spec(s, c7, poct);
    sps_tail_spec(
        s,
        c8,
        beyond,
        profile as u8,
        compat as u8,
        level as u8,
        id as u32,
        hb,
        lmfn as u32,
        poct as u32,
        poc,
    )
}

/// Parse the HRD parameter block.
fn parse_hrd_parameters(r: &mut BitReader) -> (h: HrdParameters)
    requires
        old(r).wf(),
    ensures
        final(r).wf(),
        final(r).stream() == old(r).stream(),
        ({
            let c0 = reader_cursor(*old(r));
            let (g, cf) = hrd_spec(old(r).stream(), c0);
            hrd_matches(h, g) && reader_at(*final(r), cf)
        }),
{
    let ghost s = old(r).stream();
    let ghost c0 = reader_cursor(*old(r));
    let cpb_count_minus1 = read_ue(r);
    let bit_rate_scale = r.read(4);
    let cpb_size_scale = r.read(4);
    let ghost mut cur = s_read(s, s_read(s, s_uev(s, c0).1, 4).1, 4).1;
    let ghost (total_entries, c_entries) = s_cpb_entries(s, cur, (cpb_count_minus1 + 1) as nat);
    let mut cpb_entries: Vec<CpbEntry> = Vec::new();
    let mut i: u64 = 0;
    proof {
        assert(Seq::<CpbEntry>::empty() + total_entries =~= total_entries);
    }
    while i <= cpb_count_minus1 as u64
        invariant
            i <= cpb_count_minus1 as u64 + 1,
            r.wf(),
            r.stream() == s,
            reader_at(*r, cur),
            ({
                let (suf, cf) = s_cpb_entries(s, cur, (cpb_count_minus1 as u64 + 1 - i) as nat);
                total_entries == cpb_entries@ + suf && c_entries == cf
            }),
        decreases cpb_count_minus1 as u64 + 1 - i,
    {
        let ghost cur0 = cur;
        let bit_rate_value_minus1 = read_ue(r);
        let cpb_size_value_minus1 = read_ue(r);
        let cbr_flag = r.read_flag();
        proof {
            cur = s_flag(s, s_uev(s, s_uev(s, cur).1).1).1;
        }
        cpb_entries.push(CpbEntry { bit_rate_value_minus1, cpb_size_value_minus1, cbr_flag });
        i = i + 1;
        proof {
            let rem0 = (cpb_count_minus1 as u64 + 2 - i) as nat;
            let (suf0, _d0) = s_cpb_entries(s, cur0, rem0);
            let (suf1, _d1) = s_cpb_entries(s, cur, (cpb_count_minus1 as u64 + 1 - i) as nat);
            assert(suf0 == seq![
                CpbEntry { bit_rate_value_minus1, cpb_size_value_minus1, cbr_flag },
            ] + suf1);
            assert(cpb_entries@ + suf1 =~= total_entries);
        }
    }
    let initial_cpb_removal_delay_length_minus1 = r.read(5);
    let cpb_removal_delay_length_minus1 = r.read(5);
    let dpb_output_delay_length_minus1 = r.read(5);
    let time_offset_length = r.read(5);
    HrdParameters {
        cpb_count_minus1,
        bit_rate_scale,
        cpb_size_scale,
        cpb_entries,
        initial_cpb_removal_delay_length_minus1,
        cpb_removal_delay_length_minus1,
        dpb_output_delay_length_minus1,
        time_offset_length,
    }
}

/// Read the overscan pair.
fn read_overscan(r: &mut BitReader) -> (o: (bool, bool))
    requires
        old(r).wf(),
    ensures
        final(r).wf(),
        final(r).stream() == old(r).stream(),
        ({
            let c = reader_cursor(*old(r));
            let (ov, ova, cf) = s_overscan(old(r).stream(), c);
            o.0 == ov && o.1 == ova && reader_at(*final(r), cf)
        }),
{
    let ov = r.read_flag();
    let mut ova = false;
    if ov {
        ova = r.read_flag();
    }
    (ov, ova)
}

/// Read the video-signal group.
fn read_video_signal(r: &mut BitReader) -> (o: (bool, u32, bool, bool, u32, u32, u32))
    requires
        old(r).wf(),
    ensures
        final(r).wf(),
        final(r).stream() == old(r).stream(),
        ({
            let c = reader_cursor(*old(r));
            let (v, cf) = s_video_signal(old(r).stream(), c);
            o == v && reader_at(*final(r), cf)
        }),
{
    let vst = r.read_flag();
    let mut vfmt: u32 = 0;
    let mut vfr = false;
    let mut cdesc = false;
    let mut cp: u32 = 0;
    let mut tc: u32 = 0;
    let mut mc: u32 = 0;
    if vst {
        vfmt = r.read(3);
        vfr = r.read_flag();
        cdesc = r.read_flag();
        if cdesc {
            cp = r.read(8);
            tc = r.read(8);
            mc = r.read(8);
        }
    }
    (vst, vfmt, vfr, cdesc, cp, tc, mc)
}

/// Read the chroma sample location group.
fn read_chroma_loc(r: &mut BitReader) -> (o: (bool, u32, u32))
    requires
        old(r).wf(),
    ensures
        final(r).wf(),
        final(r).stream() == old(r).stream(),
        ({
            let c = reader_cursor(*old(r));
            let (v, cf) = s_chroma_loc(old(r).stream(), c);
            o == v && reader_at(*final(r), cf)
        }),
{
    let cl = r.read_flag();
    let mut clt: u32 = 0;
    let mut clb: u32 = 0;
    if cl {
        clt = read_ue(r);
        clb = read_ue(r);
    }
    (cl, clt, clb)
}

/// Read the timing group.
fn read_timing(r: &mut BitReader) -> (o: (bool, u32, u32, bool))
    requires
        old(r).wf(),
    ensures
        final(r).wf(),
        final(r).stream() == old(r).stream(),
        ({
            let c = reader_cursor(*old(r));
            let (v, cf) = s_timing(old(r).stream(), c);
            o == v && reader_at(*final(r), cf)
        }),
{
    let ti = r.read_flag();
    let mut nuit: u32 = 0;
    let mut tsc: u32 = 0;
    let mut ffr = false;
    if ti {
        nuit = r.read(32);
        tsc = r.read(32);
        ffr = r.read_flag();
    }
    (ti, nuit, tsc, ffr)
}

/// Read one optional HRD block behind its presence flag.
fn read_opt_hrd(r: &mut BitReader) -> (o: (bool, Option<HrdParameters>))
    requires
        old(r).wf(),
    ensures
        final(r).wf(),
        final(r).stream() == old(r).stream(),
        ({
            let c = reader_cursor(*old(r));
            let (v, cf) = s_opt_hrd(old(r).stream(), c);
            o.0 == v.0 && opt_hrd_matches(o.1, v.1) && reader_at(*final(r), cf)
        }),
{
    let f = r.read_flag();
    let mut h: Option<HrdParameters> = None;
    if f {
        h = Some(parse_hrd_parameters(r));
    }
    (f, h)
}

/// Read the bitstream-restriction group.
fn read_restriction(r: &mut BitReader) -> (o: (bool, bool, u32, u32, u32, u32, u32, u32))
    requires
        old(r).wf(),
    ensures
        final(r).wf(),
        final(r).stream() == old(r).stream(),
        ({
            let c = reader_cursor(*old(r));
            let (v, cf) = s_restriction(old(r).stream(), c);
            o == v && reader_at(*final(r), cf)
        }),
{
    let brf = r.read_flag();
    let mut mv = false;
    let mut mbp: u32 = 0;
    let mut mbm: u32 = 0;
    let mut lh: u32 = 0;
    let mut lv: u32 = 0;
    let mut rf: u32 = 0;
    let mut dfb: u32 = 0;
    if brf {
        mv = r.read_flag();
        mbp = read_ue(r);
        mbm = read_ue(r);
        lh = read_ue(r);
        lv = read_ue(r);
        rf = read_ue(r);
        dfb = read_ue(r);
    }
    (brf, mv, mbp, mbm, lh, lv, rf, dfb)
}

/// Parse the VUI fields after the aspect ratio.
#[verifier::rlimit(100)]
#[verifier::spinoff_prover]
fn parse_vui_tail(r: &mut BitReader, sarw: u32, sarh: u32) -> (vui: VuiParameters)
    requires
        old(r).wf(),
    ensures
        final(r).wf(),
        final(r).stream() == old(r).stream(),
        ({
            let c2 = reader_cursor(*old(r));
            let (g, cf) = vui_tail_spec(old(r).stream(), c2, sarw, sarh);
            vui_matches(vui, g) && reader_at(*final(r), cf)
        }),
{
    let ghost s = old(r).stream();
    let ghost c2 = reader_cursor(*old(r));
    let (ov, ova) = read_overscan(r);
    let vs = read_video_signal(r);
    let cg = read_chroma_loc(r);
    let tg = read_timing(r);
    let ng = read_opt_hrd(r);
    let vg = read_opt_hrd(r);
    let mut ld = false;
    if ng.0 || vg.0 {
        ld = r.read_flag();
    }
    let ps = r.read_flag();
    let rg = read_restriction(r);
    VuiParameters {
        sample_aspect_ratio_width: sarw,
        sample_aspect_ratio_height: sarh,
        overscan_info_present_flag: ov,
        overscan_appropriate_flag: ova,
        video_signal_type_present_flag: vs.0,
        video_format: vs.1,
        video_full_range_flag: vs.2,
        colour_description_flag: vs.3,
        colour_primaries: vs.4,
        transfer_characteristics: vs.5,
        matrix_coefficients: vs.6,
        chroma_loc_info_present_flag: cg.0,
        chroma_sample_loc_type_top_field: cg.1,
        chroma_sample_loc_type_bottom_field: cg.2,
        timing_info_present_flag: tg.0,
        num_units_in_tick: tg.1,
        time_scale: tg.2,
        fixed_frame_rate_flag: tg.3,
        nal_hrd_parameters_present_flag: ng.0,
        nal_hrd_parameters: ng.1,
        vcl_hrd_parameters_present_flag: vg.0,
        vcl_hrd_parameters: vg.1,
        low_delay_hrd_flag: ld,
        pic_struct_present_flag: ps,
        bitstream_restriction_flag: rg.0,
        motion_vectors_over_pic_boundaries_flag: rg.1,
        max_bytes_per_pic_denom: rg.2,
        max_bits_per_mb_denom: rg.3,
        log2_max_mv_length_horizontal: rg.4,
        log2_max_mv_length_vertical: rg.5,
        max_num_reorder_frames: rg.6,
        max_dec_frame_buffering: rg.7,
    }
}

/// Parse the VUI block; with `beyond_aspect_ratio` false only the
/// aspect-ratio part is read, which is all a codec string needs.
fn parse_vui(r: &mut BitReader, beyond_aspect_ratio: bool) -> (vui: VuiParameters)
    requires
        old(r).wf(),
    ensures
        final(r).wf(),
        final(r).stream() == old(r).stream(),
        ({
            let c0 = reader_cursor(*old(r));
            let (g, cf) = vui_spec(old(r).stream(), c0, beyond_aspect_ratio);
            vui_matches(vui, g) && reader_at(*final(r), cf)
        }),
{
    let ghost s = old(r).stream();
    let ghost c0 = reader_cursor(*old(r));
    let mut sarw: u32 = 0;
    let mut sarh: u32 = 0;
    let aspect_ratio_info_present_flag = r.read_flag();
    if aspect_ratio_info_present_flag {
        let aspect_ratio_idc = r.read(8);
        if aspect_ratio_idc == 255 {
            // Extended sample aspect ratio: two explicit 16-bit values.
            sarw = r.read(16);
            sarh = r.read(16);
        } else if let Some((w, h)) = get_sar_from_idc(aspect_ratio_idc) {
            sarw = w;
            sarh = h;
        }
    }
    let ghost c2 = sar_spec(s, c0).2;
    proof {
        assert(reader_at(*r, c2));
        assert(sarw == sar_spec(s, c0).0);
        assert(sarh == sar_spec(s, c0).1);
    }
    if !beyond_aspect_ratio {
        let mut vui = VuiParameters::default();
        vui.sample_aspect_ratio_width = sarw;
        vui.sample_aspect_ratio_height = sarh;
        return vui;
    }
    parse_vui_tail(r, sarw, sarh)
}

/// Parse the chroma, bit-depth and scaling-matrix block of a
/// high-family profile.
fn parse_high_block(r: &mut BitReader) -> (hb: (u32, bool, u32, u32, bool, bool, Vec<
    Option<Vec<i32>>,
>))
    requires
        old(r).wf(),
    ensures
        final(r).wf(),
        final(r).stream() == old(r).stream(),
        ({
            let c0 = reader_cursor(*old(r));
            let (g, cf) = high_spec(old(r).stream(), c0);
            &&& hb.0 == g.chroma_format_idc
            &&& hb.1 == g.separate_colour_plane_flag
            &&& hb.2 == g.bit_depth_luma_minus8
            &&& hb.3 == g.bit_depth_chroma_minus8
            &&& hb.4 == g.qpprime_y_zero_transform_bypass_flag
            &&& hb.5 == g.seq_scaling_matrix_present_flag
            &&& scaling_lists_match(hb.6@, g.seq_scaling_lists)
            &&& reader_at(*final(r), cf)
        }),
{
    let ghost s = old(r).stream();
    let ghost c0 = reader_cursor(*old(r));
    let chroma_format_idc = read_ue(r);
    let ghost mut cur = s_uev(s, c0).1;
    let mut separate_colour_plane_flag = false;
    if chroma_format_idc == 3 {
        separate_colour_plane_flag = r.read_flag();
        proof {
            cur = s_flag(s, cur).1;
        }
    }
    let bit_depth_luma_minus8 = read_ue(r);
    let bit_depth_chroma_minus8 = read_ue(r);
    let qpprime_y_zero_transform_bypass_flag = r.read_flag();
    let seq_scaling_matrix_present_flag = r.read_flag();
    proof {
        cur = s_flag(s, s_flag(s, s_uev(s, s_uev(s, cur).1).1).1).1;
    }
    let mut seq_scaling_lists: Vec<Option<Vec<i32>>> = Vec::new();
    if seq_scaling_matrix_present_flag {
        let nr: usize = if chroma_format_idc != 3 {
            8
        } else {
            12
        };
        let ghost (total_lists, c_lists) = s_scaling_lists(s, cur, 0, nr as nat);
        let ghost mut gl: Seq<Option<Seq<i32>>> = Seq::empty();
        let mut i: usize = 0;
        proof {
            assert(gl + total_lists =~= total_lists);
        }
        while i < nr
            invariant
                i <= nr,
                nr <= 12,
                r.wf(),
                r.stream() == s,
                reader_at(*r, cur),
                seq_scaling_lists@.len() == i,
                gl.len() == i,
                scaling_lists_match(seq_scaling_lists@, gl),
                ({
                    let (suf, cf) = s_scaling_lists(s, cur, i as nat, nr as nat);
                    total_lists == gl + suf && c_lists == cf
                }),
            decreases nr - i,
        {
            let ghost cur0 = cur;
            let ghost gl0 = gl;
            let present = r.read_flag();
            proof {
                cur = s_flag(s, cur).1;
            }
            if present {
                let size: usize = if i < 6 {
                    16
                } else {
                    64
                };
                let l = read_scaling_list(r, size);
                proof {
                    gl = gl.push(Some(scaling_list_spec(s, cur, size as nat, 8, 8).0));
                    cur = scaling_list_spec(s, cur, size as nat, 8, 8).1;
                }
                seq_scaling_lists.push(Some(l));
            } else {
                proof {
                    gl = gl.push(None);
                }
                seq_scaling_lists.push(None);
            }
            i = i + 1;
            proof {
                let (suf0, _d0) = s_scaling_lists(s, cur0, (i - 1) as nat, nr as nat);
                let (suf1, _d1) = s_scaling_lists(s, cur, i as nat, nr as nat);
                assert(suf0 == seq![gl[i - 1]] + suf1);
                assert(gl0 + suf0 =~= gl + suf1);
            }
        }
        proof {
            assert(s_scaling_lists(s, cur, nr as nat, nr as nat).0 =~= Seq::<
                Option<Seq<i32>>,
            >::empty());
            assert(gl + s_scaling_lists(s, cur, nr as nat, nr as nat).0 =~= gl);
        }
    }
    (
        chroma_format_idc,
        separate_colour_plane_flag,
        bit_depth_luma_minus8,
        bit_depth_chroma_minus8,
        qpprime_y_zero_transform_bypass_flag,
        seq_scaling_matrix_present_flag,
        seq_scaling_lists,
    )
}

/// Parse the picture-order-count fields for a POC type.
fn parse_poc_block(r: &mut BitReader, poct: u32) -> (p: (u32, bool, u32, u32, Vec<u32>))
    requires
        old(r).wf(),
    ensures
        final(r).wf(),
        final(r).stream() == old(r).stream(),
        ({
            let c0 = reader_cursor(*old(r));
            let (g, cf) = poc_spec(old(r).stream(), c0, poct as nat);
            &&& p.0 == g.log2_max_pic_order_cnt_lsb_minus4
            &&& p.1 == g.delta_pic_order_always_zero_flag
            &&& p.2 == g.offset_for_non_ref_pic
            &&& p.3 == g.offset_for_top_to_bottom_field
            &&& p.4@ == g.ref_frames_in_pic_order_cnt_cycle
            &&& reader_at(*final(r), cf)
        }),
{
    let ghost s = old(r).stream();
    let ghost c0 = reader_cursor(*old(r));
    if poct == 0 {
        let v = read_ue(r);
        (v, false, 0, 0, Vec::new())
    } else if poct == 1 {
        let d = r.read_flag();
        let o1 = read_ue(r);
        let o2 = read_ue(r);
        let num = read_ue(r);
        let ghost mut cur = s_uev(s, s_uev(s, s_uev(s, s_flag(s, c0).1).1).1).1;
        let ghost (total, c_list) = s_uev_list(s, cur, num as nat);
        let mut cycle: Vec<u32> = Vec::new();
        let mut k: u64 = 0;
        proof {
            assert(Seq::<u32>::empty() + total =~= total);
        }
        while k < num as u64
            invariant
                k <= num as u64,
                r.wf(),
                r.stream() == s,
                reader_at(*r, cur),
                ({
                    let (suf, cf) = s_uev_list(s, cur, (num as u64 - k) as nat);
                    total == cycle@ + suf && c_list == cf
                }),
            decreases num as u64 - k,
        {
            let ghost cur0 = cur;
            let v = read_ue(r);
            proof {
                cur = s_uev(s, cur).1;
            }
            cycle.push(v);
            k = k + 1;
            proof {
                let (suf0, _d0) = s_uev_list(s, cur0, (num as u64 + 1 - k) as nat);
                let (suf1, _d1) = s_uev_list(s, cur, (num as u64 - k) as nat);
                assert(suf0 == seq![v] + suf1);
                assert(cycle@ + suf1 =~= total);
            }
        }
        (0, d, o1, o2, cycle)
    } else {
        (0, false, 0, 0, Vec::new())
    }
}

/// Parse an SPS NAL unit, header byte included, VUI and all: exactly
/// [`sps_spec`] on the un-escaped payload.
pub fn parse_sps_nalu(nalu: &[u8]) -> (r: Option<Sps>)
    requires
        nalu@.len() <= 0x1000_0000_0000_0000,
    ensures
        ({
            let ok = nalu@.len() > 0 && nalu_type_of(nalu@[0]) == NaluType::Sps;
            match r {
                Some(sps) => ok && (sps_spec(rbsp(nalu@.skip(1)), true) matches Some(g)
                    && sps_matches(sps, g)),
                None => !ok || sps_spec(rbsp(nalu@.skip(1)), true) is None,
            }
        }),
{
    parse_sps_nalu_with_vui(nalu, true)
}

/// Read the frame-layout fields.
fn read_frame_fields(r: &mut BitReader) -> (o: (u32, bool, u32, u32, bool, bool, bool, bool))
    requires
        old(r).wf(),
    ensures
        final(r).wf(),
        final(r).stream() == old(r).stream(),
        ({
            let (v, cf) = s_frame_fields(old(r).stream(), reader_cursor(*old(r)));
            o == v && reader_at(*final(r), cf)
        }),
{
    let nref = read_ue(r);
    let gaps = r.read_flag();
    let pw = read_ue(r);
    let ph = read_ue(r);
    let fmo = r.read_flag();
    let mut mbaff = false;
    if !fmo {
        mbaff = r.read_flag();
    }
    let d88 = r.read_flag();
    let cropf = r.read_flag();
    (nref, gaps, pw, ph, fmo, mbaff, d88, cropf)
}

/// Read the four cropping offsets.
fn read_crop(r: &mut BitReader) -> (o: (u32, u32, u32, u32))
    requires
        old(r).wf(),
    ensures
        final(r).wf(),
        final(r).stream() == old(r).stream(),
        ({
            let (v, cf) = s_crop(old(r).stream(), reader_cursor(*old(r)));
            o == v && reader_at(*final(r), cf)
        }),
{
    let cl = read_ue(r);
    let cr = read_ue(r);
    let ct = read_ue(r);
    let cbo = read_ue(r);
    (cl, cr, ct, cbo)
}

/// Compute the cropped picture size, rejecting impossible crops.
fn sps_check_dims(cfi: u32, ff: (u32, bool, u32, u32, bool, bool, bool, bool), crop: (
    u32,
    u32,
    u32,
    u32,
)) -> (ret: Option<(u32, u32)>)
    requires
        !ff.7 ==> crop == (0u32, 0u32, 0u32, 0u32),
    ensures
        ret == sps_dims_spec(cfi, ff, crop),
{
    let frame_mbs_only_flag = ff.4;
    let frame_cropping_flag = ff.7;
    let width64 = ((ff.2 as u64) + 1) * 16;
    let mut height64 = ((ff.3 as u64) + 1) * 16;
    if !frame_mbs_only_flag {
        height64 = height64 * 2;
    }
    if frame_cropping_flag && cfi > 3 {
        return None;
    }
    let fmo: u64 = if frame_mbs_only_flag {
        1
    } else {
        0
    };
    let (crop_unit_x, crop_unit_y): (u64, u64) = if cfi == 0 {
        (1, 2 - fmo)
    } else if cfi == 1 {
        (2, 2 * (2 - fmo))
    } else if cfi == 2 {
        (2, 2 - fmo)
    } else {
        (1, 2 - fmo)
    };
    let crop_w = ((crop.0 as u64) + (crop.1 as u64)) * crop_unit_x;
    let crop_h = ((crop.2 as u64) + (crop.3 as u64)) * crop_unit_y;
    if frame_cropping_flag && (crop_w > width64 || crop_h > height64) {
        return None;
    }
    let width64v = width64 - crop_w;
    let height64v = height64 - crop_h;
    if width64v > u32::MAX as u64 || height64v > u32::MAX as u64 {
        return None;
    }
    Some((width64v as u32, height64v as u32))
}

/// Parse the VUI presence flag and the VUI, and assemble the record.
#[verifier::rlimit(100)]
#[verifier::spinoff_prover]
fn parse_sps_finish(
    r: &mut BitReader,
    beyond: bool,
    profile: u8,
    profile_compatibility: u8,
    level: u8,
    parameter_set_id: u32,
    hb: (u32, bool, u32, u32, bool, bool, Vec<Option<Vec<i32>>>),
    log2_max_frame_num_minus4: u32,
    pic_order_cnt_type: u32,
    pb: (u32, bool, u32, u32, Vec<u32>),
    ff: (u32, bool, u32, u32, bool, bool, bool, bool),
    crop: (u32, u32, u32, u32),
    width: u32,
    height: u32,
    Ghost(ghb): Ghost<GHigh>,
    Ghost(gpoc): Ghost<GPoc>,
) -> (ret: Option<Sps>)
    requires
        old(r).wf(),
        hb.0 == ghb.chroma_format_idc,
        hb.1 == ghb.separate_colour_plane_flag,
        hb.2 == ghb.bit_depth_luma_minus8,
        hb.3 == ghb.bit_depth_chroma_minus8,
        hb.4 == ghb.qpprime_y_zero_transform_bypass_flag,
        hb.5 == ghb.seq_scaling_matrix_present_flag,
        scaling_lists_match(hb.6@, ghb.seq_scaling_lists),
        pb.0 == gpoc.log2_max_pic_order_cnt_lsb_minus4,
        pb.1 == gpoc.delta_pic_order_always_zero_flag,
        pb.2 == gpoc.offset_for_non_ref_pic,
        pb.3 == gpoc.offset_for_top_to_bottom_field,
        pb.4@ == gpoc.ref_frames_in_pic_order_cnt_cycle,
    ensures
        ({
            let m = sps_finish_spec(
                old(r).stream(),
                reader_cursor(*old(r)),
                beyond,
                profile,
                profile_compatibility,
                level,
                parameter_set_id,
                ghb,
                log2_max_frame_num_minus4,
                pic_order_cnt_type,
                gpoc,
                ff,
                crop,
                width,
                height,
            );
            match ret {
                Some(sps) => m matches Some(g) && sps_matches(sps, g),
                None => m is None,
            }
        }),
{
    let ghost s = old(r).stream();
    let ghost c17 = reader_cursor(*old(r));
    let vui_parameters_present_flag = r.read_flag();
    let ghost mut cur = s_flag(s, c17).1;
    proof {
        assert(reader_at(*r, cur));
    }
    let nr_bytes_before_vui64 = r.nr_bytes_read();
    proof {
        r.lemma_bytes_loaded_is_ceil();
    }
    let mut vui: Option<VuiParameters> = None;
    if vui_parameters_present_flag {
        vui = Some(parse_vui(r, beyond));
        proof {
            cur = vui_spec(s, cur, beyond).1;
        }
    }
    let nr_bytes_read64 = r.nr_bytes_read();
    proof {
        r.lemma_bytes_loaded_is_ceil();
        assert(reader_at(*r, cur));
    }
    if r.acc_error().is_some() {
        return None;
    }
    let nr_bytes_before_vui = if nr_bytes_before_vui64 > u32::MAX as usize {
        u32::MAX
    } else {
        nr_bytes_before_vui64 as u32
    };
    let nr_bytes_read = if nr_bytes_read64 > u32::MAX as usize {
        u32::MAX
    } else {
        nr_bytes_read64 as u32
    };
    Some(
        Sps {
            profile,
            profile_compatibility,
            level,
            parameter_set_id,
            chroma_format_idc: hb.0,
            separate_colour_plane_flag: hb.1,
            bit_depth_luma_minus8: hb.2,
            bit_depth_chroma_minus8: hb.3,
            qpprime_y_zero_transform_bypass_flag: hb.4,
            seq_scaling_matrix_present_flag: hb.5,
            seq_scaling_lists: hb.6,
            log2_max_frame_num_minus4,
            pic_order_cnt_type,
            log2_max_pic_order_cnt_lsb_minus4: pb.0,
            delta_pic_order_always_zero_flag: pb.1,
            offset_for_non_ref_pic: pb.2,
            offset_for_top_to_bottom_field: pb.3,
            ref_frames_in_pic_order_cnt_cycle: pb.4,
            num_ref_frames: ff.0,
            gaps_in_frame_num_value_allowed_flag: ff.1,
            frame_mbs_only_flag: ff.4,
            mb_adaptive_frame_field_flag: ff.5,
            direct_8x8_inference_flag: ff.6,
            frame_cropping_flag: ff.7,
            frame_crop_left_offset: crop.0,
            frame_crop_right_offset: crop.1,
            frame_crop_top_offset: crop.2,
            frame_crop_bottom_offset: crop.3,
            width,
            height,
            nr_bytes_before_vui,
            nr_bytes_read,
            vui,
        },
    )
}

/// Parse the SPS fields after the picture-order-count block and
/// assemble the record; the already-read prefix is passed through.
fn parse_sps_tail(
    r: &mut BitReader,
    beyond: bool,
    profile: u8,
    profile_compatibility: u8,
    level: u8,
    parameter_set_id: u32,
    hb: (u32, bool, u32, u32, bool, bool, Vec<Option<Vec<i32>>>),
    log2_max_frame_num_minus4: u32,
    pic_order_cnt_type: u32,
    pb: (u32, bool, u32, u32, Vec<u32>),
    Ghost(ghb): Ghost<GHigh>,
    Ghost(gpoc): Ghost<GPoc>,
) -> (ret: Option<Sps>)
    requires
        old(r).wf(),
        hb.0 == ghb.chroma_format_idc,
        hb.1 == ghb.separate_colour_plane_flag,
        hb.2 == ghb.bit_depth_luma_minus8,
        hb.3 == ghb.bit_depth_chroma_minus8,
        hb.4 == ghb.qpprime_y_zero_transform_bypass_flag,
        hb.5 == ghb.seq_scaling_matrix_present_flag,
        scaling_lists_match(hb.6@, ghb.seq_scaling_lists),
        pb.0 == gpoc.log2_max_pic_order_cnt_lsb_minus4,
        pb.1 == gpoc.delta_pic_order_always_zero_flag,
        pb.2 == gpoc.offset_for_non_ref_pic,
        pb.3 == gpoc.offset_for_top_to_bottom_field,
        pb.4@ == gpoc.ref_frames_in_pic_order_cnt_cycle,
    ensures
        ({
            let m = sps_tail_spec(
                old(r).stream(),
                reader_cursor(*old(r)),
                beyond,
                profile,
                profile_compatibility,
                level,
                parameter_set_id,
                ghb,
                log2_max_frame_num_minus4,
                pic_order_cnt_type,
                gpoc,
            );
            match ret {
                Some(sps) => m matches Some(g) && sps_matches(sps, g),
                None => m is None,
            }
        }),
{
    let ghost s = old(r).stream();
    let ghost c8 = reader_cursor(*old(r));
    let ff = read_frame_fields(r);
    let ghost mut cur = s_frame_fields(s, c8).1;
    let mut crop: (u32, u32, u32, u32) = (0, 0, 0, 0);
    if ff.7 {
        crop = read_crop(r);
        proof {
            cur = s_crop(s, cur).1;
        }
    }
    proof {
        assert(reader_at(*r, cur));
    }
    let (width, height) = match sps_check_dims(hb.0, ff, crop) {
        Some(wh) => wh,
        None => {
            return None;
        },
    };
    parse_sps_finish(
        r,
        beyond,
        profile,
        profile_compatibility,
        level,
        parameter_set_id,
        hb,
        log2_max_frame_num_minus4,
        pic_order_cnt_type,
        pb,
        ff,
        crop,
        width,
        height,
        Ghost(ghb),
        Ghost(gpoc),
    )
}

/// Parse an SPS NAL unit; with `parse_vui_beyond_aspect_ratio` false
/// the VUI is read only up to the aspect ratio.
#[verifier::rlimit(100)]
#[verifier::spinoff_prover]
pub fn parse_sps_nalu_with_vui(nalu: &[u8], parse_vui_beyond_aspect_ratio: bool) -> (r: Option<
    Sps,
>)
    requires
        nalu@.len() <= 0x1000_0000_0000_0000,
    ensures
        ({
            let ok = nalu@.len() > 0 && nalu_type_of(nalu@[0]) == NaluType::Sps;
            match r {
                Some(sps) => ok && (sps_spec(
                    rbsp(nalu@.skip(1)),
                    parse_vui_beyond_aspect_ratio,
                ) matches Some(g) && sps_matches(sps, g)),
                None => !ok || sps_spec(rbsp(nalu@.skip(1)), parse_vui_beyond_aspect_ratio)
                    is None,
            }
        }),
{
    if nalu.len() == 0 {
        return None;
    }
    let t = NaluType::from_header_byte(nalu[0]);
    if !matches!(t, NaluType::Sps) {
        return None;
    }
    let bytes = remove_emulation_prevention_bytes(&nalu[1..nalu.len()]);
    proof {
        assert(nalu@.subrange(1, nalu@.len() as int) =~= nalu@.skip(1));
    }
    let ghost s = rbsp(nalu@.skip(1));
    let mut r = BitReader::new(bytes);
    let ghost c0 = BitCursor { pos: 0, failed: false };
    proof {
        crate::bits::lemma_bits_value_bound(s, 0, 8);
        crate::bits::lemma_bits_value_bound(s, 8, 8);
        crate::bits::lemma_bits_value_bound(s, 16, 8);
        vstd::arithmetic::power2::lemma2_to64();
    }
    let profile = r.read(8) as u8;
    let profile_compatibility = r.read(8) as u8;
    let level = r.read(8) as u8;
    let parameter_set_id = read_ue(&mut r);
    let ghost mut cur = s_uev(s, s_read(s, s_read(s, s_read(s, c0, 8).1, 8).1, 8).1).1;
    proof {
        assert(reader_at(r, cur));
    }
    let high = profile == 100 || profile == 110 || profile == 122 || profile == 244 || profile
        == 44 || profile == 83 || profile == 86 || profile == 118 || profile == 128 || profile
        == 138 || profile == 139 || profile == 134 || profile == 135;
    let mut hb: (u32, bool, u32, u32, bool, bool, Vec<Option<Vec<i32>>>) = (
        if profile == 138 {
            0
        } else {
            1
        },
        false,
        0,
        0,
        false,
        false,
        Vec::new(),
    );
    let ghost mut ghb = GHigh {
        chroma_format_idc: if profile == 138 {
            0
        } else {
            1
        },
        separate_colour_plane_flag: false,
        bit_depth_luma_minus8: 0,
        bit_depth_chroma_minus8: 0,
        qpprime_y_zero_transform_bypass_flag: false,
        seq_scaling_matrix_present_flag: false,
        seq_scaling_lists: Seq::empty(),
    };
    if high {
        hb = parse_high_block(&mut r);
        proof {
            ghb = high_spec(s, cur).0;
            cur = high_spec(s, cur).1;
            assert(reader_at(r, cur));
        }
    }
    let log2_max_frame_num_minus4 = read_ue(&mut r);
    let pic_order_cnt_type = read_ue(&mut r);
    proof {
        cur = s_uev(s, s_uev(s, cur).1).1;
        assert(reader_at(r, cur));
    }
    let pb = parse_poc_block(&mut r, pic_order_cnt_type);
    let ghost gpoc = poc_spec(s, cur, pic_order_cnt_type as nat).0;
    proof {
        cur = poc_spec(s, cur, pic_order_cnt_type as nat).1;
        assert(reader_at(r, cur));
    }
    parse_sps_tail(
        &mut r,
        parse_vui_beyond_aspect_ratio,
        profile,
        profile_compatibility,
        level,
        parameter_set_id,
        hb,
        log2_max_frame_num_minus4,
        pic_order_cnt_type,
        pb,
        Ghost(ghb),
        Ghost(gpoc),
    )
}

} // verus!
