use std::collections::HashMap;

use mp4ff::{
    convert_bytestream_to_nalu_sample, convert_sample_to_bytestream, decode_avc_decoder_config,
    dump_nalu_types, extract_nalus_from_bytestream, extract_nalus_of_type_from_bytestream,
    get_first_video_nalu_from_bytestream, get_nalus_from_sample, get_parameter_sets_from_bytestream,
    get_slice_type_from_nalu, parse_pps_nalu, parse_sei_nalu, parse_slice_header, parse_sps_nalu,
    parse_sps_nalu_with_vui, codec_string, CpbEntry, HrdParameters, NaluType, Pps, SliceType, Sps,
    VuiParameters,
};

fn decode_hex(s: &str) -> Vec<u8> {
    let bytes = s.as_bytes();
    let mut out = Vec::with_capacity(s.len() / 2);
    let mut i = 0;
    while i + 1 < bytes.len() {
        let hi = (bytes[i] as char).to_digit(16).unwrap();
        let lo = (bytes[i + 1] as char).to_digit(16).unwrap();
        out.push(((hi << 4) | lo) as u8);
        i += 2;
    }
    out
}

#[test]
fn test_slice_type_parser() {
    let data = decode_hex("25888040ffde08e47a7bff05ab");
    let st = get_slice_type_from_nalu(&data).unwrap();
    assert_eq!(st, SliceType::I);
}

#[test]
fn test_slice_type_strings() {
    assert_eq!(SliceType::P.to_string(), "P");
    assert_eq!(SliceType::B.to_string(), "B");
    assert_eq!(SliceType::I.to_string(), "I");
    assert_eq!(SliceType::SP.to_string(), "SP");
    assert_eq!(SliceType::SI.to_string(), "SI");
}

#[test]
fn test_slice_header_length() {
    let sps_hex = "6764001eacd940a02ff9610000030001000003003c8f162d96";
    let pps_hex = "68ebecb22c";
    let nalu_hex = "419a6649e10f2653022fff8700000302c8a32d32";
    let sps = parse_sps_nalu(&decode_hex(sps_hex)).unwrap();
    let mut sps_map = HashMap::new();
    sps_map.insert(sps.parameter_set_id, sps);
    let pps = parse_pps_nalu(&decode_hex(pps_hex)).unwrap();
    let mut pps_map = HashMap::new();
    pps_map.insert(pps.pic_parameter_set_id, pps);
    let nalu = decode_hex(nalu_hex);
    let sh = parse_slice_header(&nalu, &sps_map, &pps_map).unwrap();
    assert_eq!(sh.size, 11);
}

#[test]
fn test_pps_parser() {
    let data = [0x68u8, 0xe8, 0x43, 0x32, 0xc8, 0xb0];
    let got = parse_pps_nalu(&data).expect("pps");
    let wanted = Pps {
        pic_parameter_set_id: 0,
        seq_parameter_set_id: 0,
        entropy_coding_mode_flag: true,
        bottom_field_pic_order_in_frame_present_flag: false,
        num_slice_groups_minus1: 0,
        slice_group_map_type: 0,
        run_length_minus1: Vec::new(),
        top_left: Vec::new(),
        bottom_right: Vec::new(),
        slice_group_change_direction_flag: false,
        slice_group_change_rate_minus1: 0,
        pic_size_in_map_units_minus1: 0,
        slice_group_id: Vec::new(),
        num_ref_idx_i0_default_active_minus1: 15,
        num_ref_idx_i1_default_active_minus1: 0,
        weighted_pred_flag: true,
        weighted_bipred_idc: 0,
        pic_init_qp_minus26: 0,
        pic_init_qs_minus26: 0,
        chroma_qp_index_offset: -2,
        deblocking_filter_control_present_flag: true,
        constrained_intra_pred_flag: false,
        redundant_pic_cnt_present_flag: false,
        transform8x8_mode_flag: true,
        pic_scaling_matrix_present_flag: false,
        pic_scaling_lists: Vec::new(),
        second_chroma_qp_index_offset: -2,
    };
    assert_eq!(got, wanted);
}

const SPS1: &str = "67640020accac05005bb0169e0000003002000000c9c4c000432380008647c12401cb1c31380";
const SPS2: &str = "6764000dacd941419f9e10000003001000000303c0f1429960";
const SPS3: &str = "27640020ac2ec05005bb011000000300100000078e840016e300005b8d8bdef83b438627";

#[test]
fn test_sps_parser1() {
    let data = decode_hex(SPS1);
    let mut got = parse_sps_nalu_with_vui(&data, true).expect("sps");
    got.nr_bytes_before_vui = 0;
    got.nr_bytes_read = 0;
    let want = Sps {
        profile: 100,
        profile_compatibility: 0,
        level: 32,
        parameter_set_id: 0,
        chroma_format_idc: 1,
        separate_colour_plane_flag: false,
        bit_depth_luma_minus8: 0,
        bit_depth_chroma_minus8: 0,
        qpprime_y_zero_transform_bypass_flag: false,
        seq_scaling_matrix_present_flag: false,
        seq_scaling_lists: Vec::new(),
        log2_max_frame_num_minus4: 0,
        pic_order_cnt_type: 0,
        log2_max_pic_order_cnt_lsb_minus4: 4,
        delta_pic_order_always_zero_flag: false,
        offset_for_non_ref_pic: 0,
        offset_for_top_to_bottom_field: 0,
        ref_frames_in_pic_order_cnt_cycle: Vec::new(),
        num_ref_frames: 2,
        gaps_in_frame_num_value_allowed_flag: false,
        frame_mbs_only_flag: true,
        mb_adaptive_frame_field_flag: false,
        direct_8x8_inference_flag: true,
        frame_cropping_flag: false,
        frame_crop_left_offset: 0,
        frame_crop_right_offset: 0,
        frame_crop_top_offset: 0,
        frame_crop_bottom_offset: 0,
        width: 1280,
        height: 720,
        nr_bytes_before_vui: 0,
        nr_bytes_read: 0,
        vui: Some(VuiParameters {
            sample_aspect_ratio_width: 1,
            sample_aspect_ratio_height: 1,
            overscan_info_present_flag: false,
            overscan_appropriate_flag: false,
            video_signal_type_present_flag: true,
            video_format: 5,
            video_full_range_flag: false,
            colour_description_flag: false,
            colour_primaries: 0,
            transfer_characteristics: 0,
            matrix_coefficients: 0,
            chroma_loc_info_present_flag: true,
            chroma_sample_loc_type_top_field: 0,
            chroma_sample_loc_type_bottom_field: 0,
            timing_info_present_flag: true,
            num_units_in_tick: 1,
            time_scale: 100,
            fixed_frame_rate_flag: true,
            nal_hrd_parameters_present_flag: true,
            nal_hrd_parameters: Some(HrdParameters {
                cpb_count_minus1: 0,
                bit_rate_scale: 1,
                cpb_size_scale: 3,
                cpb_entries: vec![CpbEntry {
                    bit_rate_value_minus1: 34374,
                    cpb_size_value_minus1: 34374,
                    cbr_flag: true,
                }],
                initial_cpb_removal_delay_length_minus1: 16,
                cpb_removal_delay_length_minus1: 9,
                dpb_output_delay_length_minus1: 4,
                time_offset_length: 0,
            }),
            vcl_hrd_parameters_present_flag: false,
            vcl_hrd_parameters: None,
            low_delay_hrd_flag: false,
            pic_struct_present_flag: true,
            bitstream_restriction_flag: true,
            motion_vectors_over_pic_boundaries_flag: true,
            max_bytes_per_pic_denom: 4,
            max_bits_per_mb_denom: 0,
            log2_max_mv_length_horizontal: 13,
            log2_max_mv_length_vertical: 11,
            max_num_reorder_frames: 1,
            max_dec_frame_buffering: 2,
        }),
    };
    assert_eq!(got, want);
}

#[test]
fn test_sps_parser2() {
    let data = decode_hex(SPS2);
    let mut got = parse_sps_nalu_with_vui(&data, true).expect("sps");
    got.nr_bytes_before_vui = 0;
    got.nr_bytes_read = 0;
    let want = Sps {
        profile: 100,
        profile_compatibility: 0,
        level: 13,
        parameter_set_id: 0,
        chroma_format_idc: 1,
        separate_colour_plane_flag: false,
        bit_depth_luma_minus8: 0,
        bit_depth_chroma_minus8: 0,
        qpprime_y_zero_transform_bypass_flag: false,
        seq_scaling_matrix_present_flag: false,
        seq_scaling_lists: Vec::new(),
        log2_max_frame_num_minus4: 0,
        pic_order_cnt_type: 0,
        log2_max_pic_order_cnt_lsb_minus4: 2,
        delta_pic_order_always_zero_flag: false,
        offset_for_non_ref_pic: 0,
        offset_for_top_to_bottom_field: 0,
        ref_frames_in_pic_order_cnt_cycle: Vec::new(),
        num_ref_frames: 4,
        gaps_in_frame_num_value_allowed_flag: false,
        frame_mbs_only_flag: true,
        mb_adaptive_frame_field_flag: false,
        direct_8x8_inference_flag: true,
        frame_cropping_flag: true,
        frame_crop_left_offset: 0,
        frame_crop_right_offset: 0,
        frame_crop_top_offset: 0,
        frame_crop_bottom_offset: 6,
        width: 320,
        height: 180,
        nr_bytes_before_vui: 0,
        nr_bytes_read: 0,
        vui: Some(VuiParameters {
            sample_aspect_ratio_width: 0,
            sample_aspect_ratio_height: 0,
            overscan_info_present_flag: false,
            overscan_appropriate_flag: false,
            video_signal_type_present_flag: false,
            video_format: 0,
            video_full_range_flag: false,
            colour_description_flag: false,
            colour_primaries: 0,
            transfer_characteristics: 0,
            matrix_coefficients: 0,
            chroma_loc_info_present_flag: false,
            chroma_sample_loc_type_top_field: 0,
            chroma_sample_loc_type_bottom_field: 0,
            timing_info_present_flag: true,
            num_units_in_tick: 1,
            time_scale: 60,
            fixed_frame_rate_flag: false,
            nal_hrd_parameters_present_flag: false,
            nal_hrd_parameters: None,
            vcl_hrd_parameters_present_flag: false,
            vcl_hrd_parameters: None,
            low_delay_hrd_flag: false,
            pic_struct_present_flag: false,
            bitstream_restriction_flag: true,
            motion_vectors_over_pic_boundaries_flag: true,
            max_bytes_per_pic_denom: 0,
            max_bits_per_mb_denom: 0,
            log2_max_mv_length_horizontal: 9,
            log2_max_mv_length_vertical: 9,
            max_num_reorder_frames: 2,
            max_dec_frame_buffering: 4,
        }),
    };
    assert_eq!(got, want);
}

#[test]
fn test_sps_parser3() {
    let data = decode_hex(SPS3);
    let mut got = parse_sps_nalu_with_vui(&data, true).expect("sps");
    got.nr_bytes_before_vui = 0;
    got.nr_bytes_read = 0;
    let want = Sps {
        profile: 100,
        profile_compatibility: 0,
        level: 32,
        parameter_set_id: 0,
        chroma_format_idc: 1,
        separate_colour_plane_flag: false,
        bit_depth_luma_minus8: 0,
        bit_depth_chroma_minus8: 0,
        qpprime_y_zero_transform_bypass_flag: false,
        seq_scaling_matrix_present_flag: false,
        seq_scaling_lists: Vec::new(),
        log2_max_frame_num_minus4: 4,
        pic_order_cnt_type: 0,
        log2_max_pic_order_cnt_lsb_minus4: 0,
        delta_pic_order_always_zero_flag: false,
        offset_for_non_ref_pic: 0,
        offset_for_top_to_bottom_field: 0,
        ref_frames_in_pic_order_cnt_cycle: Vec::new(),
        num_ref_frames: 2,
        gaps_in_frame_num_value_allowed_flag: false,
        frame_mbs_only_flag: true,
        mb_adaptive_frame_field_flag: false,
        direct_8x8_inference_flag: true,
        frame_cropping_flag: false,
        frame_crop_left_offset: 0,
        frame_crop_right_offset: 0,
        frame_crop_top_offset: 0,
        frame_crop_bottom_offset: 0,
        width: 1280,
        height: 720,
        nr_bytes_before_vui: 0,
        nr_bytes_read: 0,
        vui: Some(VuiParameters {
            sample_aspect_ratio_width: 1,
            sample_aspect_ratio_height: 1,
            overscan_info_present_flag: false,
            overscan_appropriate_flag: false,
            video_signal_type_present_flag: false,
            video_format: 0,
            video_full_range_flag: false,
            colour_description_flag: false,
            colour_primaries: 0,
            transfer_characteristics: 0,
            matrix_coefficients: 0,
            chroma_loc_info_present_flag: false,
            chroma_sample_loc_type_top_field: 0,
            chroma_sample_loc_type_bottom_field: 0,
            timing_info_present_flag: true,
            num_units_in_tick: 1,
            time_scale: 120,
            fixed_frame_rate_flag: true,
            nal_hrd_parameters_present_flag: true,
            nal_hrd_parameters: Some(HrdParameters {
                cpb_count_minus1: 0,
                bit_rate_scale: 4,
                cpb_size_scale: 2,
                cpb_entries: vec![CpbEntry {
                    bit_rate_value_minus1: 5858,
                    cpb_size_value_minus1: 187499,
                    cbr_flag: false,
                }],
                initial_cpb_removal_delay_length_minus1: 23,
                cpb_removal_delay_length_minus1: 23,
                dpb_output_delay_length_minus1: 23,
                time_offset_length: 24,
            }),
            vcl_hrd_parameters_present_flag: false,
            vcl_hrd_parameters: None,
            low_delay_hrd_flag: false,
            pic_struct_present_flag: true,
            bitstream_restriction_flag: true,
            motion_vectors_over_pic_boundaries_flag: true,
            max_bytes_per_pic_denom: 2,
            max_bits_per_mb_denom: 1,
            log2_max_mv_length_horizontal: 13,
            log2_max_mv_length_vertical: 11,
            max_num_reorder_frames: 1,
            max_dec_frame_buffering: 2,
        }),
    };
    assert_eq!(got, want);
}

#[test]
fn test_codec_string() {
    let data = decode_hex(SPS1);
    let sps = parse_sps_nalu_with_vui(&data, true).unwrap();
    let codec = codec_string("avc3", &sps);
    assert_eq!(codec, "avc3.640020");
}

#[test]
fn test_codec_string_format() {
    let data = decode_hex(SPS1);
    let sps = parse_sps_nalu(&data).unwrap();
    let codec = codec_string("avc1", &sps);
    assert_eq!(codec.len(), 4 + 7);
    let chars: Vec<char> = codec.chars().collect();
    assert_eq!(chars[4], '.');
    for &c in &chars[5..] {
        assert!(c.is_ascii_hexdigit() && (c.is_ascii_digit() || c.is_ascii_uppercase()));
    }
}

#[test]
fn test_sample_to_bytestream() {
    let sample = vec![0u8, 0, 0, 2, 0x09, 0x10, 0, 0, 0, 3, 0x67, 0x42, 0x80];
    let got = convert_sample_to_bytestream(&sample);
    let want = vec![0u8, 0, 0, 1, 0x09, 0x10, 0, 0, 0, 1, 0x67, 0x42, 0x80];
    assert_eq!(got, want);
}

#[test]
fn test_sample_to_bytestream_truncated() {
    // A length that runs past the sample ends the conversion quietly.
    let sample = vec![0u8, 0, 0, 9, 0x67];
    let got = convert_sample_to_bytestream(&sample);
    assert_eq!(got, Vec::<u8>::new());
}

#[test]
fn test_sample_packing_roundtrip() {
    let sample = vec![0u8, 0, 0, 2, 0x09, 0x10, 0, 0, 0, 3, 0x67, 0x42, 0x80];
    let stream = convert_sample_to_bytestream(&sample);
    let back = convert_bytestream_to_nalu_sample(&stream);
    assert_eq!(back, sample);
}

#[test]
fn test_extract_nalus_strips_trailing_zeros() {
    let stream = vec![0u8, 0, 0, 1, 0x67, 0x64, 0x00, 0, 0, 1, 0x68];
    let nalus = extract_nalus_from_bytestream(&stream);
    assert_eq!(nalus.len(), 2);
    // The zero byte before the second start code is stripped.
    assert_eq!(nalus[0], vec![0x67, 0x64]);
    assert_eq!(nalus[1], vec![0x68]);
    for n in &nalus {
        assert!(n.is_empty() || *n.last().unwrap() != 0);
    }
}

#[test]
fn test_first_video_nalu() {
    let stream = vec![0u8, 0, 0, 1, 0x67, 0, 0, 1, 0x65, 0x12, 0, 0, 0, 1, 0x68];
    let got = get_first_video_nalu_from_bytestream(&stream).unwrap();
    assert_eq!(got, vec![0x65, 0x12]);
}

#[test]
fn test_parameter_sets_from_bytestream() {
    let stream = vec![
        0u8, 0, 0, 1, 0x67, 0x64, 0, 0, 1, 0x68, 0xEB, 0, 0, 0, 1, 0x65, 0x11, 0, 0, 1, 0x68,
    ];
    let (sps, pps) = get_parameter_sets_from_bytestream(&stream);
    // The scan stops at the first video NAL unit, before the second PPS.
    assert_eq!(sps, vec![vec![0x67, 0x64]]);
    assert_eq!(pps, vec![vec![0x68, 0xEB]]);
}

#[test]
fn test_extract_nalus_of_type() {
    let stream = vec![0u8, 0, 0, 1, 0x67, 0x64, 0, 0, 1, 0x68, 0, 0, 1, 0x67, 0x42];
    let sps = extract_nalus_of_type_from_bytestream(NaluType::Sps, &stream, false);
    assert_eq!(sps, vec![vec![0x67, 0x64], vec![0x67, 0x42]]);
    let stream2 = vec![0u8, 0, 0, 1, 0x65, 0x01, 0, 0, 1, 0x67, 0x42];
    let sps2 = extract_nalus_of_type_from_bytestream(NaluType::Sps, &stream2, true);
    assert_eq!(sps2, Vec::<Vec<u8>>::new());
}

#[test]
fn test_nalu_types() {
    assert_eq!(NaluType::from_header_byte(0x67), NaluType::Sps);
    assert_eq!(NaluType::from_header_byte(0x68), NaluType::Pps);
    assert_eq!(NaluType::from_header_byte(0x65), NaluType::Idr);
    assert_eq!(NaluType::from_header_byte(0x41), NaluType::NonIdr);
    assert_eq!(NaluType::from_header_byte(0x06), NaluType::Sei);
    assert!(NaluType::from_header_byte(0x65).is_video());
    assert!(NaluType::from_header_byte(0x41).is_video());
    assert!(!NaluType::from_header_byte(0x67).is_video());
}

#[test]
fn test_avcc_decode_and_reencode() {
    let bytes = vec![
        1u8, 100, 0, 30, 0xFF, 0xE1, 0, 2, 0x67, 0x64, 1, 0, 2, 0x68, 0xEB,
    ];
    let rec = decode_avc_decoder_config(&bytes).expect("avcC");
    assert_eq!(rec.profile_indication, 100);
    assert_eq!(rec.profile_compatibility, 0);
    assert_eq!(rec.level_indication, 30);
    assert_eq!(rec.sps, vec![vec![0x67, 0x64]]);
    assert_eq!(rec.pps, vec![vec![0x68, 0xEB]]);
    assert_eq!(rec.size(), bytes.len());
    let enc = rec.encode();
    assert_eq!(enc, bytes);
    let back = decode_avc_decoder_config(&enc).expect("avcC again");
    assert_eq!(back, rec);
}

#[test]
fn test_avcc_rejects() {
    // Wrong version byte.
    assert!(decode_avc_decoder_config(&[2u8, 100, 0, 30, 0xFF, 0xE0]).is_none());
    // A NAL unit length size other than 4 bytes.
    assert!(decode_avc_decoder_config(&[1u8, 100, 0, 30, 0xFC, 0xE0]).is_none());
    // Too short.
    assert!(decode_avc_decoder_config(&[1u8, 100, 0]).is_none());
    // An SPS entry that runs past the payload.
    assert!(decode_avc_decoder_config(&[1u8, 100, 0, 30, 0xFF, 0xE1, 0, 9, 0x67]).is_none());
}

#[test]
fn test_sei_parser() {
    let nalu = vec![0x06u8, 5, 3, 1, 2, 3];
    let msgs = parse_sei_nalu(&nalu).expect("sei");
    assert_eq!(msgs.len(), 1);
    assert_eq!(msgs[0].payload_type, 5);
    assert_eq!(msgs[0].payload, vec![1, 2, 3]);
    // A long type coded with 0xFF continuation bytes.
    let nalu2 = vec![0x06u8, 0xFF, 1, 1, 9];
    let msgs2 = parse_sei_nalu(&nalu2).expect("sei");
    assert_eq!(msgs2[0].payload_type, 256);
    assert_eq!(msgs2[0].payload, vec![9]);
    // Not an SEI NAL unit.
    assert!(parse_sei_nalu(&[0x67u8, 0, 0]).is_none());
}

#[test]
fn test_get_nalus_from_sample() {
    let sample = vec![0u8, 0, 0, 2, 0x09, 0x10, 0, 0, 0, 1, 0x67];
    let nalus = get_nalus_from_sample(&sample).unwrap();
    assert_eq!(nalus, vec![vec![0x09, 0x10], vec![0x67]]);
    // A declared length that runs past the sample is malformed.
    assert!(get_nalus_from_sample(&[0u8, 0, 0, 9, 1]).is_none());
    // Shorter than one length field is malformed.
    assert!(get_nalus_from_sample(&[0u8, 0, 0]).is_none());
}

#[test]
fn test_dump_nalu_types() {
    let sample = vec![0u8, 0, 0, 1, 0x67, 0, 0, 0, 1, 0x68];
    assert_eq!(dump_nalu_types(&sample), "SPS,PPS");
    assert_eq!(dump_nalu_types(&[0u8, 0, 0, 9, 1]), "<invalid>");
}

#[test]
fn test_parse_slice_header_fields() {
    let sps_hex = "6764001eacd940a02ff9610000030001000003003c8f162d96";
    let pps_hex = "68ebecb22c";
    let nalu_hex = "419a6649e10f2653022fff8700000302c8a32d32";
    let sps = parse_sps_nalu(&decode_hex(sps_hex)).unwrap();
    let mut sps_map = HashMap::new();
    sps_map.insert(sps.parameter_set_id, sps);
    let pps = parse_pps_nalu(&decode_hex(pps_hex)).unwrap();
    let mut pps_map = HashMap::new();
    pps_map.insert(pps.pic_parameter_set_id, pps);
    let nalu = decode_hex(nalu_hex);
    let sh = parse_slice_header(&nalu, &sps_map, &pps_map).unwrap();
    assert_eq!(sh.pic_param_id, 0);
    assert_eq!(sh.seq_param_id, 0);
    // A NAL unit whose referenced PPS is absent fails to parse.
    let empty_pps: HashMap<u32, Pps> = HashMap::new();
    assert!(parse_slice_header(&nalu, &sps_map, &empty_pps).is_none());
}

#[test]
fn test_sps_accessors() {
    let sps = parse_sps_nalu(&decode_hex(SPS1)).unwrap();
    assert_eq!(sps.constraint_flags(), 0);
    assert_eq!(sps.chroma_array_type(), 1);
    assert!(sps.cpb_dpb_delays_present());
    assert!(sps.pic_struct_present());
}
