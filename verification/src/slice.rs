//! The AVC slice header, whose shape depends on the referenced
//! sequence and picture parameter sets.
//!
//! The NAL unit is read through the EBSP reader, escapes dropped on
//! the fly. [`slice_spec`] walks the fields of ITU-T H.264 section
//! 7.3.3 over the un-escaped stream, resolving the picture and
//! sequence parameter sets from the maps, and the parser returns
//! `Some` exactly when that walk succeeds.

use vstd::prelude::*;
use std::collections::HashMap;
use vstd::string::StringExecFns;
use crate::bits::BitReader;
use crate::ebsp::{raw_pos, rbsp, EbspReader};
use crate::golomb::{
    ceil_log2, clog2, ebsp_at, ebsp_cursor, lemma_s_uev_bounds, read_se_eb, read_ue, read_ue_eb,
    s_flag, s_read, s_sev, s_uev, ue_size, ue_value, ue_wf, BitCursor,
};
use crate::nal::{nalu_type_of, NaluType};
use crate::pps::Pps;
use crate::sps::Sps;

verus! {

/// Slice types, the value taken modulo 5.
#[derive(Debug, Clone, Copy, PartialEq, Eq, Structural)]
pub enum SliceType {
    P,
    B,
    I,
    SP,
    SI,
}

/// The slice type for a raw value: values 5 through 9 repeat 0
/// through 4, larger values are not slice types.
pub open spec fn slice_type_from_value(v: nat) -> Option<SliceType> {
    let w: nat = if v >= 5 {
        (v - 5) as nat
    } else {
        v
    };
    if w == 0 {
        Some(SliceType::P)
    } else if w == 1 {
        Some(SliceType::B)
    } else if w == 2 {
        Some(SliceType::I)
    } else if w == 3 {
        Some(SliceType::SP)
    } else if w == 4 {
        Some(SliceType::SI)
    } else {
        None
    }
}

impl SliceType {
    /// The type's name.
    pub open spec fn spec_name(self) -> Seq<char> {
        match self {
            SliceType::P => "P"@,
            SliceType::B => "B"@,
            SliceType::I => "I"@,
            SliceType::SP => "SP"@,
            SliceType::SI => "SI"@,
        }
    }

    /// The type's name, as an owned string.
    pub fn to_string(&self) -> (r: String)
        ensures
            r@ == self.spec_name(),
    {
        match self {
            SliceType::P => String::from_str("P"),
            SliceType::B => String::from_str("B"),
            SliceType::I => String::from_str("I"),
            SliceType::SP => String::from_str("SP"),
            SliceType::SI => String::from_str("SI"),
        }
    }
}

/// The value of the second Exp-Golomb code of a slice payload — the
/// raw slice type — with the readers' sticky-zero behaviour on a
/// malformed stream.
pub open spec fn raw_slice_type_value(s: Seq<u8>) -> nat {
    if ue_wf(s, 0) && ue_wf(s, ue_size(s, 0)) {
        ue_value(s, ue_size(s, 0))
    } else {
        0
    }
}

/// The slice type a slice NAL unit codes, if any. The payload is read
/// raw here, without un-escaping, as a quick classification.
pub open spec fn nalu_slice_type(nalu: Seq<u8>) -> Option<SliceType> {
    if nalu.len() <= 1 {
        None
    } else if nalu_type_of(nalu[0]) != NaluType::NonIdr && nalu_type_of(nalu[0]) != NaluType::Idr {
        None
    } else {
        slice_type_from_value(raw_slice_type_value(nalu.skip(1)))
    }
}

/// Classify a slice NAL unit by its coded slice type.
pub fn get_slice_type_from_nalu(nalu: &[u8]) -> (r: Option<SliceType>)
    requires
        nalu@.len() <= 0x1000_0000_0000_0000,
    ensures
        r == nalu_slice_type(nalu@),
{
    if nalu.len() <= 1 {
        return None;
    }
    let t = NaluType::from_header_byte(nalu[0]);
    if !(matches!(t, NaluType::NonIdr) || matches!(t, NaluType::Idr)) {
        return None;
    }
    let tail = vstd::slice::slice_to_vec(&nalu[1..nalu.len()]);
    proof {
        assert(nalu@.subrange(1, nalu@.len() as int) =~= nalu@.skip(1));
    }
    let mut r = BitReader::new(tail);
    let _first_mb_in_slice = read_ue(&mut r);
    let mut st = read_ue(&mut r);
    if st >= 5 {
        st = st - 5;
    }
    if st == 0 {
        Some(SliceType::P)
    } else if st == 1 {
        Some(SliceType::B)
    } else if st == 2 {
        Some(SliceType::I)
    } else if st == 3 {
        Some(SliceType::SP)
    } else if st == 4 {
        Some(SliceType::SI)
    } else {
        None
    }
}

/// A parsed AVC slice header, with the fields this crate reads.
#[derive(Debug, Clone, PartialEq, Eq)]
pub struct SliceHeader {
    pub slice_type: u32,
    pub first_mb_in_slice: u32,
    pub pic_param_id: u32,
    pub seq_param_id: u32,
    pub color_plane_id: u32,
    pub frame_num: u32,
    pub idr_pic_id: u32,
    pub pic_order_cnt_lsb: u32,
    pub delta_pic_order_cnt_bottom: i32,
    pub delta_pic_order_cnt0: i32,
    pub delta_pic_order_cnt1: i32,
    pub redundant_pic_cnt: u32,
    pub num_ref_idx_l0_active_minus1: u32,
    pub num_ref_idx_l1_active_minus1: u32,
    pub modification_of_pic_nums_idc: u32,
    pub abs_diff_pic_num_minus1: u32,
    pub long_term_pic_num: u32,
    pub abs_diff_view_idx_minus1: u32,
    pub luma_log2_weight_denom: u32,
    pub chroma_log2_weight_denom: u32,
    pub difference_of_pic_nums_minus1: u32,
    pub long_term_fram_idx: u32,
    pub max_long_term_frame_idx_plus1: u32,
    pub cabac_init_idc: u32,
    pub slice_qp_delta: i32,
    pub slice_qs_delta: i32,
    pub disable_deblocking_filter_idc: u32,
    pub slice_alpha_c0_offset_div2: i32,
    pub slice_beta_offset_div2: i32,
    pub slice_group_change_cycle: u32,
    pub size: u32,
    pub field_pic_flag: bool,
    pub bottom_field_flag: bool,
    pub direct_spatial_mv_pred_flag: bool,
    pub num_ref_idx_active_override_flag: bool,
    pub ref_pic_list_modification_l0_flag: bool,
    pub ref_pic_list_modification_l1_flag: bool,
    pub no_output_of_prior_pics_flag: bool,
    pub long_term_reference_flag: bool,
    pub sp_for_switch_flag: bool,
    pub adaptive_ref_pic_marking_mode_flag: bool,
}

/// The ghost image of the fields read after the parameter sets are
/// resolved.
pub struct GSliceBody {
    pub color_plane_id: u32,
    pub frame_num: u32,
    pub field_pic_flag: bool,
    pub bottom_field_flag: bool,
    pub idr_pic_id: u32,
    pub pic_order_cnt_lsb: u32,
    pub delta_pic_order_cnt_bottom: i32,
    pub delta_pic_order_cnt0: i32,
    pub delta_pic_order_cnt1: i32,
    pub redundant_pic_cnt: u32,
    pub direct_spatial_mv_pred_flag: bool,
    pub num_ref_idx_active_override_flag: bool,
    pub num_ref_idx_l0_active_minus1: u32,
    pub num_ref_idx_l1_active_minus1: u32,
    pub ref_pic_list_modification_l0_flag: bool,
    pub ref_pic_list_modification_l1_flag: bool,
    pub modification_of_pic_nums_idc: u32,
    pub abs_diff_pic_num_minus1: u32,
    pub long_term_pic_num: u32,
    pub abs_diff_view_idx_minus1: u32,
    pub luma_log2_weight_denom: u32,
    pub chroma_log2_weight_denom: u32,
    pub no_output_of_prior_pics_flag: bool,
    pub long_term_reference_flag: bool,
    pub adaptive_ref_pic_marking_mode_flag: bool,
    pub difference_of_pic_nums_minus1: u32,
    pub long_term_fram_idx: u32,
    pub max_long_term_frame_idx_plus1: u32,
    pub cabac_init_idc: u32,
    pub slice_qp_delta: i32,
    pub sp_for_switch_flag: bool,
    pub slice_qs_delta: i32,
    pub disable_deblocking_filter_idc: u32,
    pub slice_alpha_c0_offset_div2: i32,
    pub slice_beta_offset_div2: i32,
    pub slice_group_change_cycle: u32,
}

/// The ghost image of a whole slice header.
pub struct GSliceHeader {
    pub first_mb_in_slice: u32,
    pub slice_type: u32,
    pub pic_param_id: u32,
    pub seq_param_id: u32,
    pub size: u32,
    pub body: GSliceBody,
}

/// The colour plane, frame number, field flags and IDR picture id.
pub open spec fn sb_head_spec(s: Seq<u8>, c: BitCursor, sps: Sps, is_idr: bool) -> (
    (u32, u32, bool, bool, u32),
    BitCursor,
) {
    let (cp, c1): (nat, BitCursor) = if sps.separate_colour_plane_flag {
        s_read(s, c, 2)
    } else {
        (0nat, c)
    };
    let fnb: nat = if sps.log2_max_frame_num_minus4 > 28 {
        32nat
    } else {
        (sps.log2_max_frame_num_minus4 + 4) as nat
    };
    let (fnum, c2) = s_read(s, c1, fnb);
    let (fp, c3): (bool, BitCursor) = if !sps.frame_mbs_only_flag {
        s_flag(s, c2)
    } else {
        (false, c2)
    };
    let (bf, c4): (bool, BitCursor) = if !sps.frame_mbs_only_flag && fp {
        s_flag(s, c3)
    } else {
        (false, c3)
    };
    let (idr, c5): (nat, BitCursor) = if is_idr {
        s_uev(s, c4)
    } else {
        (0nat, c4)
    };
    ((cp as u32, fnum as u32, fp, bf, idr as u32), c5)
}

/// The picture-order-count fields for the sequence's POC type.
pub open spec fn sb_poc_spec(s: Seq<u8>, c: BitCursor, sps: Sps, pps: Pps, fp: bool) -> (
    (u32, i32, i32, i32),
    BitCursor,
) {
    if sps.pic_order_cnt_type == 0 {
        let pb: nat = if sps.log2_max_pic_order_cnt_lsb_minus4 > 28 {
            32nat
        } else {
            (sps.log2_max_pic_order_cnt_lsb_minus4 + 4) as nat
        };
        let (lsb, c1) = s_read(s, c, pb);
        let (db, c2): (int, BitCursor) = if pps.bottom_field_pic_order_in_frame_present_flag
            && !fp {
            s_sev(s, c1)
        } else {
            (0int, c1)
        };
        ((lsb as u32, db as i32, 0i32, 0i32), c2)
    } else if sps.pic_order_cnt_type == 1 && !sps.delta_pic_order_always_zero_flag {
        let (d0, c1) = s_sev(s, c);
        let (d1, c2): (int, BitCursor) = if pps.bottom_field_pic_order_in_frame_present_flag
            && !fp {
            s_sev(s, c1)
        } else {
            (0int, c1)
        };
        ((0u32, 0i32, d0 as i32, d1 as i32), c2)
    } else {
        ((0u32, 0i32, 0i32, 0i32), c)
    }
}

/// The redundant count, the direct-prediction flag, and the
/// reference-index counts: the parameter set's defaults unless the
/// override flag replaces them.
pub open spec fn sb_refidx_spec(s: Seq<u8>, c: BitCursor, pps: Pps, st: u32) -> (
    (u32, bool, bool, u32, u32),
    BitCursor,
) {
    let (rp, c0): (nat, BitCursor) = if pps.redundant_pic_cnt_present_flag {
        s_uev(s, c)
    } else {
        (0nat, c)
    };
    let m = st % 5;
    let (ds, c1): (bool, BitCursor) = if m == 1 {
        s_flag(s, c0)
    } else {
        (false, c0)
    };
    if m == 0 || m == 3 || m == 1 {
        let (ov, c2) = s_flag(s, c1);
        if ov {
            let (l0, c3) = s_uev(s, c2);
            let (l1, c4): (nat, BitCursor) = if m == 1 {
                s_uev(s, c3)
            } else {
                (0nat, c3)
            };
            ((rp as u32, ds, ov, l0 as u32, l1 as u32), c4)
        } else {
            (
                (
                    rp as u32,
                    ds,
                    ov,
                    pps.num_ref_idx_i0_default_active_minus1,
                    pps.num_ref_idx_i1_default_active_minus1,
                ),
                c2,
            )
        }
    } else {
        ((rp as u32, ds, false, 0u32, 0u32), c1)
    }
}

/// One run of reference-picture-list modification operations, ending
/// on operation 3 or on a read failure; each register keeps the last
/// value written to it.
pub open spec fn rplm_spec(s: Seq<u8>, c: BitCursor, idc: u32, ad: u32, ltp: u32, vd: u32) -> (
    (u32, u32, u32, u32),
    BitCursor,
)
    decreases 8 * s.len() - c.pos,
    via rplm_spec_dec
{
    let (v, c1) = s_uev(s, c);
    let (ad2, ltp2, vd2, c2): (u32, u32, u32, BitCursor) = if v == 0 || v == 1 {
        let (x, cx) = s_uev(s, c1);
        (x as u32, ltp, vd, cx)
    } else if v == 2 {
        let (x, cx) = s_uev(s, c1);
        (ad, x as u32, vd, cx)
    } else if v == 4 || v == 5 {
        let (x, cx) = s_uev(s, c1);
        (ad, ltp, x as u32, cx)
    } else {
        (ad, ltp, vd, c1)
    };
    if v == 3 || c2.failed {
        ((v as u32, ad2, ltp2, vd2), c2)
    } else {
        rplm_spec(s, c2, v as u32, ad2, ltp2, vd2)
    }
}

#[via_fn]
proof fn rplm_spec_dec(s: Seq<u8>, c: BitCursor, idc: u32, ad: u32, ltp: u32, vd: u32) {
    lemma_s_uev_bounds(s, c);
    let (v, c1) = s_uev(s, c);
    lemma_s_uev_bounds(s, c1);
}

/// The two modification runs, each behind its presence flag.
pub open spec fn sb_rplm_spec(s: Seq<u8>, c: BitCursor, st: u32) -> (
    (bool, bool, u32, u32, u32, u32),
    BitCursor,
) {
    let m = st % 5;
    let (f0, c1): (bool, BitCursor) = if m != 2 && m != 4 {
        s_flag(s, c)
    } else {
        (false, c)
    };
    let (r1, c2): ((u32, u32, u32, u32), BitCursor) = if m != 2 && m != 4 && f0 {
        rplm_spec(s, c1, 0, 0, 0, 0)
    } else {
        ((0u32, 0u32, 0u32, 0u32), c1)
    };
    let (f1, c3): (bool, BitCursor) = if m == 1 {
        s_flag(s, c2)
    } else {
        (false, c2)
    };
    let (r2, c4): ((u32, u32, u32, u32), BitCursor) = if m == 1 && f1 {
        rplm_spec(s, c3, r1.0, r1.1, r1.2, r1.3)
    } else {
        (r1, c3)
    };
    ((f0, f1, r2.0, r2.1, r2.2, r2.3), c4)
}

/// The prediction-weight entries of `k` reference pictures: a luma
/// pair behind a flag, and a chroma quadruple behind a flag when the
/// chroma array type is not 0.
pub open spec fn weights_list_spec(s: Seq<u8>, c: BitCursor, chroma: bool, k: nat) -> BitCursor
    decreases k,
{
    if k == 0 {
        c
    } else {
        let (lw, c1) = s_flag(s, c);
        let c2 = if lw {
            s_sev(s, s_sev(s, c1).1).1
        } else {
            c1
        };
        let c3 = if chroma {
            let (cw, ca) = s_flag(s, c2);
            if cw {
                s_sev(s, s_sev(s, s_sev(s, s_sev(s, ca).1).1).1).1
            } else {
                ca
            }
        } else {
            c2
        };
        weights_list_spec(s, c3, chroma, (k - 1) as nat)
    }
}

/// The prediction-weight table, present for weighted P and SP slices
/// and explicitly weighted B slices.
pub open spec fn sb_weights_spec(
    s: Seq<u8>,
    c: BitCursor,
    sps: Sps,
    pps: Pps,
    st: u32,
    l0: u32,
    l1: u32,
) -> ((u32, u32), BitCursor) {
    let m = st % 5;
    let chroma = (if sps.separate_colour_plane_flag {
        0int
    } else {
        sps.chroma_format_idc as int
    }) != 0;
    if (pps.weighted_pred_flag && (m == 0 || m == 3)) || (pps.weighted_bipred_idc == 1 && m
        == 1) {
        let (ld, c1) = s_uev(s, c);
        let (cd, c2): (nat, BitCursor) = if chroma {
            s_uev(s, c1)
        } else {
            (0nat, c1)
        };
        let c3 = weights_list_spec(s, c2, chroma, l0 as nat + 1);
        let c4 = if m == 1 {
            weights_list_spec(s, c3, chroma, l1 as nat + 1)
        } else {
            c3
        };
        ((ld as u32, cd as u32), c4)
    } else {
        ((0u32, 0u32), c)
    }
}

/// One run of memory-management control operations, ending on
/// operation 0 or on a read failure.
pub open spec fn mmco_spec(s: Seq<u8>, c: BitCursor, dpn: u32, ltp: u32, ltfi: u32, mlt: u32) -> (
    (u32, u32, u32, u32),
    BitCursor,
)
    decreases 8 * s.len() - c.pos,
    via mmco_spec_dec
{
    let (v, c1) = s_uev(s, c);
    let (dpn2, ltp2, c2): (u32, u32, BitCursor) = if v == 1 || v == 3 {
        let (x, cx) = s_uev(s, c1);
        (x as u32, ltp, cx)
    } else if v == 2 {
        let (x, cx) = s_uev(s, c1);
        (dpn, x as u32, cx)
    } else {
        (dpn, ltp, c1)
    };
    let (ltfi2, mlt2, c3): (u32, u32, BitCursor) = if v == 3 || v == 6 {
        let (x, cx) = s_uev(s, c2);
        (x as u32, mlt, cx)
    } else if v == 4 {
        let (x, cx) = s_uev(s, c2);
        (ltfi, x as u32, cx)
    } else {
        (ltfi, mlt, c2)
    };
    if v == 0 || c3.failed {
        ((dpn2, ltp2, ltfi2, mlt2), c3)
    } else {
        mmco_spec(s, c3, dpn2, ltp2, ltfi2, mlt2)
    }
}

#[via_fn]
proof fn mmco_spec_dec(s: Seq<u8>, c: BitCursor, dpn: u32, ltp: u32, ltfi: u32, mlt: u32) {
    lemma_s_uev_bounds(s, c);
    let (v, c1) = s_uev(s, c);
    lemma_s_uev_bounds(s, c1);
    let c2: BitCursor = if v == 1 || v == 3 || v == 2 {
        s_uev(s, c1).1
    } else {
        c1
    };
    lemma_s_uev_bounds(s, c2);
}

/// The decoded-reference-picture marking, read only for reference
/// pictures: two flags for an IDR picture, otherwise the adaptive
/// flag and its operations. The long-term picture number register is
/// shared with the modification run.
pub open spec fn sb_marking_spec(
    s: Seq<u8>,
    c: BitCursor,
    is_idr: bool,
    nri: u32,
    ltp: u32,
) -> ((bool, bool, bool, u32, u32, u32, u32), BitCursor) {
    if nri != 0 {
        if is_idr {
            let (no, c1) = s_flag(s, c);
            let (lt, c2) = s_flag(s, c1);
            ((no, lt, false, 0u32, ltp, 0u32, 0u32), c2)
        } else {
            let (ad, c1) = s_flag(s, c);
            if ad {
                let (regs, c2) = mmco_spec(s, c1, 0, ltp, 0, 0);
                ((false, false, ad, regs.0, regs.1, regs.2, regs.3), c2)
            } else {
                ((false, false, ad, 0u32, ltp, 0u32, 0u32), c1)
            }
        }
    } else {
        ((false, false, false, 0u32, ltp, 0u32, 0u32), c)
    }
}

/// The CABAC initialisation and the quantisation deltas.
pub open spec fn sb_finish_a_spec(s: Seq<u8>, c: BitCursor, pps: Pps, st: u32) -> (
    (u32, i32, bool, i32),
    BitCursor,
) {
    let m = st % 5;
    let (cab, c1): (nat, BitCursor) = if pps.entropy_coding_mode_flag && m != 2 && m != 4 {
        s_uev(s, c)
    } else {
        (0nat, c)
    };
    let (qpd, c2) = s_sev(s, c1);
    let (sw, c3): (bool, BitCursor) = if m == 3 {
        s_flag(s, c2)
    } else {
        (false, c2)
    };
    let (qsd, c4): (int, BitCursor) = if m == 3 || m == 4 {
        s_sev(s, c3)
    } else {
        (0int, c3)
    };
    ((cab as u32, qpd as i32, sw, qsd as i32), c4)
}

/// The deblocking controls and the slice-group change cycle.
pub open spec fn sb_finish_b_spec(s: Seq<u8>, c: BitCursor, pps: Pps) -> (
    (u32, i32, i32, u32),
    BitCursor,
) {
    let (dbf, c5): (nat, BitCursor) = if pps.deblocking_filter_control_present_flag {
        s_uev(s, c)
    } else {
        (0nat, c)
    };
    let (al, c6): (int, BitCursor) = if pps.deblocking_filter_control_present_flag && dbf != 1 {
        s_sev(s, c5)
    } else {
        (0int, c5)
    };
    let (be, c7): (int, BitCursor) = if pps.deblocking_filter_control_present_flag && dbf != 1 {
        s_sev(s, c6)
    } else {
        (0int, c6)
    };
    let (cyc, c8): (nat, BitCursor) = if pps.num_slice_groups_minus1 > 0
        && pps.slice_group_map_type >= 3 && pps.slice_group_map_type <= 5 {
        let v64 = (pps.pic_size_in_map_units_minus1 as int + 1) / (
        pps.slice_group_change_rate_minus1 as int + 1) + 1;
        let v: int = if v64 > u32::MAX {
            u32::MAX as int
        } else {
            v64
        };
        s_read(s, c7, clog2(v) as nat)
    } else {
        (0nat, c7)
    };
    ((dbf as u32, al as i32, be as i32, cyc as u32), c8)
}

/// The closing fields: CABAC initialisation, the quantisation deltas,
/// the deblocking controls and the slice-group change cycle.
pub open spec fn sb_finish_spec(s: Seq<u8>, c: BitCursor, pps: Pps, st: u32) -> (
    (u32, i32, bool, i32, u32, i32, i32, u32),
    BitCursor,
) {
    let (a, c4) = sb_finish_a_spec(s, c, pps, st);
    let (b, c8) = sb_finish_b_spec(s, c4, pps);
    ((a.0, a.1, a.2, a.3, b.0, b.1, b.2, b.3), c8)
}

/// The head, picture-order, reference-index and modification groups.
pub open spec fn slice_front_spec(s: Seq<u8>, c: BitCursor, sps: Sps, pps: Pps, is_idr: bool, st: u32) -> (
    (
        (u32, u32, bool, bool, u32),
        (u32, i32, i32, i32),
        (u32, bool, bool, u32, u32),
        (bool, bool, u32, u32, u32, u32),
    ),
    BitCursor,
) {
    let (h, c1) = sb_head_spec(s, c, sps, is_idr);
    let (p, c2) = sb_poc_spec(s, c1, sps, pps, h.2);
    let (ri, c3) = sb_refidx_spec(s, c2, pps, st);
    let (rm, c4) = sb_rplm_spec(s, c3, st);
    (((h, p, ri, rm)), c4)
}

/// The whole field walk after the parameter sets are resolved.
pub open spec fn slice_body_spec(
    s: Seq<u8>,
    c: BitCursor,
    sps: Sps,
    pps: Pps,
    is_idr: bool,
    nri: u32,
    st: u32,
) -> (GSliceBody, BitCursor) {
    let (fr, c4) = slice_front_spec(s, c, sps, pps, is_idr, st);
    let h = fr.0;
    let p = fr.1;
    let ri = fr.2;
    let rm = fr.3;
    let (w, c5) = sb_weights_spec(s, c4, sps, pps, st, ri.3, ri.4);
    let (mk, c6) = sb_marking_spec(s, c5, is_idr, nri, rm.4);
    let (f, c7) = sb_finish_spec(s, c6, pps, st);
    (
        GSliceBody {
            color_plane_id: h.0,
            frame_num: h.1,
            field_pic_flag: h.2,
            bottom_field_flag: h.3,
            idr_pic_id: h.4,
            pic_order_cnt_lsb: p.0,
            delta_pic_order_cnt_bottom: p.1,
            delta_pic_order_cnt0: p.2,
            delta_pic_order_cnt1: p.3,
            redundant_pic_cnt: ri.0,
            direct_spatial_mv_pred_flag: ri.1,
            num_ref_idx_active_override_flag: ri.2,
            num_ref_idx_l0_active_minus1: ri.3,
            num_ref_idx_l1_active_minus1: ri.4,
            ref_pic_list_modification_l0_flag: rm.0,
            ref_pic_list_modification_l1_flag: rm.1,
            modification_of_pic_nums_idc: rm.2,
            abs_diff_pic_num_minus1: rm.3,
            long_term_pic_num: mk.4,
            abs_diff_view_idx_minus1: rm.5,
            luma_log2_weight_denom: w.0,
            chroma_log2_weight_denom: w.1,
            no_output_of_prior_pics_flag: mk.0,
            long_term_reference_flag: mk.1,
            adaptive_ref_pic_marking_mode_flag: mk.2,
            difference_of_pic_nums_minus1: mk.3,
            long_term_fram_idx: mk.5,
            max_long_term_frame_idx_plus1: mk.6,
            cabac_init_idc: f.0,
            slice_qp_delta: f.1,
            sp_for_switch_flag: f.2,
            slice_qs_delta: f.3,
            disable_deblocking_filter_idc: f.4,
            slice_alpha_c0_offset_div2: f.5,
            slice_beta_offset_div2: f.6,
            slice_group_change_cycle: f.7,
        },
        c7,
    )
}

/// A parsed header carries the body's ghost image, field for field.
pub open spec fn sb_matches(sh: SliceHeader, g: GSliceBody) -> bool {
    &&& sh.color_plane_id == g.color_plane_id
    &&& sh.frame_num == g.frame_num
    &&& sh.field_pic_flag == g.field_pic_flag
    &&& sh.bottom_field_flag == g.bottom_field_flag
    &&& sh.idr_pic_id == g.idr_pic_id
    &&& sh.pic_order_cnt_lsb == g.pic_order_cnt_lsb
    &&& sh.delta_pic_order_cnt_bottom == g.delta_pic_order_cnt_bottom
    &&& sh.delta_pic_order_cnt0 == g.delta_pic_order_cnt0
    &&& sh.delta_pic_order_cnt1 == g.delta_pic_order_cnt1
    &&& sh.redundant_pic_cnt == g.redundant_pic_cnt
    &&& sh.direct_spatial_mv_pred_flag == g.direct_spatial_mv_pred_flag
    &&& sh.num_ref_idx_active_override_flag == g.num_ref_idx_active_override_flag
    &&& sh.num_ref_idx_l0_active_minus1 == g.num_ref_idx_l0_active_minus1
    &&& sh.num_ref_idx_l1_active_minus1 == g.num_ref_idx_l1_active_minus1
    &&& sh.ref_pic_list_modification_l0_flag == g.ref_pic_list_modification_l0_flag
    &&& sh.ref_pic_list_modification_l1_flag == g.ref_pic_list_modification_l1_flag
    &&& sh.modification_of_pic_nums_idc == g.modification_of_pic_nums_idc
    &&& sh.abs_diff_pic_num_minus1 == g.abs_diff_pic_num_minus1
    &&& sh.long_term_pic_num == g.long_term_pic_num
    &&& sh.abs_diff_view_idx_minus1 == g.abs_diff_view_idx_minus1
    &&& sh.luma_log2_weight_denom == g.luma_log2_weight_denom
    &&& sh.chroma_log2_weight_denom == g.chroma_log2_weight_denom
    &&& sh.no_output_of_prior_pics_flag == g.no_output_of_prior_pics_flag
    &&& sh.long_term_reference_flag == g.long_term_reference_flag
    &&& sh.adaptive_ref_pic_marking_mode_flag == g.adaptive_ref_pic_marking_mode_flag
    &&& sh.difference_of_pic_nums_minus1 == g.difference_of_pic_nums_minus1
    &&& sh.long_term_fram_idx == g.long_term_fram_idx
    &&& sh.max_long_term_frame_idx_plus1 == g.max_long_term_frame_idx_plus1
    &&& sh.cabac_init_idc == g.cabac_init_idc
    &&& sh.slice_qp_delta == g.slice_qp_delta
    &&& sh.sp_for_switch_flag == g.sp_for_switch_flag
    &&& sh.slice_qs_delta == g.slice_qs_delta
    &&& sh.disable_deblocking_filter_idc == g.disable_deblocking_filter_idc
    &&& sh.slice_alpha_c0_offset_div2 == g.slice_alpha_c0_offset_div2
    &&& sh.slice_beta_offset_div2 == g.slice_beta_offset_div2
    &&& sh.slice_group_change_cycle == g.slice_group_change_cycle
}

/// A parsed header carries the whole ghost image.
pub open spec fn slice_matches(sh: SliceHeader, g: GSliceHeader) -> bool {
    &&& sh.first_mb_in_slice == g.first_mb_in_slice
    &&& sh.slice_type == g.slice_type
    &&& sh.pic_param_id == g.pic_param_id
    &&& sh.seq_param_id == g.seq_param_id
    &&& sh.size == g.size
    &&& sb_matches(sh, g.body)
}

/// The whole slice header of a NAL unit against the parameter-set
/// maps: the NAL header byte, the three leading Exp-Golomb fields,
/// the resolution of the picture and sequence parameter sets, and the
/// body walk under them, with the record exactly when the unit is a
/// coded slice, both sets resolve, and no read ran out.
pub open spec fn slice_spec(
    nalu: Seq<u8>,
    sps_map: Map<u32, Sps>,
    pps_map: Map<u32, Pps>,
) -> Option<GSliceHeader> {
    if nalu.len() == 0 {
        None
    } else if nalu_type_of(nalu[0]) != NaluType::NonIdr && nalu_type_of(nalu[0])
        != NaluType::Idr {
        None
    } else {
        let s = rbsp(nalu);
        let c0 = BitCursor { pos: 0, failed: false };
        let (hdr, c1) = s_read(s, c0, 8);
        let (fmb, c2) = s_uev(s, c1);
        let (st, c3) = s_uev(s, c2);
        let (ppsid, c4) = s_uev(s, c3);
        if c4.failed {
            None
        } else if !pps_map.contains_key(ppsid as u32) {
            None
        } else {
            let pps = pps_map[ppsid as u32];
            if !sps_map.contains_key(pps.seq_parameter_set_id) {
                None
            } else {
                let sps = sps_map[pps.seq_parameter_set_id];
                let is_idr = nalu_type_of(nalu[0]) == NaluType::Idr;
                let nri = ((hdr / 32) % 4) as u32;
                let (g, cf) = slice_body_spec(s, c4, sps, pps, is_idr, nri, st as u32);
                if cf.failed {
                    None
                } else {
                    Some(
                        GSliceHeader {
                            first_mb_in_slice: fmb as u32,
                            slice_type: st as u32,
                            pic_param_id: ppsid as u32,
                            seq_param_id: pps.seq_parameter_set_id,
                            size: raw_pos(nalu, cf.pos) as u32,
                            body: g,
                        },
                    )
                }
            }
        }
    }
}

/// Read the colour plane, frame number, field flags and IDR picture
/// id.
#[verifier::rlimit(100)]
fn sb_head(r: &mut EbspReader, sps: &Sps, is_idr: bool) -> (o: (u32, u32, bool, bool, u32))
    requires
        old(r).wf(),
    ensures
        final(r).wf(),
        final(r).stream() == old(r).stream(),
        ({
            let (g, cf) = sb_head_spec(old(r).payload(), ebsp_cursor(*old(r)), *sps, is_idr);
            o == g && ebsp_at(*final(r), cf)
        }),
{
    let mut color_plane_id: u32 = 0;
    if sps.separate_colour_plane_flag {
        color_plane_id = r.read(2);
    }
    let fn_bits = if sps.log2_max_frame_num_minus4 > 28 {
        32
    } else {
        sps.log2_max_frame_num_minus4 + 4
    };
    let frame_num = r.read(fn_bits);
    let mut field_pic_flag = false;
    let mut bottom_field_flag = false;
    if !sps.frame_mbs_only_flag {
        field_pic_flag = r.read_flag();
        if field_pic_flag {
            bottom_field_flag = r.read_flag();
        }
    }
    let mut idr_pic_id: u32 = 0;
    if is_idr {
        idr_pic_id = read_ue_eb(r);
    }
    (color_plane_id, frame_num, field_pic_flag, bottom_field_flag, idr_pic_id)
}

/// Read the picture-order-count fields.
fn sb_poc(r: &mut EbspReader, sps: &Sps, pps: &Pps, field_pic_flag: bool) -> (o: (
    u32,
    i32,
    i32,
    i32,
))
    requires
        old(r).wf(),
    ensures
        final(r).wf(),
        final(r).stream() == old(r).stream(),
        ({
            let (g, cf) = sb_poc_spec(
                old(r).payload(),
                ebsp_cursor(*old(r)),
                *sps,
                *pps,
                field_pic_flag,
            );
            o == g && ebsp_at(*final(r), cf)
        }),
{
    let mut pic_order_cnt_lsb: u32 = 0;
    let mut delta_pic_order_cnt_bottom: i32 = 0;
    let mut delta_pic_order_cnt0: i32 = 0;
    let mut delta_pic_order_cnt1: i32 = 0;
    if sps.pic_order_cnt_type == 0 {
        let poc_bits = if sps.log2_max_pic_order_cnt_lsb_minus4 > 28 {
            32
        } else {
            sps.log2_max_pic_order_cnt_lsb_minus4 + 4
        };
        pic_order_cnt_lsb = r.read(poc_bits);
        if pps.bottom_field_pic_order_in_frame_present_flag && !field_pic_flag {
            delta_pic_order_cnt_bottom = read_se_eb(r);
        }
    } else if sps.pic_order_cnt_type == 1 && !sps.delta_pic_order_always_zero_flag {
        delta_pic_order_cnt0 = read_se_eb(r);
        if pps.bottom_field_pic_order_in_frame_present_flag && !field_pic_flag {
            delta_pic_order_cnt1 = read_se_eb(r);
        }
    }
    (pic_order_cnt_lsb, delta_pic_order_cnt_bottom, delta_pic_order_cnt0, delta_pic_order_cnt1)
}

/// Read the redundant count, the direct-prediction flag and the
/// reference-index counts.
fn sb_refidx(r: &mut EbspReader, pps: &Pps, slice_type: u32) -> (o: (u32, bool, bool, u32, u32))
    requires
        old(r).wf(),
    ensures
        final(r).wf(),
        final(r).stream() == old(r).stream(),
        ({
            let (g, cf) = sb_refidx_spec(old(r).payload(), ebsp_cursor(*old(r)), *pps, slice_type);
            o == g && ebsp_at(*final(r), cf)
        }),
{
    let mut redundant_pic_cnt: u32 = 0;
    if pps.redundant_pic_cnt_present_flag {
        redundant_pic_cnt = read_ue_eb(r);
    }
    let m = slice_type % 5;
    let mut direct_spatial_mv_pred_flag = false;
    if m == 1 {
        direct_spatial_mv_pred_flag = r.read_flag();
    }
    let mut num_ref_idx_active_override_flag = false;
    let mut num_ref_idx_l0_active_minus1: u32 = 0;
    let mut num_ref_idx_l1_active_minus1: u32 = 0;
    if m == 0 || m == 3 || m == 1 {
        num_ref_idx_active_override_flag = r.read_flag();
        if num_ref_idx_active_override_flag {
            num_ref_idx_l0_active_minus1 = read_ue_eb(r);
            if m == 1 {
                num_ref_idx_l1_active_minus1 = read_ue_eb(r);
            }
        } else {
            num_ref_idx_l0_active_minus1 = pps.num_ref_idx_i0_default_active_minus1;
            num_ref_idx_l1_active_minus1 = pps.num_ref_idx_i1_default_active_minus1;
        }
    }
    (
        redundant_pic_cnt,
        direct_spatial_mv_pred_flag,
        num_ref_idx_active_override_flag,
        num_ref_idx_l0_active_minus1,
        num_ref_idx_l1_active_minus1,
    )
}

/// Read one list of reference-picture-list modification operations,
/// ending on operation 3 or on a read failure.
fn read_ref_pic_list_modification(
    r: &mut EbspReader,
    idc: &mut u32,
    abs_diff: &mut u32,
    ltp: &mut u32,
    viewd: &mut u32,
)
    requires
        old(r).wf(),
    ensures
        final(r).wf(),
        final(r).stream() == old(r).stream(),
        ({
            let (regs, cf) = rplm_spec(
                old(r).payload(),
                ebsp_cursor(*old(r)),
                *old(idc),
                *old(abs_diff),
                *old(ltp),
                *old(viewd),
            );
            &&& *final(idc) == regs.0
            &&& *final(abs_diff) == regs.1
            &&& *final(ltp) == regs.2
            &&& *final(viewd) == regs.3
            &&& ebsp_at(*final(r), cf)
        }),
{
    let ghost s = old(r).payload();
    let ghost total = rplm_spec(
        s,
        ebsp_cursor(*old(r)),
        *old(idc),
        *old(abs_diff),
        *old(ltp),
        *old(viewd),
    );
    let mut stop = false;
    while !stop
        invariant
            r.wf(),
            r.stream() == old(r).stream(),
            s == r.payload(),
            !stop ==> total == rplm_spec(s, ebsp_cursor(*r), *idc, *abs_diff, *ltp, *viewd),
            stop ==> total == (((*idc, *abs_diff, *ltp, *viewd), ebsp_cursor(*r))),
        decreases (if stop {
            0int
        } else {
            1int
        }), 8 * r.payload().len() - r.bits_read(),
    {
        proof {
            r.lemma_wf();
        }
        let ghost cur0 = ebsp_cursor(*r);
        let v = read_ue_eb(r);
        *idc = v;
        if v == 0 || v == 1 {
            *abs_diff = read_ue_eb(r);
        } else if v == 2 {
            *ltp = read_ue_eb(r);
        } else if v == 4 || v == 5 {
            *viewd = read_ue_eb(r);
        } else if v == 3 {
            stop = true;
        }
        if r.acc_error().is_some() {
            stop = true;
        }
        proof {
            r.lemma_wf();
            assert(total == rplm_spec(s, cur0, *idc, *abs_diff, *ltp, *viewd) || (stop && total
                == (((*idc, *abs_diff, *ltp, *viewd), ebsp_cursor(*r)))) || (!stop && total
                == rplm_spec(s, ebsp_cursor(*r), *idc, *abs_diff, *ltp, *viewd)));
        }
    }
}

/// Read the prediction-weight entries of one reference list.
fn read_weight_entries(r: &mut EbspReader, count_minus1: u32, chroma: bool)
    requires
        old(r).wf(),
    ensures
        final(r).wf(),
        final(r).stream() == old(r).stream(),
        ebsp_at(
            *final(r),
            weights_list_spec(
                old(r).payload(),
                ebsp_cursor(*old(r)),
                chroma,
                count_minus1 as nat + 1,
            ),
        ),
{
    let ghost s = old(r).payload();
    let ghost total = weights_list_spec(s, ebsp_cursor(*old(r)), chroma, count_minus1 as nat + 1);
    let mut i: u64 = 0;
    while i <= count_minus1 as u64
        invariant
            i <= count_minus1 as u64 + 1,
            r.wf(),
            r.stream() == old(r).stream(),
            s == r.payload(),
            total == weights_list_spec(
                s,
                ebsp_cursor(*r),
                chroma,
                (count_minus1 as u64 + 1 - i) as nat,
            ),
        decreases count_minus1 as u64 + 1 - i,
    {
        let ghost cur0 = ebsp_cursor(*r);
        let luma_weight_flag = r.read_flag();
        if luma_weight_flag {
            let _ = read_se_eb(r);
            let _ = read_se_eb(r);
        }
        if chroma {
            let chroma_weight_flag = r.read_flag();
            if chroma_weight_flag {
                let _ = read_se_eb(r);
                let _ = read_se_eb(r);
                let _ = read_se_eb(r);
                let _ = read_se_eb(r);
            }
        }
        i = i + 1;
        proof {
            assert(total == weights_list_spec(
                s,
                ebsp_cursor(*r),
                chroma,
                (count_minus1 as u64 + 1 - i) as nat,
            ));
        }
    }
}

/// Read the two modification runs.
fn sb_rplm(r: &mut EbspReader, slice_type: u32) -> (o: (bool, bool, u32, u32, u32, u32))
    requires
        old(r).wf(),
    ensures
        final(r).wf(),
        final(r).stream() == old(r).stream(),
        ({
            let (g, cf) = sb_rplm_spec(old(r).payload(), ebsp_cursor(*old(r)), slice_type);
            o == g && ebsp_at(*final(r), cf)
        }),
{
    let m = slice_type % 5;
    let mut modification_of_pic_nums_idc: u32 = 0;
    let mut abs_diff_pic_num_minus1: u32 = 0;
    let mut long_term_pic_num: u32 = 0;
    let mut abs_diff_view_idx_minus1: u32 = 0;
    let mut ref_pic_list_modification_l0_flag = false;
    if m != 2 && m != 4 {
        ref_pic_list_modification_l0_flag = r.read_flag();
        if ref_pic_list_modification_l0_flag {
            read_ref_pic_list_modification(
                r,
                &mut modification_of_pic_nums_idc,
                &mut abs_diff_pic_num_minus1,
                &mut long_term_pic_num,
                &mut abs_diff_view_idx_minus1,
            );
        }
    }
    let mut ref_pic_list_modification_l1_flag = false;
    if m == 1 {
        ref_pic_list_modification_l1_flag = r.read_flag();
        if ref_pic_list_modification_l1_flag {
            read_ref_pic_list_modification(
                r,
                &mut modification_of_pic_nums_idc,
                &mut abs_diff_pic_num_minus1,
                &mut long_term_pic_num,
                &mut abs_diff_view_idx_minus1,
            );
        }
    }
    (
        ref_pic_list_modification_l0_flag,
        ref_pic_list_modification_l1_flag,
        modification_of_pic_nums_idc,
        abs_diff_pic_num_minus1,
        long_term_pic_num,
        abs_diff_view_idx_minus1,
    )
}

/// Read the prediction-weight table.
fn sb_weights(r: &mut EbspReader, sps: &Sps, pps: &Pps, slice_type: u32, l0: u32, l1: u32) -> (o: (
    u32,
    u32,
))
    requires
        old(r).wf(),
    ensures
        final(r).wf(),
        final(r).stream() == old(r).stream(),
        ({
            let (g, cf) = sb_weights_spec(
                old(r).payload(),
                ebsp_cursor(*old(r)),
                *sps,
                *pps,
                slice_type,
                l0,
                l1,
            );
            o == g && ebsp_at(*final(r), cf)
        }),
{
    let m = slice_type % 5;
    let mut luma_log2_weight_denom: u32 = 0;
    let mut chroma_log2_weight_denom: u32 = 0;
    let chroma = sps.chroma_array_type() != 0;
    if (pps.weighted_pred_flag && (m == 0 || m == 3)) || (pps.weighted_bipred_idc == 1 && m == 1) {
        luma_log2_weight_denom = read_ue_eb(r);
        if chroma {
            chroma_log2_weight_denom = read_ue_eb(r);
        }
        read_weight_entries(r, l0, chroma);
        if m == 1 {
            read_weight_entries(r, l1, chroma);
        }
    }
    (luma_log2_weight_denom, chroma_log2_weight_denom)
}

/// Read the decoded-reference-picture marking.
fn sb_marking(r: &mut EbspReader, is_idr: bool, nal_ref_idc: u32, ltp: u32) -> (o: (
    bool,
    bool,
    bool,
    u32,
    u32,
    u32,
    u32,
))
    requires
        old(r).wf(),
    ensures
        final(r).wf(),
        final(r).stream() == old(r).stream(),
        ({
            let (g, cf) = sb_marking_spec(
                old(r).payload(),
                ebsp_cursor(*old(r)),
                is_idr,
                nal_ref_idc,
                ltp,
            );
            o == g && ebsp_at(*final(r), cf)
        }),
{
    let ghost s = old(r).payload();
    let mut no_output_of_prior_pics_flag = false;
    let mut long_term_reference_flag = false;
    let mut adaptive_ref_pic_marking_mode_flag = false;
    let mut difference_of_pic_nums_minus1: u32 = 0;
    let mut long_term_pic_num: u32 = ltp;
    let mut long_term_fram_idx: u32 = 0;
    let mut max_long_term_frame_idx_plus1: u32 = 0;
    if nal_ref_idc != 0 {
        if is_idr {
            no_output_of_prior_pics_flag = r.read_flag();
            long_term_reference_flag = r.read_flag();
        } else {
            adaptive_ref_pic_marking_mode_flag = r.read_flag();
            if adaptive_ref_pic_marking_mode_flag {
                let ghost c1 = ebsp_cursor(*r);
                let ghost total = mmco_spec(s, c1, 0, ltp, 0, 0);
                let mut stop = false;
                while !stop
                    invariant
                        r.wf(),
                        r.stream() == old(r).stream(),
                        s == r.payload(),
                        !stop ==> total == mmco_spec(
                            s,
                            ebsp_cursor(*r),
                            difference_of_pic_nums_minus1,
                            long_term_pic_num,
                            long_term_fram_idx,
                            max_long_term_frame_idx_plus1,
                        ),
                        stop ==> total == ((
                            (
                                difference_of_pic_nums_minus1,
                                long_term_pic_num,
                                long_term_fram_idx,
                                max_long_term_frame_idx_plus1,
                            ),
                            ebsp_cursor(*r),
                        )),
                    decreases (if stop {
                        0int
                    } else {
                        1int
                    }), 8 * r.payload().len() - r.bits_read(),
                {
                    proof {
                        r.lemma_wf();
                    }
                    let ghost cur0 = ebsp_cursor(*r);
                    let mmco = read_ue_eb(r);
                    if mmco == 1 || mmco == 3 {
                        difference_of_pic_nums_minus1 = read_ue_eb(r);
                    } else if mmco == 2 {
                        long_term_pic_num = read_ue_eb(r);
                    }
                    if mmco == 3 || mmco == 6 {
                        long_term_fram_idx = read_ue_eb(r);
                    } else if mmco == 4 {
                        max_long_term_frame_idx_plus1 = read_ue_eb(r);
                    } else if mmco == 0 {
                        stop = true;
                    }
                    if r.acc_error().is_some() {
                        stop = true;
                    }
                    proof {
                        r.lemma_wf();
                        assert(total == mmco_spec(
                            s,
                            cur0,
                            difference_of_pic_nums_minus1,
                            long_term_pic_num,
                            long_term_fram_idx,
                            max_long_term_frame_idx_plus1,
                        ) || (stop && total == ((
                            (
                                difference_of_pic_nums_minus1,
                                long_term_pic_num,
                                long_term_fram_idx,
                                max_long_term_frame_idx_plus1,
                            ),
                            ebsp_cursor(*r),
                        ))) || (!stop && total == mmco_spec(
                            s,
                            ebsp_cursor(*r),
                            difference_of_pic_nums_minus1,
                            long_term_pic_num,
                            long_term_fram_idx,
                            max_long_term_frame_idx_plus1,
                        )));
                    }
                }
            }
        }
    }
    (
        no_output_of_prior_pics_flag,
        long_term_reference_flag,
        adaptive_ref_pic_marking_mode_flag,
        difference_of_pic_nums_minus1,
        long_term_pic_num,
        long_term_fram_idx,
        max_long_term_frame_idx_plus1,
    )
}

/// Read the CABAC initialisation and the quantisation deltas.
#[verifier::rlimit(100)]
fn sb_finish_a(r: &mut EbspReader, pps: &Pps, slice_type: u32) -> (o: (u32, i32, bool, i32))
    requires
        old(r).wf(),
    ensures
        final(r).wf(),
        final(r).stream() == old(r).stream(),
        ({
            let (g, cf) = sb_finish_a_spec(
                old(r).payload(),
                ebsp_cursor(*old(r)),
                *pps,
                slice_type,
            );
            o == g && ebsp_at(*final(r), cf)
        }),
{
    let m = slice_type % 5;
    let mut cabac_init_idc: u32 = 0;
    if pps.entropy_coding_mode_flag && m != 2 && m != 4 {
        cabac_init_idc = read_ue_eb(r);
    }
    let slice_qp_delta = read_se_eb(r);
    let mut sp_for_switch_flag = false;
    let mut slice_qs_delta: i32 = 0;
    if m == 3 || m == 4 {
        if m == 3 {
            sp_for_switch_flag = r.read_flag();
        }
        slice_qs_delta = read_se_eb(r);
    }
    (cabac_init_idc, slice_qp_delta, sp_for_switch_flag, slice_qs_delta)
}

/// Read the deblocking controls and the slice-group change cycle.
#[verifier::rlimit(100)]
fn sb_finish_b(r: &mut EbspReader, pps: &Pps) -> (o: (u32, i32, i32, u32))
    requires
        old(r).wf(),
    ensures
        final(r).wf(),
        final(r).stream() == old(r).stream(),
        ({
            let (g, cf) = sb_finish_b_spec(old(r).payload(), ebsp_cursor(*old(r)), *pps);
            o == g && ebsp_at(*final(r), cf)
        }),
{
    let mut disable_deblocking_filter_idc: u32 = 0;
    let mut slice_alpha_c0_offset_div2: i32 = 0;
    let mut slice_beta_offset_div2: i32 = 0;
    if pps.deblocking_filter_control_present_flag {
        disable_deblocking_filter_idc = read_ue_eb(r);
        if disable_deblocking_filter_idc != 1 {
            slice_alpha_c0_offset_div2 = read_se_eb(r);
            slice_beta_offset_div2 = read_se_eb(r);
        }
    }
    let mut slice_group_change_cycle: u32 = 0;
    if pps.num_slice_groups_minus1 > 0 && pps.slice_group_map_type >= 3
        && pps.slice_group_map_type <= 5 {
        let pic_size_in_map_units = (pps.pic_size_in_map_units_minus1 as u64) + 1;
        let slice_group_change_rate = (pps.slice_group_change_rate_minus1 as u64) + 1;
        let v64 = pic_size_in_map_units / slice_group_change_rate + 1;
        let v: u32 = if v64 > u32::MAX as u64 {
            u32::MAX
        } else {
            v64 as u32
        };
        let nr_bits = ceil_log2(v);
        slice_group_change_cycle = r.read(nr_bits);
    }
    (
        disable_deblocking_filter_idc,
        slice_alpha_c0_offset_div2,
        slice_beta_offset_div2,
        slice_group_change_cycle,
    )
}

/// Read the closing fields.
fn sb_finish(r: &mut EbspReader, pps: &Pps, slice_type: u32) -> (o: (
    u32,
    i32,
    bool,
    i32,
    u32,
    i32,
    i32,
    u32,
))
    requires
        old(r).wf(),
    ensures
        final(r).wf(),
        final(r).stream() == old(r).stream(),
        ({
            let (g, cf) = sb_finish_spec(old(r).payload(), ebsp_cursor(*old(r)), *pps, slice_type);
            o == g && ebsp_at(*final(r), cf)
        }),
{
    let ghost s = old(r).payload();
    let ghost c0 = ebsp_cursor(*old(r));
    let a = sb_finish_a(r, pps, slice_type);
    let ghost c4 = sb_finish_a_spec(s, c0, *pps, slice_type).1;
    proof {
        assert(ebsp_at(*r, c4));
    }
    let b = sb_finish_b(r, pps);
    (a.0, a.1, a.2, a.3, b.0, b.1, b.2, b.3)
}

/// Read the head, picture-order, reference-index and modification
/// groups.
#[verifier::rlimit(100)]
#[verifier::spinoff_prover]
fn parse_slice_front(r: &mut EbspReader, sps: &Sps, pps: &Pps, is_idr: bool, slice_type: u32) -> (o: (
    (u32, u32, bool, bool, u32),
    (u32, i32, i32, i32),
    (u32, bool, bool, u32, u32),
    (bool, bool, u32, u32, u32, u32),
))
    requires
        old(r).wf(),
    ensures
        final(r).wf(),
        final(r).stream() == old(r).stream(),
        ({
            let (g, cf) = slice_front_spec(
                old(r).payload(),
                ebsp_cursor(*old(r)),
                *sps,
                *pps,
                is_idr,
                slice_type,
            );
            o == g && ebsp_at(*final(r), cf)
        }),
{
    let ghost s = old(r).payload();
    let ghost c0 = ebsp_cursor(*old(r));
    let h = sb_head(r, sps, is_idr);
    let ghost c1 = sb_head_spec(s, c0, *sps, is_idr).1;
    proof {
        assert(ebsp_at(*r, c1));
    }
    let p = sb_poc(r, sps, pps, h.2);
    let ghost c2 = sb_poc_spec(s, c1, *sps, *pps, h.2).1;
    proof {
        assert(ebsp_at(*r, c2));
    }
    let ri = sb_refidx(r, pps, slice_type);
    let ghost c3 = sb_refidx_spec(s, c2, *pps, slice_type).1;
    proof {
        assert(ebsp_at(*r, c3));
    }
    let rm = sb_rplm(r, slice_type);
    let ghost c4 = sb_rplm_spec(s, c3, slice_type).1;
    proof {
        assert(ebsp_at(*r, c4));
    }
    (h, p, ri, rm)
}

/// Read the remainder of a slice header, after the parameter sets are
/// resolved; the four identifying fields are passed through unchanged.
#[verifier::rlimit(100)]
#[verifier::spinoff_prover]
fn parse_slice_body(
    r: &mut EbspReader,
    sps: &Sps,
    pps: &Pps,
    is_idr: bool,
    nal_ref_idc: u32,
    first_mb_in_slice: u32,
    slice_type: u32,
    pic_param_id: u32,
    seq_param_id: u32,
) -> (ret: Option<SliceHeader>)
    requires
        old(r).wf(),
        old(r).stream().len() < 0x1_0000_0000,
    ensures
        ({
            let (g, cf) = slice_body_spec(
                old(r).payload(),
                ebsp_cursor(*old(r)),
                *sps,
                *pps,
                is_idr,
                nal_ref_idc,
                slice_type,
            );
            match ret {
                Some(sh) => !cf.failed && sb_matches(sh, g) && sh.first_mb_in_slice
                    == first_mb_in_slice && sh.slice_type == slice_type && sh.pic_param_id
                    == pic_param_id && sh.seq_param_id == seq_param_id && sh.size == raw_pos(
                    old(r).stream(),
                    cf.pos,
                ) as u32,
                None => cf.failed,
            }
        }),
{
    let ghost s = old(r).payload();
    let ghost c0 = ebsp_cursor(*old(r));
    let fr = parse_slice_front(r, sps, pps, is_idr, slice_type);
    let h = fr.0;
    let p = fr.1;
    let ri = fr.2;
    let rm = fr.3;
    let ghost c4 = slice_front_spec(s, c0, *sps, *pps, is_idr, slice_type).1;
    proof {
        assert(ebsp_at(*r, c4));
    }
    let w = sb_weights(r, sps, pps, slice_type, ri.3, ri.4);
    let ghost c5 = sb_weights_spec(s, c4, *sps, *pps, slice_type, ri.3, ri.4).1;
    proof {
        assert(ebsp_at(*r, c5));
    }
    let mk = sb_marking(r, is_idr, nal_ref_idc, rm.4);
    let ghost c6 = sb_marking_spec(s, c5, is_idr, nal_ref_idc, rm.4).1;
    proof {
        assert(ebsp_at(*r, c6));
    }
    let f = sb_finish(r, pps, slice_type);
    let ghost c7 = sb_finish_spec(s, c6, *pps, slice_type).1;
    let ghost gbody = GSliceBody {
        color_plane_id: h.0,
        frame_num: h.1,
        field_pic_flag: h.2,
        bottom_field_flag: h.3,
        idr_pic_id: h.4,
        pic_order_cnt_lsb: p.0,
        delta_pic_order_cnt_bottom: p.1,
        delta_pic_order_cnt0: p.2,
        delta_pic_order_cnt1: p.3,
        redundant_pic_cnt: ri.0,
        direct_spatial_mv_pred_flag: ri.1,
        num_ref_idx_active_override_flag: ri.2,
        num_ref_idx_l0_active_minus1: ri.3,
        num_ref_idx_l1_active_minus1: ri.4,
        ref_pic_list_modification_l0_flag: rm.0,
        ref_pic_list_modification_l1_flag: rm.1,
        modification_of_pic_nums_idc: rm.2,
        abs_diff_pic_num_minus1: rm.3,
        long_term_pic_num: mk.4,
        abs_diff_view_idx_minus1: rm.5,
        luma_log2_weight_denom: w.0,
        chroma_log2_weight_denom: w.1,
        no_output_of_prior_pics_flag: mk.0,
        long_term_reference_flag: mk.1,
        adaptive_ref_pic_marking_mode_flag: mk.2,
        difference_of_pic_nums_minus1: mk.3,
        long_term_fram_idx: mk.5,
        max_long_term_frame_idx_plus1: mk.6,
        cabac_init_idc: f.0,
        slice_qp_delta: f.1,
        sp_for_switch_flag: f.2,
        slice_qs_delta: f.3,
        disable_deblocking_filter_idc: f.4,
        slice_alpha_c0_offset_div2: f.5,
        slice_beta_offset_div2: f.6,
        slice_group_change_cycle: f.7,
    };
    proof {
        assert(ebsp_at(*r, c7));
        assert(slice_body_spec(s, c0, *sps, *pps, is_idr, nal_ref_idc, slice_type) == ((
            gbody,
            c7,
        )));
    }
    let size_usize = r.nr_bytes_read();
    if r.acc_error().is_some() {
        return None;
    }
    proof {
        r.lemma_wf();
        r.lemma_raw_read_is();
    }
    let size = size_usize as u32;
    Some(
        SliceHeader {
            slice_type,
            first_mb_in_slice,
            pic_param_id,
            seq_param_id,
            color_plane_id: h.0,
            frame_num: h.1,
            idr_pic_id: h.4,
            pic_order_cnt_lsb: p.0,
            delta_pic_order_cnt_bottom: p.1,
            delta_pic_order_cnt0: p.2,
            delta_pic_order_cnt1: p.3,
            redundant_pic_cnt: ri.0,
            num_ref_idx_l0_active_minus1: ri.3,
            num_ref_idx_l1_active_minus1: ri.4,
            modification_of_pic_nums_idc: rm.2,
            abs_diff_pic_num_minus1: rm.3,
            long_term_pic_num: mk.4,
            abs_diff_view_idx_minus1: rm.5,
            luma_log2_weight_denom: w.0,
            chroma_log2_weight_denom: w.1,
            difference_of_pic_nums_minus1: mk.3,
            long_term_fram_idx: mk.5,
            max_long_term_frame_idx_plus1: mk.6,
            cabac_init_idc: f.0,
            slice_qp_delta: f.1,
            slice_qs_delta: f.3,
            disable_deblocking_filter_idc: f.4,
            slice_alpha_c0_offset_div2: f.5,
            slice_beta_offset_div2: f.6,
            slice_group_change_cycle: f.7,
            size,
            field_pic_flag: h.2,
            bottom_field_flag: h.3,
            direct_spatial_mv_pred_flag: ri.1,
            num_ref_idx_active_override_flag: ri.2,
            ref_pic_list_modification_l0_flag: rm.0,
            ref_pic_list_modification_l1_flag: rm.1,
            no_output_of_prior_pics_flag: mk.0,
            long_term_reference_flag: mk.1,
            sp_for_switch_flag: f.2,
            adaptive_ref_pic_marking_mode_flag: mk.2,
        },
    )
}

/// Parse an AVC slice header against the active parameter-set maps:
/// exactly [`slice_spec`] on the NAL unit and the maps.
#[verifier::rlimit(100)]
pub fn parse_slice_header(
    nalu: &[u8],
    sps_map: &HashMap<u32, Sps>,
    pps_map: &HashMap<u32, Pps>,
) -> (r: Option<SliceHeader>)
    requires
        nalu@.len() < 0x1_0000_0000,
    ensures
        match r {
            Some(sh) => slice_spec(nalu@, sps_map@, pps_map@) matches Some(g) && slice_matches(
                sh,
                g,
            ),
            None => slice_spec(nalu@, sps_map@, pps_map@) is None,
        },
{
    broadcast use vstd::std_specs::hash::group_hash_axioms;

    if nalu.len() == 0 {
        return None;
    }
    let ntype = NaluType::from_header_byte(nalu[0]);
    let is_idr = matches!(ntype, NaluType::Idr);
    if !(matches!(ntype, NaluType::NonIdr) || is_idr) {
        return None;
    }
    let ghost s = rbsp(nalu@);
    let mut r = EbspReader::new(vstd::slice::slice_to_vec(nalu));
    let ghost c0 = BitCursor { pos: 0, failed: false };
    let nal_hdr = r.read(8);
    let nal_ref_idc = (nal_hdr / 32) % 4;
    let first_mb_in_slice = read_ue_eb(&mut r);
    let slice_type = read_ue_eb(&mut r);
    let pic_param_id = read_ue_eb(&mut r);
    let ghost c4 = s_uev(s, s_uev(s, s_uev(s, s_read(s, c0, 8).1).1).1).1;
    proof {
        assert(ebsp_at(r, c4));
    }
    if r.acc_error().is_some() {
        return None;
    }
    let pps = match pps_map.get(&pic_param_id) {
        Some(p) => p,
        None => {
            return None;
        },
    };
    let seq_param_id = pps.seq_parameter_set_id;
    let sps = match sps_map.get(&seq_param_id) {
        Some(sp) => sp,
        None => {
            return None;
        },
    };
    parse_slice_body(
        &mut r,
        sps,
        pps,
        is_idr,
        nal_ref_idc,
        first_mb_in_slice,
        slice_type,
        pic_param_id,
        seq_param_id,
    )
}

} // verus!
