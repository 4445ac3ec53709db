//! The AVC picture parameter set, slice-group maps and scaling lists
//! included.
//!
//! The payload is un-escaped first; [`pps_spec`] walks the fields of
//! ITU-T H.264 section 7.3.2.2 over the un-escaped bit stream, and the
//! parser returns `Some` exactly when that walk succeeds. A type-6
//! slice-group map is read as one id per slice group, so
//! `pic_size_in_map_units_minus1` stays 0. The three tail fields are
//! present only while un-read payload bits remain.

use vstd::prelude::*;
use crate::bits::BitReader;
use crate::ebsp::{remove_emulation_prevention_bytes, rbsp};
use crate::golomb::{
    ceil_log2, clog2, read_scaling_list, read_se, read_ue, reader_at, reader_cursor, s_flag,
    s_read, s_sev, s_uev, scaling_list_spec, BitCursor,
};
use crate::nal::{nalu_type_of, NaluType};
use crate::sps::{s_scaling_lists, s_uev_list, scaling_lists_match};

verus! {

/// An AVC picture parameter set, as parsed from a NAL unit.
#[derive(Debug, Clone, PartialEq, Eq)]
pub struct Pps {
    pub pic_parameter_set_id: u32,
    pub seq_parameter_set_id: u32,
    pub entropy_coding_mode_flag: bool,
    pub bottom_field_pic_order_in_frame_present_flag: bool,
    pub num_slice_groups_minus1: u32,
    pub slice_group_map_type: u32,
    pub run_length_minus1: Vec<u32>,
    pub top_left: Vec<u32>,
    pub bottom_right: Vec<u32>,
    pub slice_group_change_direction_flag: bool,
    pub slice_group_change_rate_minus1: u32,
    pub pic_size_in_map_units_minus1: u32,
    pub slice_group_id: Vec<u32>,
    pub num_ref_idx_i0_default_active_minus1: u32,
    pub num_ref_idx_i1_default_active_minus1: u32,
    pub weighted_pred_flag: bool,
    pub weighted_bipred_idc: u32,
    pub pic_init_qp_minus26: i32,
    pub pic_init_qs_minus26: i32,
    pub chroma_qp_index_offset: i32,
    pub deblocking_filter_control_present_flag: bool,
    pub constrained_intra_pred_flag: bool,
    pub redundant_pic_cnt_present_flag: bool,
    pub transform8x8_mode_flag: bool,
    pub pic_scaling_matrix_present_flag: bool,
    pub pic_scaling_lists: Vec<Option<Vec<i32>>>,
    pub second_chroma_qp_index_offset: i32,
}

/// The ghost image of a picture parameter set.
pub struct GPps {
    pub pic_parameter_set_id: u32,
    pub seq_parameter_set_id: u32,
    pub entropy_coding_mode_flag: bool,
    pub bottom_field_pic_order_in_frame_present_flag: bool,
    pub num_slice_groups_minus1: u32,
    pub slice_group_map_type: u32,
    pub run_length_minus1: Seq<u32>,
    pub top_left: Seq<u32>,
    pub bottom_right: Seq<u32>,
    pub slice_group_change_direction_flag: bool,
    pub slice_group_change_rate_minus1: u32,
    pub slice_group_id: Seq<u32>,
    pub num_ref_idx_i0_default_active_minus1: u32,
    pub num_ref_idx_i1_default_active_minus1: u32,
    pub weighted_pred_flag: bool,
    pub weighted_bipred_idc: u32,
    pub pic_init_qp_minus26: i32,
    pub pic_init_qs_minus26: i32,
    pub chroma_qp_index_offset: i32,
    pub deblocking_filter_control_present_flag: bool,
    pub constrained_intra_pred_flag: bool,
    pub redundant_pic_cnt_present_flag: bool,
    pub transform8x8_mode_flag: bool,
    pub pic_scaling_matrix_present_flag: bool,
    pub pic_scaling_lists: Seq<Option<Seq<i32>>>,
    pub second_chroma_qp_index_offset: i32,
}

/// A parsed record carries the ghost image, list for list.
pub open spec fn pps_matches(pps: Pps, g: GPps) -> bool {
    &&& pps.pic_parameter_set_id == g.pic_parameter_set_id
    &&& pps.seq_parameter_set_id == g.seq_parameter_set_id
    &&& pps.entropy_coding_mode_flag == g.entropy_coding_mode_flag
    &&& pps.bottom_field_pic_order_in_frame_present_flag
        == g.bottom_field_pic_order_in_frame_present_flag
    &&& pps.num_slice_groups_minus1 == g.num_slice_groups_minus1
    &&& pps.slice_group_map_type == g.slice_group_map_type
    &&& pps.run_length_minus1@ == g.run_length_minus1
    &&& pps.top_left@ == g.top_left
    &&& pps.bottom_right@ == g.bottom_right
    &&& pps.slice_group_change_direction_flag == g.slice_group_change_direction_flag
    &&& pps.slice_group_change_rate_minus1 == g.slice_group_change_rate_minus1
    &&& pps.pic_size_in_map_units_minus1 == 0
    &&& pps.slice_group_id@ == g.slice_group_id
    &&& pps.num_ref_idx_i0_default_active_minus1 == g.num_ref_idx_i0_default_active_minus1
    &&& pps.num_ref_idx_i1_default_active_minus1 == g.num_ref_idx_i1_default_active_minus1
    &&& pps.weighted_pred_flag == g.weighted_pred_flag
    &&& pps.weighted_bipred_idc == g.weighted_bipred_idc
    &&& pps.pic_init_qp_minus26 == g.pic_init_qp_minus26
    &&& pps.pic_init_qs_minus26 == g.pic_init_qs_minus26
    &&& pps.chroma_qp_index_offset == g.chroma_qp_index_offset
    &&& pps.deblocking_filter_control_present_flag == g.deblocking_filter_control_present_flag
    &&& pps.constrained_intra_pred_flag == g.constrained_intra_pred_flag
    &&& pps.redundant_pic_cnt_present_flag == g.redundant_pic_cnt_present_flag
    &&& pps.transform8x8_mode_flag == g.transform8x8_mode_flag
    &&& pps.pic_scaling_matrix_present_flag == g.pic_scaling_matrix_present_flag
    &&& scaling_lists_match(pps.pic_scaling_lists@, g.pic_scaling_lists)
    &&& pps.second_chroma_qp_index_offset == g.second_chroma_qp_index_offset
}

/// The fixed prefix: the two ids as Exp-Golomb codes, the
/// entropy-coding and field-order flags, and the slice-group count.
pub open spec fn pps_prefix_spec(s: Seq<u8>, c: BitCursor) -> (
    (u32, u32, bool, bool, u32),
    BitCursor,
) {
    let (ppsid, c1) = s_uev(s, c);
    let (spsid, c2) = s_uev(s, c1);
    let (ecm, c3) = s_flag(s, c2);
    let (bfp, c4) = s_flag(s, c3);
    let (nsg, c5) = s_uev(s, c4);
    ((ppsid as u32, spsid as u32, ecm, bfp, nsg as u32), c5)
}

/// Reading `n` pairs of unsigned Exp-Golomb codes at a cursor.
pub open spec fn s_uev_pairs(s: Seq<u8>, c: BitCursor, n: nat) -> (
    (Seq<u32>, Seq<u32>),
    BitCursor,
)
    decreases n,
{
    if n == 0 {
        ((Seq::empty(), Seq::empty()), c)
    } else {
        let (a, c1) = s_uev(s, c);
        let (b, c2) = s_uev(s, c1);
        let (rest, c3) = s_uev_pairs(s, c2, (n - 1) as nat);
        ((seq![a as u32] + rest.0, seq![b as u32] + rest.1), c3)
    }
}

/// Reading `n` fixed-width values at a cursor.
pub open spec fn s_read_list(s: Seq<u8>, c: BitCursor, n: nat, bits: nat) -> (
    Seq<u32>,
    BitCursor,
)
    decreases n,
{
    if n == 0 {
        (Seq::empty(), c)
    } else {
        let (v, c1) = s_read(s, c, bits);
        let (rest, c2) = s_read_list(s, c1, (n - 1) as nat, bits);
        (seq![v as u32] + rest, c2)
    }
}

/// The ghost image of the slice-group block.
pub struct GSliceGroups {
    pub map_type: u32,
    pub run_length_minus1: Seq<u32>,
    pub top_left: Seq<u32>,
    pub bottom_right: Seq<u32>,
    pub change_direction_flag: bool,
    pub change_rate_minus1: u32,
    pub ids: Seq<u32>,
}

/// The slice-group block for `n == num_slice_groups_minus1`: nothing
/// when `n` is 0, else a map type and its fields — a run length per
/// group (type 0), a corner pair per group (type 2), a direction flag
/// and change rate (types 3 to 5), or one id per group, each in just
/// enough bits for a group index (type 6).
pub open spec fn slice_groups_spec(s: Seq<u8>, c: BitCursor, n: u32) -> (
    GSliceGroups,
    BitCursor,
) {
    if n == 0 {
        (
            GSliceGroups {
                map_type: 0,
                run_length_minus1: Seq::empty(),
                top_left: Seq::empty(),
                bottom_right: Seq::empty(),
                change_direction_flag: false,
                change_rate_minus1: 0,
                ids: Seq::empty(),
            },
            c,
        )
    } else {
        let (mt, c1) = s_uev(s, c);
        if mt == 0 {
            let (rl, c2) = s_uev_list(s, c1, n as nat + 1);
            (
                GSliceGroups {
                    map_type: mt as u32,
                    run_length_minus1: rl,
                    top_left: Seq::empty(),
                    bottom_right: Seq::empty(),
                    change_direction_flag: false,
                    change_rate_minus1: 0,
                    ids: Seq::empty(),
                },
                c2,
            )
        } else if mt == 2 {
            let (pairs, c2) = s_uev_pairs(s, c1, n as nat + 1);
            (
                GSliceGroups {
                    map_type: mt as u32,
                    run_length_minus1: Seq::empty(),
                    top_left: pairs.0,
                    bottom_right: pairs.1,
                    change_direction_flag: false,
                    change_rate_minus1: 0,
                    ids: Seq::empty(),
                },
                c2,
            )
        } else if mt == 3 || mt == 4 || mt == 5 {
            let (d, c2) = s_flag(s, c1);
            let (rate, c3) = s_uev(s, c2);
            (
                GSliceGroups {
                    map_type: mt as u32,
                    run_length_minus1: Seq::empty(),
                    top_left: Seq::empty(),
                    bottom_right: Seq::empty(),
                    change_direction_flag: d,
                    change_rate_minus1: rate as u32,
                    ids: Seq::empty(),
                },
                c3,
            )
        } else if mt == 6 {
            let (ids, c2) = s_read_list(s, c1, n as nat + 1, clog2(n as int + 1) as nat);
            (
                GSliceGroups {
                    map_type: mt as u32,
                    run_length_minus1: Seq::empty(),
                    top_left: Seq::empty(),
                    bottom_right: Seq::empty(),
                    change_direction_flag: false,
                    change_rate_minus1: 0,
                    ids,
                },
                c2,
            )
        } else {
            (
                GSliceGroups {
                    map_type: mt as u32,
                    run_length_minus1: Seq::empty(),
                    top_left: Seq::empty(),
                    bottom_right: Seq::empty(),
                    change_direction_flag: false,
                    change_rate_minus1: 0,
                    ids: Seq::empty(),
                },
                c1,
            )
        }
    }
}

/// The reference-index defaults, weighting and quantisation fields.
pub open spec fn pps_mid_a_spec(s: Seq<u8>, c: BitCursor) -> (
    (u32, u32, bool, u32, i32),
    BitCursor,
) {
    let (i0, c1) = s_uev(s, c);
    let (i1, c2) = s_uev(s, c1);
    let (wp, c3) = s_flag(s, c2);
    let (wb, c4) = s_read(s, c3, 2);
    let (qp, c5) = s_sev(s, c4);
    ((i0 as u32, i1 as u32, wp, wb as u32, qp as i32), c5)
}

/// The second quantisation offset and the three control flags.
pub open spec fn pps_mid_b_spec(s: Seq<u8>, c: BitCursor) -> (
    (i32, i32, bool, bool, bool),
    BitCursor,
) {
    let (qs, c1) = s_sev(s, c);
    let (cqp, c2) = s_sev(s, c1);
    let (db, c3) = s_flag(s, c2);
    let (ci, c4) = s_flag(s, c3);
    let (rp, c5) = s_flag(s, c4);
    ((qs as i32, cqp as i32, db, ci, rp), c5)
}

/// The optional tail: each field is read only while un-read payload
/// bits remain — the more-RBSP-data test against the un-escaped bit
/// length — and keeps its default otherwise.
pub open spec fn pps_tail_spec(s: Seq<u8>, c: BitCursor) -> (
    (bool, bool, Seq<Option<Seq<i32>>>, i32),
    BitCursor,
) {
    if c.failed || c.pos >= 8 * s.len() {
        ((false, false, Seq::empty(), 0), c)
    } else {
        let (t8, c1) = s_flag(s, c);
        if c1.failed || c1.pos >= 8 * s.len() {
            ((t8, false, Seq::empty(), 0), c1)
        } else {
            let (psm, c2) = s_flag(s, c1);
            let (lists, c3): (Seq<Option<Seq<i32>>>, BitCursor) = if psm {
                s_scaling_lists(s, c2, 0, if t8 { 8nat } else { 6nat })
            } else {
                (Seq::empty(), c2)
            };
            if c3.failed || c3.pos >= 8 * s.len() {
                ((t8, psm, lists, 0), c3)
            } else {
                let (sc, c4) = s_sev(s, c3);
                ((t8, psm, lists, sc as i32), c4)
            }
        }
    }
}

/// The whole PPS at the start of an un-escaped payload: the prefix,
/// the slice-group block, the middle fields and the guarded tail, with
/// the record exactly when no read ran out of bits or codes.
pub open spec fn pps_spec(s: Seq<u8>) -> Option<GPps> {
    let c0 = BitCursor { pos: 0, failed: false };
    let (pre, c5) = pps_prefix_spec(s, c0);
    if c5.failed {
        None
    } else {
        let (sg, c6) = slice_groups_spec(s, c5, pre.4);
        let (ma, c7) = pps_mid_a_spec(s, c6);
        let (mb, c8) = pps_mid_b_spec(s, c7);
        if c8.failed {
            None
        } else {
            let (tl, c9) = pps_tail_spec(s, c8);
            if c9.failed {
                None
            } else {
                Some(
                    GPps {
                        pic_parameter_set_id: pre.0,
                        seq_parameter_set_id: pre.1,
                        entropy_coding_mode_flag: pre.2,
                        bottom_field_pic_order_in_frame_present_flag: pre.3,
                        num_slice_groups_minus1: pre.4,
                        slice_group_map_type: sg.map_type,
                        run_length_minus1: sg.run_length_minus1,
                        top_left: sg.top_left,
                        bottom_right: sg.bottom_right,
                        slice_group_change_direction_flag: sg.change_direction_flag,
                        slice_group_change_rate_minus1: sg.change_rate_minus1,
                        slice_group_id: sg.ids,
                        num_ref_idx_i0_default_active_minus1: ma.0,
                        num_ref_idx_i1_default_active_minus1: ma.1,
                        weighted_pred_flag: ma.2,
                        weighted_bipred_idc: ma.3,
                        pic_init_qp_minus26: ma.4,
                        pic_init_qs_minus26: mb.0,
                        chroma_qp_index_offset: mb.1,
                        deblocking_filter_control_present_flag: mb.2,
                        constrained_intra_pred_flag: mb.3,
                        redundant_pic_cnt_present_flag: mb.4,
                        transform8x8_mode_flag: tl.0,
                        pic_scaling_matrix_present_flag: tl.1,
                        pic_scaling_lists: tl.2,
                        second_chroma_qp_index_offset: tl.3,
                    },
                )
            }
        }
    }
}

/// Read the fixed prefix.
fn read_pps_prefix(r: &mut BitReader) -> (o: (u32, u32, bool, bool, u32))
    requires
        old(r).wf(),
    ensures
        final(r).wf(),
        final(r).stream() == old(r).stream(),
        ({
            let (g, cf) = pps_prefix_spec(old(r).stream(), reader_cursor(*old(r)));
            &&& o == g
            &&& o.4 <= 0xFFFF_FFFE
            &&& reader_at(*final(r), cf)
        }),
{
    let ghost s = old(r).stream();
    let ghost c0 = reader_cursor(*old(r));
    let pic_parameter_set_id = read_ue(r);
    let seq_parameter_set_id = read_ue(r);
    let entropy_coding_mode_flag = r.read_flag();
    let bottom_field_pic_order_in_frame_present_flag = r.read_flag();
    let num_slice_groups_minus1 = read_ue(r);
    (
        pic_parameter_set_id,
        seq_parameter_set_id,
        entropy_coding_mode_flag,
        bottom_field_pic_order_in_frame_present_flag,
        num_slice_groups_minus1,
    )
}

/// Read `count` unsigned Exp-Golomb codes.
fn read_uev_list(r: &mut BitReader, count: u64) -> (v: Vec<u32>)
    requires
        old(r).wf(),
    ensures
        final(r).wf(),
        final(r).stream() == old(r).stream(),
        ({
            let (l, cf) = s_uev_list(old(r).stream(), reader_cursor(*old(r)), count as nat);
            v@ == l && reader_at(*final(r), cf)
        }),
{
    let ghost s = old(r).stream();
    let ghost mut cur = reader_cursor(*old(r));
    let ghost (total, c_list) = s_uev_list(s, cur, count as nat);
    let mut out: Vec<u32> = Vec::new();
    let mut k: u64 = 0;
    proof {
        assert(Seq::<u32>::empty() + total =~= total);
    }
    while k < count
        invariant
            k <= count,
            r.wf(),
            r.stream() == s,
            reader_at(*r, cur),
            ({
                let (suf, cf) = s_uev_list(s, cur, (count - k) as nat);
                total == out@ + suf && c_list == cf
            }),
        decreases count - k,
    {
        let ghost cur0 = cur;
        let val = read_ue(r);
        proof {
            cur = s_uev(s, cur).1;
        }
        out.push(val);
        k = k + 1;
        proof {
            let (suf0, _d0) = s_uev_list(s, cur0, (count + 1 - k) as nat);
            let (suf1, _d1) = s_uev_list(s, cur, (count - k) as nat);
            assert(suf0 == seq![val] + suf1);
            assert(out@ + suf1 =~= total);
        }
    }
    out
}

/// Read `count` pairs of unsigned Exp-Golomb codes.
fn read_uev_pairs(r: &mut BitReader, count: u64) -> (v: (Vec<u32>, Vec<u32>))
    requires
        old(r).wf(),
    ensures
        final(r).wf(),
        final(r).stream() == old(r).stream(),
        ({
            let (p, cf) = s_uev_pairs(old(r).stream(), reader_cursor(*old(r)), count as nat);
            v.0@ == p.0 && v.1@ == p.1 && reader_at(*final(r), cf)
        }),
{
    let ghost s = old(r).stream();
    let ghost mut cur = reader_cursor(*old(r));
    let ghost (total, c_list) = s_uev_pairs(s, cur, count as nat);
    let mut outa: Vec<u32> = Vec::new();
    let mut outb: Vec<u32> = Vec::new();
    let mut k: u64 = 0;
    proof {
        assert(Seq::<u32>::empty() + total.0 =~= total.0);
        assert(Seq::<u32>::empty() + total.1 =~= total.1);
    }
    while k < count
        invariant
            k <= count,
            r.wf(),
            r.stream() == s,
            reader_at(*r, cur),
            ({
                let (suf, cf) = s_uev_pairs(s, cur, (count - k) as nat);
                total.0 == outa@ + suf.0 && total.1 == outb@ + suf.1 && c_list == cf
            }),
        decreases count - k,
    {
        let ghost cur0 = cur;
        let a = read_ue(r);
        let b = read_ue(r);
        proof {
            cur = s_uev(s, s_uev(s, cur).1).1;
        }
        outa.push(a);
        outb.push(b);
        k = k + 1;
        proof {
            let (suf0, _d0) = s_uev_pairs(s, cur0, (count + 1 - k) as nat);
            let (suf1, _d1) = s_uev_pairs(s, cur, (count - k) as nat);
            assert(suf0.0 == seq![a] + suf1.0);
            assert(suf0.1 == seq![b] + suf1.1);
            assert(outa@ + suf1.0 =~= total.0);
            assert(outb@ + suf1.1 =~= total.1);
        }
    }
    (outa, outb)
}

/// Read `count` values of `bits` bits each.
fn read_bit_list(r: &mut BitReader, count: u64, bits: u32) -> (v: Vec<u32>)
    requires
        old(r).wf(),
        bits <= 32,
    ensures
        final(r).wf(),
        final(r).stream() == old(r).stream(),
        ({
            let (l, cf) = s_read_list(
                old(r).stream(),
                reader_cursor(*old(r)),
                count as nat,
                bits as nat,
            );
            v@ == l && reader_at(*final(r), cf)
        }),
{
    let ghost s = old(r).stream();
    let ghost mut cur = reader_cursor(*old(r));
    let ghost (total, c_list) = s_read_list(s, cur, count as nat, bits as nat);
    let mut out: Vec<u32> = Vec::new();
    let mut k: u64 = 0;
    proof {
        assert(Seq::<u32>::empty() + total =~= total);
    }
    while k < count
        invariant
            k <= count,
            bits <= 32,
            r.wf(),
            r.stream() == s,
            reader_at(*r, cur),
            ({
                let (suf, cf) = s_read_list(s, cur, (count - k) as nat, bits as nat);
                total == out@ + suf && c_list == cf
            }),
        decreases count - k,
    {
        let ghost cur0 = cur;
        let val = r.read(bits);
        proof {
            cur = s_read(s, cur, bits as nat).1;
        }
        out.push(val);
        k = k + 1;
        proof {
            let (suf0, _d0) = s_read_list(s, cur0, (count + 1 - k) as nat, bits as nat);
            let (suf1, _d1) = s_read_list(s, cur, (count - k) as nat, bits as nat);
            assert(suf0 == seq![val] + suf1);
            assert(out@ + suf1 =~= total);
        }
    }
    out
}

/// Read the slice-group block.
fn read_slice_groups(r: &mut BitReader, n: u32) -> (sg: (
    u32,
    Vec<u32>,
    Vec<u32>,
    Vec<u32>,
    bool,
    u32,
    Vec<u32>,
))
    requires
        old(r).wf(),
        n <= 0xFFFF_FFFE,
    ensures
        final(r).wf(),
        final(r).stream() == old(r).stream(),
        ({
            let (g, cf) = slice_groups_spec(old(r).stream(), reader_cursor(*old(r)), n);
            &&& sg.0 == g.map_type
            &&& sg.1@ == g.run_length_minus1
            &&& sg.2@ == g.top_left
            &&& sg.3@ == g.bottom_right
            &&& sg.4 == g.change_direction_flag
            &&& sg.5 == g.change_rate_minus1
            &&& sg.6@ == g.ids
            &&& reader_at(*final(r), cf)
        }),
{
    let ghost s = old(r).stream();
    let ghost c0 = reader_cursor(*old(r));
    let mut slice_group_map_type: u32 = 0;
    let mut run_length_minus1: Vec<u32> = Vec::new();
    let mut top_left: Vec<u32> = Vec::new();
    let mut bottom_right: Vec<u32> = Vec::new();
    let mut slice_group_change_direction_flag = false;
    let mut slice_group_change_rate_minus1: u32 = 0;
    let mut slice_group_id: Vec<u32> = Vec::new();
    if n > 0 {
        slice_group_map_type = read_ue(r);
        if slice_group_map_type == 0 {
            run_length_minus1 = read_uev_list(r, n as u64 + 1);
        } else if slice_group_map_type == 2 {
            let pairs = read_uev_pairs(r, n as u64 + 1);
            top_left = pairs.0;
            bottom_right = pairs.1;
        } else if slice_group_map_type == 3 || slice_group_map_type == 4 || slice_group_map_type
            == 5 {
            slice_group_change_direction_flag = r.read_flag();
            slice_group_change_rate_minus1 = read_ue(r);
        } else if slice_group_map_type == 6 {
            let nr_bits = ceil_log2(n + 1);
            slice_group_id = read_bit_list(r, n as u64 + 1, nr_bits);
        }
    }
    (
        slice_group_map_type,
        run_length_minus1,
        top_left,
        bottom_right,
        slice_group_change_direction_flag,
        slice_group_change_rate_minus1,
        slice_group_id,
    )
}

/// Read the reference-index defaults, weighting and quantisation
/// fields.
fn read_pps_mid_a(r: &mut BitReader) -> (o: (u32, u32, bool, u32, i32))
    requires
        old(r).wf(),
    ensures
        final(r).wf(),
        final(r).stream() == old(r).stream(),
        ({
            let (g, cf) = pps_mid_a_spec(old(r).stream(), reader_cursor(*old(r)));
            o == g && reader_at(*final(r), cf)
        }),
{
    let num_ref_idx_i0_default_active_minus1 = read_ue(r);
    let num_ref_idx_i1_default_active_minus1 = read_ue(r);
    let weighted_pred_flag = r.read_flag();
    let weighted_bipred_idc = r.read(2);
    let pic_init_qp_minus26 = read_se(r);
    (
        num_ref_idx_i0_default_active_minus1,
        num_ref_idx_i1_default_active_minus1,
        weighted_pred_flag,
        weighted_bipred_idc,
        pic_init_qp_minus26,
    )
}

/// Read the second quantisation offset and the three control flags.
fn read_pps_mid_b(r: &mut BitReader) -> (o: (i32, i32, bool, bool, bool))
    requires
        old(r).wf(),
    ensures
        final(r).wf(),
        final(r).stream() == old(r).stream(),
        ({
            let (g, cf) = pps_mid_b_spec(old(r).stream(), reader_cursor(*old(r)));
            o == g && reader_at(*final(r), cf)
        }),
{
    let pic_init_qs_minus26 = read_se(r);
    let chroma_qp_index_offset = read_se(r);
    let deblocking_filter_control_present_flag = r.read_flag();
    let constrained_intra_pred_flag = r.read_flag();
    let redundant_pic_cnt_present_flag = r.read_flag();
    (
        pic_init_qs_minus26,
        chroma_qp_index_offset,
        deblocking_filter_control_present_flag,
        constrained_intra_pred_flag,
        redundant_pic_cnt_present_flag,
    )
}

/// Read the optional scaling lists `0 .. nr`.
fn read_pps_scaling_lists(r: &mut BitReader, nr: usize) -> (v: Vec<Option<Vec<i32>>>)
    requires
        old(r).wf(),
        nr <= 8,
    ensures
        final(r).wf(),
        final(r).stream() == old(r).stream(),
        ({
            let (g, cf) = s_scaling_lists(old(r).stream(), reader_cursor(*old(r)), 0, nr as nat);
            scaling_lists_match(v@, g) && reader_at(*final(r), cf)
        }),
{
    let ghost s = old(r).stream();
    let ghost mut cur = reader_cursor(*old(r));
    let ghost (total_lists, c_lists) = s_scaling_lists(s, cur, 0, nr as nat);
    let ghost mut gl: Seq<Option<Seq<i32>>> = Seq::empty();
    let mut lists: Vec<Option<Vec<i32>>> = Vec::new();
    let mut i: usize = 0;
    proof {
        assert(gl + total_lists =~= total_lists);
    }
    while i < nr
        invariant
            i <= nr,
            nr <= 8,
            r.wf(),
            r.stream() == s,
            reader_at(*r, cur),
            lists@.len() == i,
            gl.len() == i,
            scaling_lists_match(lists@, gl),
            ({
                let (suf, cf) = s_scaling_lists(s, cur, i as nat, nr as nat);
                total_lists == gl + suf && c_lists == cf
            }),
        decreases nr - i,
    {
        let ghost cur0 = cur;
        let ghost gl0 = gl;
        let present = r.read_flag();
        proof {
            cur = s_flag(s, cur).1;
        }
        if present {
            let size: usize = if i < 6 {
                16
            } else {
                64
            };
            let l = read_scaling_list(r, size);
            proof {
                gl = gl.push(Some(scaling_list_spec(s, cur, size as nat, 8, 8).0));
                cur = scaling_list_spec(s, cur, size as nat, 8, 8).1;
            }
            lists.push(Some(l));
        } else {
            proof {
                gl = gl.push(None);
            }
            lists.push(None);
        }
        i = i + 1;
        proof {
            let (suf0, _d0) = s_scaling_lists(s, cur0, (i - 1) as nat, nr as nat);
            let (suf1, _d1) = s_scaling_lists(s, cur, i as nat, nr as nat);
            assert(suf0 == seq![gl[i - 1]] + suf1);
            assert(gl0 + suf0 =~= gl + suf1);
        }
    }
    proof {
        assert(s_scaling_lists(s, cur, nr as nat, nr as nat).0 =~= Seq::<
            Option<Seq<i32>>,
        >::empty());
        assert(gl + s_scaling_lists(s, cur, nr as nat, nr as nat).0 =~= gl);
    }
    lists
}

/// Read the guarded tail fields.
fn parse_pps_tail(r: &mut BitReader, total_bits: u64) -> (o: (
    bool,
    bool,
    Vec<Option<Vec<i32>>>,
    i32,
))
    requires
        old(r).wf(),
        !old(r).failed(),
        total_bits == 8 * old(r).stream().len(),
    ensures
        final(r).wf(),
        final(r).stream() == old(r).stream(),
        ({
            let (g, cf) = pps_tail_spec(old(r).stream(), reader_cursor(*old(r)));
            &&& o.0 == g.0
            &&& o.1 == g.1
            &&& scaling_lists_match(o.2@, g.2)
            &&& o.3 == g.3
            &&& reader_at(*final(r), cf)
        }),
{
    let ghost s = old(r).stream();
    let ghost c0 = reader_cursor(*old(r));
    let mut transform8x8_mode_flag = false;
    let mut pic_scaling_matrix_present_flag = false;
    let mut pic_scaling_lists: Vec<Option<Vec<i32>>> = Vec::new();
    let mut second_chroma_qp_index_offset: i32 = 0;
    if r.nr_bits_read() < total_bits {
        transform8x8_mode_flag = r.read_flag();
        let ghost c1 = s_flag(s, c0).1;
        if !r.acc_error().is_some() && r.nr_bits_read() < total_bits {
            pic_scaling_matrix_present_flag = r.read_flag();
            let ghost c2 = s_flag(s, c1).1;
            if pic_scaling_matrix_present_flag {
                let nr_scaling_lists: usize = if transform8x8_mode_flag {
                    8
                } else {
                    6
                };
                pic_scaling_lists = read_pps_scaling_lists(r, nr_scaling_lists);
            }
            let ghost c3 = if s_flag(s, c1).0 {
                s_scaling_lists(
                    s,
                    c2,
                    0,
                    if s_flag(s, c0).0 {
                        8nat
                    } else {
                        6nat
                    },
                ).1
            } else {
                c2
            };
            proof {
                assert(reader_at(*r, c3));
            }
            if !r.acc_error().is_some() && r.nr_bits_read() < total_bits {
                second_chroma_qp_index_offset = read_se(r);
            }
        }
    }
    (
        transform8x8_mode_flag,
        pic_scaling_matrix_present_flag,
        pic_scaling_lists,
        second_chroma_qp_index_offset,
    )
}

/// Parse a PPS NAL unit, header byte included: exactly [`pps_spec`] on
/// the un-escaped payload.
pub fn parse_pps_nalu(nalu: &[u8]) -> (r: Option<Pps>)
    requires
        nalu@.len() <= 0x1000_0000_0000_0000,
    ensures
        ({
            let ok = nalu@.len() > 0 && nalu_type_of(nalu@[0]) == NaluType::Pps;
            match r {
                Some(pps) => ok && (pps_spec(rbsp(nalu@.skip(1))) matches Some(g)
                    && pps_matches(pps, g)),
                None => !ok || pps_spec(rbsp(nalu@.skip(1))) is None,
            }
        }),
{
    if nalu.len() == 0 {
        return None;
    }
    let t = NaluType::from_header_byte(nalu[0]);
    if !matches!(t, NaluType::Pps) {
        return None;
    }
    let bytes = remove_emulation_prevention_bytes(&nalu[1..nalu.len()]);
    proof {
        assert(nalu@.subrange(1, nalu@.len() as int) =~= nalu@.skip(1));
    }
    let ghost s = rbsp(nalu@.skip(1));
    let total_bits: u64 = (bytes.len() as u64) * 8;
    let mut r = BitReader::new(bytes);
    let ghost c0 = BitCursor { pos: 0, failed: false };
    let pre = read_pps_prefix(&mut r);
    let ghost c5 = pps_prefix_spec(s, c0).1;
    proof {
        assert(reader_at(r, c5));
    }
    if r.acc_error().is_some() {
        return None;
    }
    let sg = read_slice_groups(&mut r, pre.4);
    let ghost c6 = slice_groups_spec(s, c5, pre.4).1;
    let ma = read_pps_mid_a(&mut r);
    let ghost c7 = pps_mid_a_spec(s, c6).1;
    let mb = read_pps_mid_b(&mut r);
    let ghost c8 = pps_mid_b_spec(s, c7).1;
    proof {
        assert(reader_at(r, c8));
    }
    if r.acc_error().is_some() {
        return None;
    }
    let tl = parse_pps_tail(&mut r, total_bits);
    let ghost c9 = pps_tail_spec(s, c8).1;
    proof {
        assert(reader_at(r, c9));
    }
    if r.acc_error().is_some() {
        return None;
    }
    Some(
        Pps {
            pic_parameter_set_id: pre.0,
            seq_parameter_set_id: pre.1,
            entropy_coding_mode_flag: pre.2,
            bottom_field_pic_order_in_frame_present_flag: pre.3,
            num_slice_groups_minus1: pre.4,
            slice_group_map_type: sg.0,
            run_length_minus1: sg.1,
            top_left: sg.2,
            bottom_right: sg.3,
            slice_group_change_direction_flag: sg.4,
            slice_group_change_rate_minus1: sg.5,
            pic_size_in_map_units_minus1: 0,
            slice_group_id: sg.6,
            num_ref_idx_i0_default_active_minus1: ma.0,
            num_ref_idx_i1_default_active_minus1: ma.1,
            weighted_pred_flag: ma.2,
            weighted_bipred_idc: ma.3,
            pic_init_qp_minus26: ma.4,
            pic_init_qs_minus26: mb.0,
            chroma_qp_index_offset: mb.1,
            deblocking_filter_control_present_flag: mb.2,
            constrained_intra_pred_flag: mb.3,
            redundant_pic_cnt_present_flag: mb.4,
            transform8x8_mode_flag: tl.0,
            pic_scaling_matrix_present_flag: tl.1,
            pic_scaling_lists: tl.2,
            second_chroma_qp_index_offset: tl.3,
        },
    )
}

} // verus!
