//! Splitting an SEI NAL unit into its `(type, payload)` messages.
//!
//! Type and size are variable-length: bytes are summed while they read
//! `0xFF`. A message of type 0 and size 0 ends the list; a size that
//! runs past the NAL unit ends it quietly.

use vstd::prelude::*;
use vstd::slice::slice_to_vec;
use crate::nal::{nalu_type_of, NaluType};

verus! {

/// The variable-length value at `pos` and the position after it: bytes
/// are summed while they read `0xFF`, the first other byte ends it.
pub open spec fn ff_int_at(s: Seq<u8>, pos: int) -> (int, int)
    decreases s.len() - pos,
{
    if pos < 0 || pos >= s.len() {
        (0, pos)
    } else if s[pos] == 0xFF {
        let (v, p) = ff_int_at(s, pos + 1);
        (255 + v, p)
    } else {
        (s[pos] as int, pos + 1)
    }
}

pub proof fn lemma_ff_int_bounds(s: Seq<u8>, pos: int)
    requires
        0 <= pos <= s.len(),
    ensures
        pos <= ff_int_at(s, pos).1 <= s.len(),
        0 <= ff_int_at(s, pos).0 <= 255 * (ff_int_at(s, pos).1 - pos),
        pos < s.len() ==> ff_int_at(s, pos).1 > pos,
    decreases s.len() - pos,
{
    if pos < s.len() && s[pos] == 0xFF {
        lemma_ff_int_bounds(s, pos + 1);
    }
}

/// The SEI messages from `pos` on, as `(type, payload bytes)`. The
/// type-0 size-0 terminator is itself reported and ends the list.
pub open spec fn sei_payloads_from(s: Seq<u8>, pos: int) -> Seq<(int, Seq<u8>)>
    decreases s.len() - pos
        via sei_payloads_from_decreases
{
    if pos < 0 || pos >= s.len() {
        Seq::empty()
    } else {
        let (t, p1) = ff_int_at(s, pos);
        let (sz, p2) = ff_int_at(s, p1);
        if p2 + sz > s.len() {
            Seq::empty()
        } else {
            let here = (t, s.subrange(p2, p2 + sz));
            if t == 0 && sz == 0 {
                seq![here]
            } else {
                seq![here] + sei_payloads_from(s, p2 + sz)
            }
        }
    }
}

#[via_fn]
proof fn sei_payloads_from_decreases(s: Seq<u8>, pos: int) {
    if 0 <= pos < s.len() {
        lemma_ff_int_bounds(s, pos);
        let (_t, p1) = ff_int_at(s, pos);
        lemma_ff_int_bounds(s, p1);
    }
}

/// One SEI message: its payload type and raw payload bytes.
pub struct SeiMessage {
    pub payload_type: u64,
    pub payload: Vec<u8>,
}

/// Read the variable-length value at `pos`.
fn read_ff_int(s: &[u8], pos: usize) -> (r: (u64, usize))
    requires
        pos <= s@.len(),
        s@.len() < 0x1_0000_0000,
    ensures
        r.0 == ff_int_at(s@, pos as int).0,
        r.1 == ff_int_at(s@, pos as int).1,
        pos <= r.1 <= s@.len(),
{
    proof {
        lemma_ff_int_bounds(s@, pos as int);
    }
    let mut value: u64 = 0;
    let mut p = pos;
    while p < s.len() && s[p] == 0xFF
        invariant
            pos <= p <= s@.len(),
            s@.len() < 0x1_0000_0000,
            value == 255 * (p - pos),
            ff_int_at(s@, pos as int).0 == value + ff_int_at(s@, p as int).0,
            ff_int_at(s@, pos as int).1 == ff_int_at(s@, p as int).1,
        decreases s@.len() - p,
    {
        proof {
            lemma_ff_int_bounds(s@, p + 1);
        }
        value = value + 255;
        p = p + 1;
    }
    if p < s.len() {
        let b = s[p];
        (value + (b as u64), p + 1)
    } else {
        (value, p)
    }
}

/// Parse an SEI NAL unit into its messages. Nothing is returned when
/// the NAL unit is empty or is not of SEI type.
pub fn parse_sei_nalu(nalu: &[u8]) -> (r: Option<Vec<SeiMessage>>)
    requires
        nalu@.len() < 0x1_0000_0000,
    ensures
        match r {
            Some(v) => nalu@.len() > 0 && nalu_type_of(nalu@[0]) == NaluType::Sei && ({
                let model = sei_payloads_from(nalu@, 1);
                &&& v@.len() == model.len()
                &&& forall|j: int|
                    0 <= j < model.len() ==> (#[trigger] v@[j]).payload_type == model[j].0
                        && v@[j].payload@ == model[j].1
            }),
            None => nalu@.len() == 0 || nalu_type_of(nalu@[0]) != NaluType::Sei,
        },
{
    if nalu.len() == 0 {
        return None;
    }
    let t = NaluType::from_header_byte(nalu[0]);
    if !matches!(t, NaluType::Sei) {
        return None;
    }
    let ghost model = sei_payloads_from(nalu@, 1);
    let mut out: Vec<SeiMessage> = Vec::new();
    let mut pos: usize = 1;
    let n = nalu.len();
    proof {
        assert(model.skip(0) =~= model);
    }
    while pos < n
        invariant_except_break
            sei_payloads_from(nalu@, pos as int) == model.skip(out@.len() as int),
        invariant
            1 <= pos <= n == nalu@.len(),
            n < 0x1_0000_0000,
            model == sei_payloads_from(nalu@, 1),
            out@.len() <= model.len(),
            forall|j: int|
                0 <= j < out@.len() ==> (#[trigger] out@[j]).payload_type == model[j].0
                    && out@[j].payload@ == model[j].1,
        ensures
            sei_payloads_from(nalu@, pos as int).len() == 0 || out@.len() == model.len(),
            forall|j: int|
                0 <= j < out@.len() ==> (#[trigger] out@[j]).payload_type == model[j].0
                    && out@[j].payload@ == model[j].1,
            out@.len() == model.len(),
        decreases nalu@.len() - pos,
    {
        let (typ, p1) = read_ff_int(nalu, pos);
        let (sz64, p2) = read_ff_int(nalu, p1);
        proof {
            lemma_ff_int_bounds(nalu@, pos as int);
            lemma_ff_int_bounds(nalu@, p1 as int);
        }
        if sz64 > ((n - p2) as u64) {
            proof {
                assert(sei_payloads_from(nalu@, pos as int) =~= Seq::<(int, Seq<u8>)>::empty());
                assert(model.skip(out@.len() as int).len() == 0);
                assert(out@.len() == model.len());
            }
            break ;
        }
        let sz = sz64 as usize;
        let payload = slice_to_vec(&nalu[p2..p2 + sz]);
        let ghost l0 = out@.len() as int;
        proof {
            assert(sei_payloads_from(nalu@, pos as int)[0] == (
                typ as int,
                nalu@.subrange(p2 as int, p2 + sz),
            ));
            assert(l0 < model.len());
            assert(model.skip(l0)[0] == model[l0]);
            assert(model.skip(l0).drop_first() =~= model.skip(l0 + 1));
        }
        out.push(SeiMessage { payload_type: typ, payload });
        if typ == 0 && sz == 0 {
            proof {
                assert(sei_payloads_from(nalu@, pos as int) =~= seq![model[l0]]);
                assert(model.skip(l0).len() == 1);
                assert(out@.len() == model.len());
                assert(sei_payloads_from(nalu@, (p2 + sz) as int).len() >= 0);
            }
            break ;
        }
        proof {
            assert(sei_payloads_from(nalu@, pos as int) == seq![model[l0]] + sei_payloads_from(
                nalu@,
                p2 + sz,
            ));
            assert(sei_payloads_from(nalu@, p2 + sz) =~= model.skip(out@.len() as int));
        }
        pos = p2 + sz;
    }
    Some(out)
}

} // verus!
