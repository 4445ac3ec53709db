//! Splitting a length-prefixed sample into its NAL units.
//!
//! A sample in length-prefixed form is a run of `(u32 big-endian
//! length, payload)` pairs. Up to three leftover bytes at the end are
//! tolerated; a length that runs past the sample is malformed.

use vstd::prelude::*;
use vstd::arithmetic::div_mod::lemma_fundamental_div_mod_converse;
use vstd::slice::slice_to_vec;
use vstd::string::StringExecFns;
use crate::annexb::{
    be32_at, bytestream_of, lemma_sample_packing_roundtrip, nalu_clean, nalus_of, sample_of,
    u32_be,
};
use crate::nal::{nalu_type_of, NaluType};

verus! {

/// The NAL units of a length-prefixed sample from `pos` on, or nothing
/// when a length overruns the sample. Up to three trailing bytes are
/// ignored.
pub open spec fn sample_nalus_from(s: Seq<u8>, pos: int) -> Option<Seq<Seq<u8>>>
    decreases s.len() - pos,
{
    if pos < 0 || pos + 4 > s.len() {
        Some(Seq::empty())
    } else {
        let l = be32_at(s, pos);
        if pos + 4 + l > s.len() {
            None
        } else {
            match sample_nalus_from(s, pos + 4 + l) {
                None => None,
                Some(rest) => Some(seq![s.subrange(pos + 4, pos + 4 + l)] + rest),
            }
        }
    }
}

/// The NAL units of a whole length-prefixed sample; a sample shorter
/// than one length field is malformed.
pub open spec fn sample_nalus(s: Seq<u8>) -> Option<Seq<Seq<u8>>> {
    if s.len() < 4 {
        None
    } else {
        sample_nalus_from(s, 0)
    }
}

/// Split a length-prefixed sample into its NAL units.
pub fn get_nalus_from_sample(sample: &[u8]) -> (r: Option<Vec<Vec<u8>>>)
    ensures
        match r {
            Some(v) => sample_nalus(sample@) == Some(v.deep_view()),
            None => sample_nalus(sample@) is None,
        },
{
    let n = sample.len();
    if n < 4 {
        return None;
    }
    let mut out: Vec<Vec<u8>> = Vec::new();
    let mut pos: usize = 0;
    proof {
        assert(out.deep_view() =~= Seq::<Seq<u8>>::empty());
    }
    while pos < n && n - pos >= 4
        invariant
            pos <= n == sample@.len(),
            sample_nalus_from(sample@, 0) matches Some(full) ==> (sample_nalus_from(
                sample@,
                pos as int,
            ) matches Some(rest) && full == out.deep_view() + rest),
            (sample_nalus_from(sample@, 0) is None) == (sample_nalus_from(
                sample@,
                pos as int,
            ) is None),
        decreases sample@.len() - pos,
    {
        let l64 = (sample[pos] as u64) * 0x1000000 + (sample[pos + 1] as u64) * 0x10000 + (
        sample[pos + 2] as u64) * 0x100 + (sample[pos + 3] as u64);
        proof {
            assert(l64 == be32_at(sample@, pos as int));
        }
        if l64 > ((n - pos - 4) as u64) {
            return None;
        }
        let l = l64 as usize;
        let nalu = slice_to_vec(&sample[pos + 4..pos + 4 + l]);
        let ghost out0 = out.deep_view();
        out.push(nalu);
        proof {
            assert(out.deep_view() =~~= out0 + seq![
                sample@.subrange(pos as int + 4, pos as int + 4 + l),
            ]);
            if sample_nalus_from(sample@, 0) matches Some(full) {
                let rest = sample_nalus_from(sample@, pos as int)->Some_0;
                let rest2 = sample_nalus_from(sample@, pos as int + 4 + l)->Some_0;
                assert(rest == seq![sample@.subrange(pos as int + 4, pos as int + 4 + l)] + rest2);
                assert(out.deep_view() + rest2 =~= out0 + rest);
            }
        }
        pos = pos + 4 + l;
    }
    proof {
        assert(sample_nalus_from(sample@, pos as int) == Some(Seq::<Seq<u8>>::empty()));
        if sample_nalus_from(sample@, 0) matches Some(full) {
            assert(out.deep_view() + Seq::<Seq<u8>>::empty() =~= out.deep_view());
        }
    }
    Some(out)
}

/// The comma-joined type names of a NAL unit list from index `i` on.
/// An empty NAL unit has no header byte and is named for what it is.
pub open spec fn nalu_names_from(nalus: Seq<Seq<u8>>, i: int) -> Seq<char>
    decreases nalus.len() - i,
{
    if i < 0 || i >= nalus.len() {
        Seq::empty()
    } else {
        let name: Seq<char> = if nalus[i].len() == 0 {
            "Empty"@
        } else {
            nalu_type_of(nalus[i][0]).spec_name()
        };
        if i + 1 >= nalus.len() {
            name
        } else {
            name + ","@ + nalu_names_from(nalus, i + 1)
        }
    }
}

/// A display helper: the comma-joined NAL unit type names of a sample,
/// or a marker when the sample is malformed.
pub fn dump_nalu_types(sample: &[u8]) -> (r: String)
    ensures
        match sample_nalus(sample@) {
            Some(list) => r@ == nalu_names_from(list, 0),
            None => r@ == "<invalid>"@,
        },
{
    let nalus = match get_nalus_from_sample(sample) {
        Some(v) => v,
        None => {
            return String::from_str("<invalid>");
        },
    };
    let ghost list = nalus.deep_view();
    let mut out = String::new();
    let mut i: usize = 0;
    proof {
        assert(Seq::<char>::empty() + nalu_names_from(list, 0) =~= nalu_names_from(list, 0));
    }
    while i < nalus.len()
        invariant
            i <= nalus@.len(),
            list == nalus.deep_view(),
            nalu_names_from(list, 0) == out@ + nalu_names_from(list, i as int),
        decreases nalus@.len() - i,
    {
        proof {
            assert(list[i as int] == nalus@[i as int]@);
        }
        let n = &nalus[i];
        if n.len() == 0 {
            out.append("Empty");
        } else {
            let t = NaluType::from_header_byte(n[0]);
            out.append(t.name());
        }
        if i + 1 < nalus.len() {
            out.append(",");
            proof {
                let name: Seq<char> = if list[i as int].len() == 0 {
                    "Empty"@
                } else {
                    nalu_type_of(list[i as int][0]).spec_name()
                };
                assert(nalu_names_from(list, i as int) == name + ","@ + nalu_names_from(
                    list,
                    i + 1,
                ));
                assert(out@ + nalu_names_from(list, i + 1) =~= nalu_names_from(list, 0));
            }
        } else {
            proof {
                assert(nalu_names_from(list, i + 1) =~= Seq::<char>::empty());
                assert(out@ + nalu_names_from(list, i + 1) =~= nalu_names_from(list, 0));
            }
        }
        i = i + 1;
    }
    proof {
        assert(nalu_names_from(list, i as int) =~= Seq::<char>::empty());
        assert(out@ =~= nalu_names_from(list, 0));
    }
    out
}


/// Where the length-prefixed walk from `pos` stops: the position after
/// the last complete `(length, payload)` pair.
pub open spec fn sample_nalus_end(s: Seq<u8>, pos: int) -> int
    decreases s.len() - pos,
{
    if pos < 0 || pos + 4 > s.len() {
        pos
    } else {
        let l = be32_at(s, pos);
        if pos + 4 + l > s.len() {
            pos
        } else {
            sample_nalus_end(s, pos + 4 + l)
        }
    }
}

/// A sample that parses is the packing of its own NAL unit list, up to
/// where the walk stops.
pub proof fn lemma_sample_reconstruct(s: Seq<u8>, pos: int)
    requires
        0 <= pos <= s.len(),
        sample_nalus_from(s, pos) is Some,
    ensures
        pos <= sample_nalus_end(s, pos) <= s.len(),
        sample_of(sample_nalus_from(s, pos)->Some_0) == s.subrange(pos, sample_nalus_end(s, pos)),
    decreases s.len() - pos,
{
    let l = sample_nalus_from(s, pos)->Some_0;
    let end = sample_nalus_end(s, pos);
    if pos + 4 > s.len() {
        assert(l =~= Seq::<Seq<u8>>::empty());
        assert(s.subrange(pos, pos) =~= Seq::<u8>::empty());
    } else {
        let ln = be32_at(s, pos);
        let n0 = s.subrange(pos + 4, pos + 4 + ln);
        let pos2 = pos + 4 + ln;
        lemma_sample_reconstruct(s, pos2);
        let rest = sample_nalus_from(s, pos2)->Some_0;
        assert(l == seq![n0] + rest);
        assert(l[0] == n0);
        assert(l.drop_first() =~= rest);
        assert(n0.len() == ln);
        // The four length digits decode back to the four input bytes:
        // peel the value into quotient and remainder at each scale.
        let a = s[pos] as int;
        let b = s[pos + 1] as int;
        let c = s[pos + 2] as int;
        let d = s[pos + 3] as int;
        assert(ln == a * 0x1000000 + b * 0x10000 + c * 0x100 + d);
        lemma_fundamental_div_mod_converse(ln, 0x1000000, a, b * 0x10000 + c * 0x100 + d);
        lemma_fundamental_div_mod_converse(a, 0x100, 0, a);
        lemma_fundamental_div_mod_converse(ln, 0x10000, a * 0x100 + b, c * 0x100 + d);
        lemma_fundamental_div_mod_converse(a * 0x100 + b, 0x100, a, b);
        lemma_fundamental_div_mod_converse(ln, 0x100, a * 0x10000 + b * 0x100 + c, d);
        assert((ln / 0x1000000) % 0x100 == a);
        assert((ln / 0x10000) % 0x100 == b);
        assert((ln / 0x100) % 0x100 == c);
        assert(ln % 0x100 == d);
        assert(u32_be(n0.len())[0] == s[pos] && u32_be(n0.len())[1] == s[pos + 1] && u32_be(
            n0.len(),
        )[2] == s[pos + 2] && u32_be(n0.len())[3] == s[pos + 3]);
        assert(sample_of(l) == u32_be(n0.len()) + n0 + sample_of(rest));
        assert(sample_of(rest) == s.subrange(pos2, end));
        assert forall|k: int| 0 <= k < end - pos implies s.subrange(pos, end)[k] == sample_of(
            l,
        )[k] by {
            assert(s.subrange(pos, end)[k] == s[pos + k]);
            if k < 4 {
                assert(sample_of(l)[k] == u32_be(n0.len())[k]);
            } else if k < 4 + ln {
                assert(sample_of(l)[k] == n0[k - 4]);
                assert(n0[k - 4] == s[pos + k]);
            } else {
                assert(sample_of(l)[k] == sample_of(rest)[k - 4 - ln]);
                assert(s.subrange(pos2, end)[k - 4 - ln] == s[pos2 + (k - 4 - ln)]);
            }
        }
        assert(s.subrange(pos, end) =~= sample_of(l));
    }
}

/// Round trip of sample packing, stated on the sample's own bytes: a
/// well-formed length-prefixed sample — one whose walk consumes every
/// byte and whose NAL units are [`nalu_clean`] — converts to an Annex B
/// stream and back unchanged.
pub proof fn lemma_sample_bytes_roundtrip(s: Seq<u8>)
    requires
        sample_nalus_from(s, 0) is Some,
        sample_nalus_end(s, 0) == s.len(),
        forall|j: int|
            0 <= j < sample_nalus_from(s, 0)->Some_0.len() ==> nalu_clean(
                #[trigger] sample_nalus_from(s, 0)->Some_0[j],
            ),
    ensures
        sample_of(nalus_of(bytestream_of(s, 0))) == s,
{
    let l = sample_nalus_from(s, 0)->Some_0;
    lemma_sample_reconstruct(s, 0);
    assert(s.subrange(0, s.len() as int) =~= s);
    assert(sample_of(l) == s);
    lemma_sample_packing_roundtrip(l);
}

} // verus!
