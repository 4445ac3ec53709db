//! Conversion between Annex B byte streams and length-prefixed samples.
//!
//! An Annex B stream delimits NAL units with start codes `00 00 01` or
//! `00 00 00 01`; a sample packs each NAL unit behind a 4-byte big-endian
//! length. When a NAL unit is extracted from a stream, the zero bytes
//! that sit immediately before the next start code belong to that start
//! code's run and are stripped.

use vstd::prelude::*;
use vstd::slice::slice_to_vec;
use crate::nal::{is_video_type, nalu_type_of, NaluType};

verus! {

/// A three-byte start code `00 00 01` at index `i`.
pub open spec fn is_start3(s: Seq<u8>, i: int) -> bool {
    &&& 0 <= i
    &&& i + 3 <= s.len()
    &&& s[i] == 0
    &&& s[i + 1] == 0
    &&& s[i + 2] == 1
}

/// A four-byte start code `00 00 00 01` at index `i`.
pub open spec fn is_start4(s: Seq<u8>, i: int) -> bool {
    &&& 0 <= i
    &&& i + 4 <= s.len()
    &&& s[i] == 0
    &&& s[i + 1] == 0
    &&& s[i + 2] == 0
    &&& s[i + 3] == 1
}

/// Either start code at index `i`. The two cases exclude each other.
pub open spec fn is_start(s: Seq<u8>, i: int) -> bool {
    is_start3(s, i) || is_start4(s, i)
}

/// The index of the first start code at or after `i`, or the length of
/// the stream when there is none.
pub open spec fn find_start(s: Seq<u8>, i: int) -> int
    decreases s.len() - i,
{
    if i < 0 {
        find_start(s, 0)
    } else if i >= s.len() {
        i
    } else if is_start(s, i) {
        i
    } else {
        find_start(s, i + 1)
    }
}

pub proof fn lemma_find_start_bounds(s: Seq<u8>, i: int)
    ensures
        find_start(s, i) >= i,
        find_start(s, i) >= 0,
        i <= s.len() ==> find_start(s, i) <= s.len(),
        find_start(s, i) < s.len() ==> is_start(s, find_start(s, i)),
        forall|j: int|
            (if i < 0 {
                0
            } else {
                i
            }) <= j < find_start(s, i) ==> !is_start(s, j),
    decreases s.len() - i,
{
    if i < 0 {
        lemma_find_start_bounds(s, 0);
        assert(find_start(s, i) == find_start(s, 0));
    } else if i >= s.len() {
        assert(find_start(s, i) == i);
    } else if is_start(s, i) {
        assert(find_start(s, i) == i);
    } else {
        lemma_find_start_bounds(s, i + 1);
        assert(find_start(s, i) == find_start(s, i + 1));
    }
}

/// `p` with its trailing zero bytes removed.
pub open spec fn strip_zeros(p: Seq<u8>) -> Seq<u8>
    decreases p.len(),
{
    if p.len() == 0 || p[p.len() - 1] != 0 {
        p
    } else {
        strip_zeros(p.take(p.len() - 1))
    }
}

pub proof fn lemma_strip_zeros(p: Seq<u8>)
    ensures
        strip_zeros(p).len() <= p.len(),
        strip_zeros(p) == p.take(strip_zeros(p).len() as int),
        strip_zeros(p).len() > 0 ==> strip_zeros(p)[strip_zeros(p).len() - 1] != 0,
    decreases p.len(),
{
    if p.len() == 0 || p[p.len() - 1] != 0 {
        assert(p.take(p.len() as int) =~= p);
    } else {
        lemma_strip_zeros(p.take(p.len() - 1));
        assert(p.take(p.len() - 1).take(strip_zeros(p).len() as int) =~= p.take(
            strip_zeros(p).len() as int,
        ));
    }
}

/// The NAL units of the Annex B stream `s`, scanning from index `i`:
/// each payload runs from the end of its start code to the next start
/// code (or the end of the stream), with trailing zeros stripped.
pub open spec fn nalus_from(s: Seq<u8>, i: int) -> Seq<Seq<u8>>
    decreases s.len() - i
        via nalus_from_decreases
{
    let p = find_start(s, i);
    if p >= s.len() {
        Seq::empty()
    } else {
        let scl: int = if is_start4(s, p) {
            4
        } else {
            3
        };
        let q = find_start(s, p + scl);
        seq![strip_zeros(s.subrange(p + scl, q))] + nalus_from(s, q)
    }
}

#[via_fn]
proof fn nalus_from_decreases(s: Seq<u8>, i: int) {
    lemma_find_start_bounds(s, i);
    let p = find_start(s, i);
    if p < s.len() {
        let scl: int = if is_start4(s, p) {
            4
        } else {
            3
        };
        lemma_find_start_bounds(s, p + scl);
    }
}

/// The NAL units of the whole Annex B stream.
pub open spec fn nalus_of(s: Seq<u8>) -> Seq<Seq<u8>> {
    nalus_from(s, 0)
}

/// The 4-byte big-endian encoding of `n`.
pub open spec fn u32_be(n: nat) -> Seq<u8> {
    seq![
        ((n / 0x1000000) % 0x100) as u8,
        ((n / 0x10000) % 0x100) as u8,
        ((n / 0x100) % 0x100) as u8,
        (n % 0x100) as u8,
    ]
}

/// The big-endian 32-bit value at index `i`.
pub open spec fn be32_at(s: Seq<u8>, i: int) -> int {
    s[i] * 0x1000000 + s[i + 1] * 0x10000 + s[i + 2] * 0x100 + s[i + 3]
}

/// NAL units packed as a length-prefixed sample.
pub open spec fn sample_of(nalus: Seq<Seq<u8>>) -> Seq<u8>
    decreases nalus.len(),
{
    if nalus.len() == 0 {
        Seq::empty()
    } else {
        u32_be(nalus[0].len()) + nalus[0] + sample_of(nalus.drop_first())
    }
}

/// The Annex B stream for a length-prefixed sample, reading from index
/// `i`: each length-prefixed NAL unit comes out behind a 4-byte start
/// code. A truncated length or payload ends the conversion quietly.
pub open spec fn bytestream_of(s: Seq<u8>, i: int) -> Seq<u8>
    decreases s.len() - i,
{
    if i < 0 || i + 4 > s.len() {
        Seq::empty()
    } else {
        let l = be32_at(s, i);
        if i + 4 + l > s.len() {
            Seq::empty()
        } else {
            seq![0u8, 0u8, 0u8, 1u8] + s.subrange(i + 4, i + 4 + l) + bytestream_of(s, i + 4 + l)
        }
    }
}

/// The first extracted NAL unit whose header byte marks a video type.
pub open spec fn first_video_nalu(nalus: Seq<Seq<u8>>) -> Option<Seq<u8>>
    decreases nalus.len(),
{
    if nalus.len() == 0 {
        None
    } else if nalus[0].len() > 0 && is_video_type(nalu_type_of(nalus[0][0])) {
        Some(nalus[0])
    } else {
        first_video_nalu(nalus.drop_first())
    }
}

/// The SPS and PPS NAL units before the first video NAL unit. An empty
/// NAL unit has no header byte and is passed over.
pub open spec fn parameter_sets(nalus: Seq<Seq<u8>>) -> (Seq<Seq<u8>>, Seq<Seq<u8>>)
    decreases nalus.len(),
{
    if nalus.len() == 0 {
        (Seq::empty(), Seq::empty())
    } else if nalus[0].len() == 0 {
        parameter_sets(nalus.drop_first())
    } else {
        let t = nalu_type_of(nalus[0][0]);
        if t == NaluType::Sps {
            let rest = parameter_sets(nalus.drop_first());
            (seq![nalus[0]] + rest.0, rest.1)
        } else if t == NaluType::Pps {
            let rest = parameter_sets(nalus.drop_first());
            (rest.0, seq![nalus[0]] + rest.1)
        } else if is_video_type(t) {
            (Seq::empty(), Seq::empty())
        } else {
            parameter_sets(nalus.drop_first())
        }
    }
}

/// The extracted NAL units of type `t`; with `stop_at_video` the scan
/// ends at the first video NAL unit (which is still reported when it is
/// itself of type `t`). An empty NAL unit has no header byte and is
/// passed over.
pub open spec fn nalus_of_type(t: NaluType, nalus: Seq<Seq<u8>>, stop_at_video: bool) -> Seq<
    Seq<u8>,
>
    decreases nalus.len(),
{
    if nalus.len() == 0 {
        Seq::empty()
    } else if nalus[0].len() == 0 {
        nalus_of_type(t, nalus.drop_first(), stop_at_video)
    } else {
        let nt = nalu_type_of(nalus[0][0]);
        let here: Seq<Seq<u8>> = if nt == t {
            seq![nalus[0]]
        } else {
            Seq::empty()
        };
        if stop_at_video && is_video_type(nt) {
            here
        } else {
            here + nalus_of_type(t, nalus.drop_first(), stop_at_video)
        }
    }
}

/// Find the first start code at or after `from`; the stream's length
/// means that none exists.
fn find_start_code(data: &[u8], from: usize) -> (r: usize)
    requires
        from <= data@.len(),
    ensures
        r == find_start(data@, from as int),
        from <= r <= data@.len(),
        r < data@.len() ==> is_start(data@, r as int),
{
    proof {
        lemma_find_start_bounds(data@, from as int);
    }
    let n = data.len();
    let mut i = from;
    while i < n
        invariant
            from <= i <= n == data@.len(),
            find_start(data@, from as int) == find_start(data@, i as int),
        decreases data@.len() - i,
    {
        let s3 = n - i >= 3 && data[i] == 0 && data[i + 1] == 0 && data[i + 2] == 1;
        let s4 = n - i >= 4 && data[i] == 0 && data[i + 1] == 0 && data[i + 2] == 0
            && data[i + 3] == 1;
        if s3 || s4 {
            proof {
                assert(is_start(data@, i as int));
            }
            return i;
        }
        proof {
            assert(!is_start(data@, i as int));
        }
        i = i + 1;
    }
    i
}

/// Extract all NAL units from an Annex B byte stream, without their
/// start codes and with trailing zeros stripped.
pub fn extract_nalus_from_bytestream(data: &[u8]) -> (nalus: Vec<Vec<u8>>)
    ensures
        nalus.deep_view() == nalus_of(data@),
{
    let mut out: Vec<Vec<u8>> = Vec::new();
    let mut pos = find_start_code(data, 0);
    proof {
        assert(out.deep_view() + nalus_from(data@, 0) =~= nalus_from(data@, 0));
        assert(find_start(data@, pos as int) == pos);
    }
    while pos < data.len()
        invariant
            pos <= data@.len(),
            find_start(data@, pos as int) == pos,
            nalus_of(data@) == out.deep_view() + nalus_from(data@, pos as int),
        decreases data@.len() - pos,
    {
        proof {
            lemma_find_start_bounds(data@, pos as int);
            assert(is_start(data@, pos as int));
        }
        let scl: usize = if data[pos + 2] == 1 {
            3
        } else {
            4
        };
        proof {
            assert(is_start4(data@, pos as int) <==> scl == 4);
        }
        let start = pos + scl;
        let next = find_start_code(data, start);
        // Strip the zero bytes that precede the next start code.
        let mut end = next;
        while end > start && data[end - 1] == 0
            invariant
                start <= end <= next <= data@.len(),
                strip_zeros(data@.subrange(start as int, next as int)) == strip_zeros(
                    data@.subrange(start as int, end as int),
                ),
            decreases end,
        {
            proof {
                let cur = data@.subrange(start as int, end as int);
                assert(cur[cur.len() - 1] == 0);
                assert(cur.take(cur.len() - 1) =~= data@.subrange(start as int, end - 1));
            }
            end = end - 1;
        }
        proof {
            let cur = data@.subrange(start as int, end as int);
            assert(strip_zeros(cur) == cur);
        }
        let nalu = slice_to_vec(&data[start..end]);
        let ghost out0 = out.deep_view();
        out.push(nalu);
        proof {
            assert(out.deep_view() =~~= out0 + seq![data@.subrange(start as int, end as int)]);
            assert(nalus_from(data@, pos as int) == seq![
                strip_zeros(data@.subrange(start as int, next as int)),
            ] + nalus_from(data@, next as int));
            assert(out.deep_view() + nalus_from(data@, next as int) =~~= out0 + nalus_from(
                data@,
                pos as int,
            ));
        }
        pos = next;
    }
    proof {
        assert(nalus_from(data@, pos as int) =~= Seq::<Seq<u8>>::empty());
        assert(nalus_of(data@) =~~= out.deep_view());
    }
    out
}

/// Append the 4-byte big-endian length of `n` to `out`.
fn push_u32_be(out: &mut Vec<u8>, n: u32)
    ensures
        final(out)@ == old(out)@ + u32_be(n as nat),
{
    out.push((n / 0x1000000) as u8);
    out.push(((n / 0x10000) % 0x100) as u8);
    out.push(((n / 0x100) % 0x100) as u8);
    out.push((n % 0x100) as u8);
    proof {
        assert((n as nat / 0x1000000) % 0x100 == n as nat / 0x1000000) by (nonlinear_arith)
            requires
                n < 0x100000000,
        ;
        assert(final(out)@ =~= old(out)@ + u32_be(n as nat));
    }
}

/// Append a copy of `data[a..b]` to `out`.
fn push_range(out: &mut Vec<u8>, data: &[u8], a: usize, b: usize)
    requires
        a <= b <= data@.len(),
    ensures
        final(out)@ == old(out)@ + data@.subrange(a as int, b as int),
{
    let mut k = a;
    while k < b
        invariant
            a <= k <= b <= data@.len(),
            out@ == old(out)@ + data@.subrange(a as int, k as int),
        decreases b - k,
    {
        out.push(data[k]);
        k = k + 1;
        proof {
            assert(out@ =~= old(out)@ + data@.subrange(a as int, k as int));
        }
    }
}

/// Convert an Annex B byte stream into a sample with 4-byte lengths.
#[verifier::rlimit(50)]
pub fn convert_bytestream_to_nalu_sample(stream: &[u8]) -> (out: Vec<u8>)
    requires
        stream@.len() < 0x100000000,
    ensures
        out@ == sample_of(nalus_of(stream@)),
{
    let nalus = extract_nalus_from_bytestream(stream);
    let mut out: Vec<u8> = Vec::new();
    let mut i: usize = 0;
    proof {
        lemma_nalus_of_bounded(stream@, 0);
        assert(nalus.deep_view().skip(0) =~= nalus.deep_view());
        assert(out@ + sample_of(nalus.deep_view()) =~= sample_of(nalus.deep_view()));
    }
    while i < nalus.len()
        invariant
            i <= nalus@.len(),
            nalus.deep_view() == nalus_of(stream@),
            forall|j: int|
                0 <= j < nalus.deep_view().len() ==> #[trigger] nalus.deep_view()[j].len()
                    < 0x100000000,
            sample_of(nalus_of(stream@)) == out@ + sample_of(
                nalus.deep_view().skip(i as int),
            ),
        decreases nalus@.len() - i,
    {
        let n = &nalus[i];
        proof {
            assert(nalus.deep_view()[i as int] == nalus@[i as int]@);
            assert(nalus.deep_view().skip(i as int)[0] == nalus.deep_view()[i as int]);
        }
        let len = n.len();
        push_u32_be(&mut out, len as u32);
        push_range(&mut out, n.as_slice(), 0, len);
        proof {
            let rest = nalus.deep_view().skip(i as int);
            assert(rest.drop_first() =~= nalus.deep_view().skip(i + 1));
            assert(sample_of(rest) == u32_be(rest[0].len()) + rest[0] + sample_of(
                rest.drop_first(),
            ));
            assert(n@.subrange(0, len as int) =~= rest[0]);
        }
        i = i + 1;
    }
    proof {
        assert(sample_of(nalus.deep_view().skip(nalus@.len() as int)) =~= Seq::<u8>::empty());
        assert(sample_of(nalus_of(stream@)) =~= out@);
    }
    out
}

/// Every extracted NAL unit is at most as long as the stream.
proof fn lemma_nalus_of_bounded(s: Seq<u8>, i: int)
    ensures
        forall|j: int|
            0 <= j < nalus_from(s, i).len() ==> #[trigger] nalus_from(s, i)[j].len() <= s.len(),
    decreases s.len() - i,
{
    let p = find_start(s, i);
    lemma_find_start_bounds(s, i);
    if p < s.len() {
        let scl: int = if is_start4(s, p) {
            4
        } else {
            3
        };
        let q = find_start(s, p + scl);
        lemma_find_start_bounds(s, p + scl);
        lemma_strip_zeros(s.subrange(p + scl, q));
        lemma_nalus_of_bounded(s, q);
        assert(forall|j: int|
            1 <= j < nalus_from(s, i).len() ==> #[trigger] nalus_from(s, i)[j] == nalus_from(
                s,
                q,
            )[j - 1]);
    }
}

/// Replace the 4-byte lengths in a sample with 4-byte start codes.
pub fn convert_sample_to_bytestream(sample: &[u8]) -> (out: Vec<u8>)
    ensures
        out@ == bytestream_of(sample@, 0),
{
    let slen = sample.len();
    let mut out: Vec<u8> = Vec::new();
    let mut pos: usize = 0;
    proof {
        assert(out@ + bytestream_of(sample@, 0) =~= bytestream_of(sample@, 0));
    }
    while pos < slen && slen - pos >= 4
        invariant
            pos <= slen == sample@.len(),
            bytestream_of(sample@, 0) == out@ + bytestream_of(sample@, pos as int),
        ensures
            bytestream_of(sample@, 0) == out@,
        decreases sample@.len() - pos,
    {
        let l64 = (sample[pos] as u64) * 0x1000000 + (sample[pos + 1] as u64) * 0x10000 + (
        sample[pos + 2] as u64) * 0x100 + (sample[pos + 3] as u64);
        proof {
            assert(l64 == be32_at(sample@, pos as int));
        }
        if l64 > ((slen - pos - 4) as u64) {
            proof {
                assert(bytestream_of(sample@, pos as int) =~= Seq::<u8>::empty());
                assert(bytestream_of(sample@, 0) =~= out@);
            }
            break ;
        }
        let l = l64 as usize;
        out.push(0);
        out.push(0);
        out.push(0);
        out.push(1);
        push_range(&mut out, sample, pos + 4, pos + 4 + l);
        proof {
            assert(bytestream_of(sample@, pos as int) == seq![0u8, 0u8, 0u8, 1u8]
                + sample@.subrange(pos as int + 4, pos as int + 4 + l) + bytestream_of(
                sample@,
                pos as int + 4 + l,
            ));
            assert(out@ + bytestream_of(sample@, pos as int + 4 + l) =~= (out@ + bytestream_of(
                sample@,
                pos as int + 4 + l,
            )));
        }
        let ghost out_now = out@;
        pos = pos + 4 + l;
        proof {
            assert(bytestream_of(sample@, 0) =~= out@ + bytestream_of(sample@, pos as int));
        }
    }
    out
}

/// Extract the first video NAL unit from an Annex B byte stream.
pub fn get_first_video_nalu_from_bytestream(stream: &[u8]) -> (r: Option<Vec<u8>>)
    ensures
        match r {
            Some(v) => first_video_nalu(nalus_of(stream@)) == Some(v@),
            None => first_video_nalu(nalus_of(stream@)) is None,
        },
{
    let nalus = extract_nalus_from_bytestream(stream);
    let mut i: usize = 0;
    proof {
        assert(nalus.deep_view().skip(0) =~= nalus.deep_view());
    }
    while i < nalus.len()
        invariant
            i <= nalus@.len(),
            nalus.deep_view() == nalus_of(stream@),
            first_video_nalu(nalus_of(stream@)) == first_video_nalu(
                nalus.deep_view().skip(i as int),
            ),
        decreases nalus@.len() - i,
    {
        proof {
            assert(nalus.deep_view().skip(i as int)[0] == nalus.deep_view()[i as int]);
            assert(nalus.deep_view().skip(i as int).drop_first() =~= nalus.deep_view().skip(
                i + 1,
            ));
        }
        let n = &nalus[i];
        if n.len() > 0 {
            let t = NaluType::from_header_byte(n[0]);
            if t.is_video() {
                let ghost dv = nalus.deep_view();
                let out = slice_to_vec(nalus[i].as_slice());
                proof {
                    assert(out@ == dv[i as int]);
                }
                return Some(out);
            }
        }
        i = i + 1;
    }
    proof {
        assert(first_video_nalu(nalus.deep_view().skip(nalus@.len() as int)) is None);
    }
    None
}

/// Return the SPS and PPS NAL units found before the first video NAL
/// unit of an Annex B byte stream.
pub fn get_parameter_sets_from_bytestream(data: &[u8]) -> (r: (Vec<Vec<u8>>, Vec<Vec<u8>>))
    ensures
        (r.0.deep_view(), r.1.deep_view()) == parameter_sets(nalus_of(data@)),
{
    let nalus = extract_nalus_from_bytestream(data);
    let mut sps: Vec<Vec<u8>> = Vec::new();
    let mut pps: Vec<Vec<u8>> = Vec::new();
    let mut i: usize = 0;
    proof {
        assert(nalus.deep_view().skip(0) =~= nalus.deep_view());
        assert(sps.deep_view() + parameter_sets(nalus.deep_view()).0 =~= parameter_sets(
            nalus.deep_view(),
        ).0);
        assert(pps.deep_view() + parameter_sets(nalus.deep_view()).1 =~= parameter_sets(
            nalus.deep_view(),
        ).1);
    }
    while i < nalus.len()
        invariant
            i <= nalus@.len(),
            nalus.deep_view() == nalus_of(data@),
            parameter_sets(nalus_of(data@)).0 == sps.deep_view() + parameter_sets(
                nalus.deep_view().skip(i as int),
            ).0,
            parameter_sets(nalus_of(data@)).1 == pps.deep_view() + parameter_sets(
                nalus.deep_view().skip(i as int),
            ).1,
        decreases nalus@.len() - i,
    {
        proof {
            assert(nalus.deep_view().skip(i as int)[0] == nalus.deep_view()[i as int]);
            assert(nalus.deep_view().skip(i as int).drop_first() =~= nalus.deep_view().skip(
                i + 1,
            ));
        }
        let n = &nalus[i];
        if n.len() > 0 {
            let t = NaluType::from_header_byte(n[0]);
            if matches!(t, NaluType::Sps) {
                let ghost s0 = sps.deep_view();
                sps.push(slice_to_vec(nalus[i].as_slice()));
                proof {
                    assert(sps.deep_view() =~~= s0 + seq![nalus.deep_view()[i as int]]);
                    assert(sps.deep_view() + parameter_sets(
                        nalus.deep_view().skip(i + 1),
                    ).0 =~= s0 + (seq![nalus.deep_view()[i as int]] + parameter_sets(
                        nalus.deep_view().skip(i + 1),
                    ).0));
                }
            } else if matches!(t, NaluType::Pps) {
                let ghost p0 = pps.deep_view();
                pps.push(slice_to_vec(nalus[i].as_slice()));
                proof {
                    assert(pps.deep_view() =~~= p0 + seq![nalus.deep_view()[i as int]]);
                    assert(pps.deep_view() + parameter_sets(
                        nalus.deep_view().skip(i + 1),
                    ).1 =~= p0 + (seq![nalus.deep_view()[i as int]] + parameter_sets(
                        nalus.deep_view().skip(i + 1),
                    ).1));
                }
            } else if t.is_video() {
                proof {
                    assert(sps.deep_view() + parameter_sets(nalus.deep_view().skip(i as int)).0
                        =~= sps.deep_view());
                    assert(pps.deep_view() + parameter_sets(nalus.deep_view().skip(i as int)).1
                        =~= pps.deep_view());
                }
                return (sps, pps);
            }
        }
        i = i + 1;
    }
    proof {
        let tail = parameter_sets(nalus.deep_view().skip(nalus@.len() as int));
        assert(sps.deep_view() + tail.0 =~= sps.deep_view());
        assert(pps.deep_view() + tail.1 =~= pps.deep_view());
    }
    (sps, pps)
}

/// Extract all NAL units of one type from an Annex B byte stream; with
/// `stop_at_video` the scan ends at the first video NAL unit.
pub fn extract_nalus_of_type_from_bytestream(n_type: NaluType, data: &[u8], stop_at_video: bool)
    -> (r: Vec<Vec<u8>>)
    ensures
        r.deep_view() == nalus_of_type(n_type, nalus_of(data@), stop_at_video),
{
    let nalus = extract_nalus_from_bytestream(data);
    let mut res: Vec<Vec<u8>> = Vec::new();
    let mut i: usize = 0;
    proof {
        assert(nalus.deep_view().skip(0) =~= nalus.deep_view());
        assert(res.deep_view() + nalus_of_type(n_type, nalus.deep_view(), stop_at_video)
            =~= nalus_of_type(n_type, nalus.deep_view(), stop_at_video));
    }
    while i < nalus.len()
        invariant
            i <= nalus@.len(),
            nalus.deep_view() == nalus_of(data@),
            nalus_of_type(n_type, nalus_of(data@), stop_at_video) == res.deep_view()
                + nalus_of_type(n_type, nalus.deep_view().skip(i as int), stop_at_video),
        decreases nalus@.len() - i,
    {
        proof {
            assert(nalus.deep_view().skip(i as int)[0] == nalus.deep_view()[i as int]);
            assert(nalus.deep_view().skip(i as int).drop_first() =~= nalus.deep_view().skip(
                i + 1,
            ));
        }
        let n = &nalus[i];
        let mut here_video = false;
        if n.len() > 0 {
            let t = NaluType::from_header_byte(n[0]);
            if t == n_type {
                let ghost r0 = res.deep_view();
                res.push(slice_to_vec(nalus[i].as_slice()));
                proof {
                    assert(res.deep_view() =~~= r0 + seq![nalus.deep_view()[i as int]]);
                }
            }
            here_video = t.is_video();
        }
        if stop_at_video && here_video {
            proof {
                let rest = nalus_of_type(n_type, nalus.deep_view().skip(i as int), stop_at_video);
                assert(nalus_of_type(n_type, nalus_of(data@), stop_at_video) =~= res.deep_view());
            }
            return res;
        }
        proof {
            assert(res.deep_view() + nalus_of_type(
                n_type,
                nalus.deep_view().skip(i + 1),
                stop_at_video,
            ) =~= nalus_of_type(n_type, nalus_of(data@), stop_at_video));
        }
        i = i + 1;
    }
    proof {
        assert(nalus_of_type(
            n_type,
            nalus.deep_view().skip(nalus@.len() as int),
            stop_at_video,
        ) =~= Seq::<Seq<u8>>::empty());
        assert(res.deep_view() =~= nalus_of_type(n_type, nalus_of(data@), stop_at_video));
    }
    res
}


/// Every NAL unit that extraction emits is free of trailing zero bytes:
/// the reported length is minimal.
pub proof fn lemma_extracted_nalus_trimmed(s: Seq<u8>, i: int)
    ensures
        forall|j: int|
            0 <= j < nalus_from(s, i).len() ==> (#[trigger] nalus_from(s, i)[j].len() > 0
                ==> nalus_from(s, i)[j][nalus_from(s, i)[j].len() - 1] != 0),
    decreases s.len() - i,
{
    let p = find_start(s, i);
    lemma_find_start_bounds(s, i);
    if p < s.len() {
        let scl: int = if is_start4(s, p) {
            4
        } else {
            3
        };
        let q = find_start(s, p + scl);
        lemma_find_start_bounds(s, p + scl);
        lemma_strip_zeros(s.subrange(p + scl, q));
        lemma_extracted_nalus_trimmed(s, q);
        assert(forall|j: int|
            1 <= j < nalus_from(s, i).len() ==> #[trigger] nalus_from(s, i)[j] == nalus_from(
                s,
                q,
            )[j - 1]);
    }
}

/// No three consecutive bytes of `n` read `00 00 01`; then no start code
/// can begin inside `n`.
pub open spec fn no_start_code_in(n: Seq<u8>) -> bool {
    forall|j: int|
        0 <= j && j + 3 <= n.len() ==> !(#[trigger] n[j] == 0 && n[j + 1] == 0 && n[j + 2] == 1)
}

/// A NAL unit that survives the trip through an Annex B stream: its
/// length fits the 4-byte prefix, it does not end in a zero byte, and no
/// start code begins inside it.
pub open spec fn nalu_clean(n: Seq<u8>) -> bool {
    &&& n.len() < 0x100000000
    &&& n.len() > 0 ==> n[n.len() - 1] != 0
    &&& no_start_code_in(n)
}

/// NAL units packed as an Annex B stream with 4-byte start codes.
pub open spec fn annexb_of(nalus: Seq<Seq<u8>>) -> Seq<u8>
    decreases nalus.len(),
{
    if nalus.len() == 0 {
        Seq::empty()
    } else {
        seq![0u8, 0u8, 0u8, 1u8] + nalus[0] + annexb_of(nalus.drop_first())
    }
}

/// Reading a sample from the middle of a concatenation only sees the
/// second part.
proof fn lemma_bytestream_of_concat(s: Seq<u8>, t: Seq<u8>, pos: int)
    requires
        pos >= 0,
    ensures
        bytestream_of(s + t, s.len() + pos) == bytestream_of(t, pos),
    decreases t.len() - pos,
{
    let w = s + t;
    if pos + 4 > t.len() {
        assert(bytestream_of(w, s.len() + pos) =~= Seq::<u8>::empty());
    } else {
        assert(w[s.len() + pos] == t[pos] && w[s.len() + pos + 1] == t[pos + 1] && w[s.len() + pos
            + 2] == t[pos + 2] && w[s.len() + pos + 3] == t[pos + 3]);
        let l = be32_at(t, pos);
        assert(be32_at(w, s.len() + pos) == l);
        if pos + 4 + l > t.len() {
        } else {
            assert(w.subrange(s.len() + pos + 4, s.len() + pos + 4 + l) =~= t.subrange(
                pos + 4,
                pos + 4 + l,
            ));
            lemma_bytestream_of_concat(s, t, pos + 4 + l);
        }
    }
}

/// The four big-endian digit bytes of `l` decode back to `l`.
proof fn lemma_be32_of_u32_be(l: nat, tail: Seq<u8>)
    requires
        l < 0x100000000,
    ensures
        be32_at(u32_be(l) + tail, 0) == l,
{
    let a = (l / 0x1000000) % 0x100;
    let b = (l / 0x10000) % 0x100;
    let c = (l / 0x100) % 0x100;
    let d = l % 0x100;
    vstd::arithmetic::div_mod::lemma_fundamental_div_mod(l as int, 0x100);
    vstd::arithmetic::div_mod::lemma_fundamental_div_mod(l as int / 0x100, 0x100);
    vstd::arithmetic::div_mod::lemma_fundamental_div_mod(l as int / 0x10000, 0x100);
    vstd::arithmetic::div_mod::lemma_div_denominator(l as int, 0x100, 0x100);
    vstd::arithmetic::div_mod::lemma_div_denominator(l as int, 0x10000, 0x100);
    assert(l as int / 0x1000000 < 0x100) by (nonlinear_arith)
        requires
            l < 0x100000000,
    ;
    assert((l as int / 0x1000000) % 0x100 == l as int / 0x1000000) by (nonlinear_arith)
        requires
            0 <= l as int / 0x1000000 < 0x100,
    ;
    assert(a * 0x1000000 + b * 0x10000 + c * 0x100 + d == l) by (nonlinear_arith)
        requires
            a == l as int / 0x1000000,
            b == (l as int / 0x10000) % 0x100,
            c == (l as int / 0x100) % 0x100,
            d == l % 0x100,
            l as int == 0x100 * (l as int / 0x100) + l % 0x100,
            l as int / 0x100 == 0x100 * (l as int / 0x10000) + (l as int / 0x100) % 0x100,
            l as int / 0x10000 == 0x100 * (l as int / 0x1000000) + (l as int / 0x10000) % 0x100,
    ;
    assert((u32_be(l) + tail)[0] == a && (u32_be(l) + tail)[1] == b && (u32_be(l) + tail)[2] == c
        && (u32_be(l) + tail)[3] == d);
}

/// Packing NAL units behind lengths and then replacing the lengths with
/// start codes gives the Annex B stream of the same NAL units.
proof fn lemma_bytestream_of_sample(nalus: Seq<Seq<u8>>)
    requires
        forall|j: int| 0 <= j < nalus.len() ==> (#[trigger] nalus[j]).len() < 0x100000000,
    ensures
        bytestream_of(sample_of(nalus), 0) == annexb_of(nalus),
    decreases nalus.len(),
{
    if nalus.len() == 0 {
    } else {
        let n0 = nalus[0];
        let rest = nalus.drop_first();
        let head = u32_be(n0.len()) + n0;
        let sample = sample_of(nalus);
        assert(forall|j: int| 0 <= j < rest.len() ==> (#[trigger] rest[j]).len() < 0x100000000);
        lemma_bytestream_of_sample(rest);
        assert(sample =~= head + sample_of(rest));
        lemma_be32_of_u32_be(n0.len(), n0 + sample_of(rest));
        assert(u32_be(n0.len()) + (n0 + sample_of(rest)) =~= sample);
        assert(be32_at(sample, 0) == n0.len());
        assert(sample.subrange(4, 4 + n0.len() as int) =~= n0);
        lemma_bytestream_of_concat(head, sample_of(rest), 0);
        assert(bytestream_of(sample, head.len() as int + 0) == bytestream_of(sample_of(rest), 0));
        assert(bytestream_of(sample, 0) == seq![0u8, 0u8, 0u8, 1u8] + sample.subrange(
            4,
            4 + n0.len() as int,
        ) + bytestream_of(sample, 4 + n0.len() as int));
        assert(annexb_of(nalus) == seq![0u8, 0u8, 0u8, 1u8] + n0 + annexb_of(rest));
    }
}

/// When nothing in `[a, b)` is a start code and `b` is one (or is the
/// end of the stream), the scan from `a` stops at `b`.
proof fn lemma_find_start_determined(s: Seq<u8>, a: int, b: int)
    requires
        0 <= a <= b <= s.len(),
        forall|j: int| a <= j < b ==> !is_start(s, j),
        b == s.len() || is_start(s, b),
    ensures
        find_start(s, a) == b,
    decreases b - a,
{
    if a == b {
        if a == s.len() {
            assert(find_start(s, a) == a);
        } else {
            assert(find_start(s, a) == a);
        }
    } else {
        assert(!is_start(s, a));
        lemma_find_start_determined(s, a + 1, b);
        assert(find_start(s, a) == find_start(s, a + 1));
    }
}

/// Extracting NAL units from the Annex B packing of clean NAL units
/// gives the NAL units back.
proof fn lemma_nalus_of_annexb(s: Seq<u8>, i: int, nalus: Seq<Seq<u8>>)
    requires
        0 <= i <= s.len(),
        s.skip(i) == annexb_of(nalus),
        forall|j: int| 0 <= j < nalus.len() ==> nalu_clean(#[trigger] nalus[j]),
    ensures
        nalus_from(s, i) == nalus,
    decreases nalus.len(),
{
    let t = s.skip(i);
    assert(forall|k: int| 0 <= k < t.len() ==> t[k] == s[i + k]);
    if nalus.len() == 0 {
        assert(t.len() == 0);
        assert(i >= s.len());
        assert(find_start(s, i) == i);
        assert(nalus_from(s, i) =~= Seq::<Seq<u8>>::empty());
    } else {
        let n0 = nalus[0];
        let rest = nalus.drop_first();
        let ab_rest = annexb_of(rest);
        let nl = n0.len() as int;
        let w = seq![0u8, 0u8, 0u8, 1u8] + n0 + ab_rest;
        assert(t =~= w);
        let q = i + 4 + nl;
        assert(s.len() == i + 4 + nl + ab_rest.len());
        assert forall|k: int| 0 <= k < w.len() implies s[i + k] == w[k] by {
            assert(t[k] == s[i + k]);
        }
        // The emitted start code is a four-byte start code at i.
        assert(w[0] == 0 && w[1] == 0 && w[2] == 0 && w[3] == 1);
        assert(s[i] == 0 && s[i + 1] == 0 && s[i + 2] == 0 && s[i + 3] == 1);
        assert(is_start4(s, i));
        assert(!is_start3(s, i));
        assert(find_start(s, i) == i);
        // Bytes of the payload region come from n0; bytes after it are
        // the start code of the next NAL unit, when there is one.
        assert forall|k: int| 0 <= k < nl implies s[i + 4 + k] == n0[k] by {
            assert(w[4 + k] == n0[k]);
            assert(s[i + (4 + k)] == w[4 + k]);
        }
        assert forall|m: int| 0 <= m < ab_rest.len() implies s[q + m] == ab_rest[m] by {
            assert(w[4 + nl + m] == ab_rest[m]);
            assert(s[i + (4 + nl + m)] == w[4 + nl + m]);
        }
        if rest.len() > 0 {
            let ab2 = seq![0u8, 0u8, 0u8, 1u8] + rest[0] + annexb_of(rest.drop_first());
            assert(ab_rest == ab2);
            assert(ab2[0] == 0 && ab2[1] == 0 && ab2[2] == 0 && ab2[3] == 1);
            assert(ab_rest.len() >= 4);
            assert(s[q] == 0 && s[q + 1] == 0 && s[q + 2] == 0 && s[q + 3] == 1);
            assert(is_start4(s, q));
        } else {
            assert(q == s.len());
        }
        // No start code begins inside the payload region.
        assert forall|j: int| i + 4 <= j < q implies !is_start(s, j) by {
            assert(nalu_clean(nalus[0]));
            if j + 3 <= q {
                // A window inside n0 itself.
                let j0 = j - i - 4;
                assert(s[j] == n0[j0] && s[j + 1] == n0[j0 + 1] && s[j + 2] == n0[j0 + 2]);
                assert(!(n0[j0] == 0 && n0[j0 + 1] == 0 && n0[j0 + 2] == 1));
                assert(!is_start3(s, j));
                if is_start4(s, j) {
                    // Its bytes 1..4 would form a start code in or at the
                    // edge of n0.
                    if j + 4 <= q {
                        assert(n0[j0 + 1] == 0 && n0[j0 + 2] == 0 && n0[j0 + 3] == 1);
                        assert(!(n0[j0 + 1] == 0 && n0[j0 + 2] == 0 && n0[j0 + 3] == 1));
                    } else {
                        // j + 4 == q + 1: the last byte of the window is
                        // s[q] == 0, never 1.
                        assert(rest.len() > 0);
                        assert(s[j + 3] == 0);
                    }
                    assert(false);
                }
            } else {
                // The window crosses the end of the payload: it ends in
                // one of the zero bytes of the next start code, or runs
                // off the stream.
                if rest.len() > 0 {
                    if j == q - 1 {
                        assert(s[j + 1] == 0 && s[j + 2] == 0 && s[j + 3] == 0);
                    } else {
                        assert(j == q - 2);
                        assert(s[j + 2] == 0 && s[j + 3] == 0);
                    }
                    assert(!is_start3(s, j) && !is_start4(s, j));
                } else {
                    assert(j + 3 > s.len());
                    assert(!is_start3(s, j) && !is_start4(s, j));
                }
            }
        }
        lemma_find_start_determined(s, i + 4, q);
        assert(find_start(s, i + 4) == q);
        // The payload needs no stripping: clean NAL units do not end in 0.
        let payload = s.subrange(i + 4, q);
        assert(payload =~= n0);
        assert(strip_zeros(n0) == n0);
        // The rest of the stream is the Annex B packing of the rest.
        assert forall|m: int| 0 <= m < s.len() - q implies s.skip(q)[m] == ab_rest[m] by {
            assert(s.skip(q)[m] == s[q + m]);
        }
        assert(s.skip(q) =~= ab_rest);
        assert(forall|j: int| 0 <= j < rest.len() ==> nalu_clean(#[trigger] rest[j]));
        lemma_nalus_of_annexb(s, q, rest);
        assert(nalus_from(s, i) == seq![strip_zeros(s.subrange(i + 4, q))] + nalus_from(s, q));
        assert(nalus_from(s, i) =~= nalus);
    }
}

/// Round trip of sample packing: converting a well-formed
/// length-prefixed sample to an Annex B byte stream and back gives the
/// sample unchanged. A sample is well formed when each of its NAL units
/// is [`nalu_clean`].
pub proof fn lemma_sample_packing_roundtrip(nalus: Seq<Seq<u8>>)
    requires
        forall|j: int| 0 <= j < nalus.len() ==> nalu_clean(#[trigger] nalus[j]),
    ensures
        nalus_of(bytestream_of(sample_of(nalus), 0)) == nalus,
        sample_of(nalus_of(bytestream_of(sample_of(nalus), 0))) == sample_of(nalus),
{
    assert(forall|j: int| 0 <= j < nalus.len() ==> (#[trigger] nalus[j]).len() < 0x100000000);
    lemma_bytestream_of_sample(nalus);
    let w = annexb_of(nalus);
    assert(w.skip(0) =~= w);
    lemma_nalus_of_annexb(w, 0, nalus);
}

} // verus!
