//! The AVC decoder configuration record carried in an `avcC` box.
//!
//! The record holds the profile, compatibility and level bytes and the
//! SPS and PPS NAL units, each list entry behind a 2-byte big-endian
//! length. Only 4-byte NAL unit lengths (`lengthSizeMinusOne == 3`) are
//! accepted.

use vstd::prelude::*;
use vstd::slice::slice_to_vec;

verus! {

/// AVC decoder configuration record, as decoded from an `avcC` payload.
#[derive(Debug, Clone, PartialEq, Eq)]
pub struct DecConfRec {
    pub profile_indication: u8,
    pub profile_compatibility: u8,
    pub level_indication: u8,
    pub sps: Vec<Vec<u8>>,
    pub pps: Vec<Vec<u8>>,
}

/// The 2-byte big-endian encoding of `n`.
pub open spec fn u16_be(n: nat) -> Seq<u8> {
    seq![((n / 0x100) % 0x100) as u8, (n % 0x100) as u8]
}

/// The big-endian 16-bit value at index `i`.
pub open spec fn be16_at(s: Seq<u8>, i: int) -> int {
    s[i] * 0x100 + s[i + 1]
}

/// A parameter-set list as it is laid out in the record: each entry
/// behind its 2-byte length.
pub open spec fn param_list_bytes(l: Seq<Seq<u8>>) -> Seq<u8>
    decreases l.len(),
{
    if l.len() == 0 {
        Seq::empty()
    } else {
        u16_be(l[0].len()) + l[0] + param_list_bytes(l.drop_first())
    }
}

/// Reading `count` length-prefixed entries at `pos`; the second
/// component is the position after the list.
pub open spec fn parse_param_list(data: Seq<u8>, pos: int, count: int) -> Option<
    (Seq<Seq<u8>>, int),
>
    decreases count,
{
    if count <= 0 {
        Some((Seq::empty(), pos))
    } else if pos < 0 || pos + 2 > data.len() {
        None
    } else {
        let l = be16_at(data, pos);
        if pos + 2 + l > data.len() {
            None
        } else {
            match parse_param_list(data, pos + 2 + l, count - 1) {
                None => None,
                Some((rest, end)) => Some(
                    (seq![data.subrange(pos + 2, pos + 2 + l)] + rest, end),
                ),
            }
        }
    }
}

/// What a record's fields decode to from an `avcC` payload, if anything:
/// `(profile, compatibility, level, sps list, pps list, end position)`.
pub open spec fn decconf_spec(data: Seq<u8>) -> Option<(u8, u8, u8, Seq<Seq<u8>>, Seq<Seq<u8>>, int)> {
    if data.len() < 6 {
        None
    } else if data[0] != 1 {
        None
    } else if data[4] % 4 != 3 {
        None
    } else {
        let num_sps = data[5] % 32;
        match parse_param_list(data, 6, num_sps as int) {
            None => None,
            Some((sps, p)) => {
                if p >= data.len() {
                    None
                } else {
                    let num_pps = data[p];
                    match parse_param_list(data, p + 1, num_pps as int) {
                        None => None,
                        Some((pps, end)) => Some(
                            (data[1], data[2], data[3], sps, pps, end),
                        ),
                    }
                }
            },
        }
    }
}

/// A record the `avcC` layout can carry: the list lengths fit their
/// count fields and each entry length fits 2 bytes.
pub open spec fn rec_valid(sps: Seq<Seq<u8>>, pps: Seq<Seq<u8>>) -> bool {
    &&& sps.len() <= 31
    &&& pps.len() <= 255
    &&& forall|j: int| 0 <= j < sps.len() ==> (#[trigger] sps[j]).len() <= 0xFFFF
    &&& forall|j: int| 0 <= j < pps.len() ==> (#[trigger] pps[j]).len() <= 0xFFFF
}

/// The `avcC` payload for a record: version 1, the three signalling
/// bytes, `0xFF` for 4-byte lengths, and the two lists behind their
/// counts (with the three reserved bits of the SPS count set).
pub open spec fn encode_spec(
    profile: u8,
    compat: u8,
    level: u8,
    sps: Seq<Seq<u8>>,
    pps: Seq<Seq<u8>>,
) -> Seq<u8> {
    seq![1u8, profile, compat, level, 0xFFu8, (0xE0 + sps.len()) as u8] + param_list_bytes(sps)
        + seq![pps.len() as u8] + param_list_bytes(pps)
}

/// The byte count of a parameter-set list in record layout.
pub open spec fn param_list_size(l: Seq<Seq<u8>>) -> int
    decreases l.len(),
{
    if l.len() == 0 {
        0
    } else {
        2 + l[0].len() + param_list_size(l.drop_first())
    }
}

pub proof fn lemma_param_list_size(l: Seq<Seq<u8>>)
    ensures
        param_list_bytes(l).len() == param_list_size(l),
        param_list_size(l) >= 0,
    decreases l.len(),
{
    if l.len() > 0 {
        lemma_param_list_size(l.drop_first());
    }
}

impl DecConfRec {
    /// The record's model: its parameter sets as sequences.
    pub open spec fn sps_view(&self) -> Seq<Seq<u8>> {
        self.sps.deep_view()
    }

    pub open spec fn pps_view(&self) -> Seq<Seq<u8>> {
        self.pps.deep_view()
    }

    /// The record fits the `avcC` layout.
    pub open spec fn valid(&self) -> bool {
        rec_valid(self.sps_view(), self.pps_view())
    }

    /// The bytes this record encodes to.
    pub open spec fn encoding(&self) -> Seq<u8> {
        encode_spec(
            self.profile_indication,
            self.profile_compatibility,
            self.level_indication,
            self.sps_view(),
            self.pps_view(),
        )
    }

    /// The size in bytes of the encoded record.
    pub fn size(&self) -> (r: usize)
        requires
            self.encoding().len() <= usize::MAX,
        ensures
            r == self.encoding().len(),
    {
        let ghost spsv = self.sps_view();
        let ghost ppsv = self.pps_view();
        proof {
            lemma_size_bound(self.encoding(), spsv, ppsv);
        }
        let mut total: usize = 7;
        let mut i: usize = 0;
        proof {
            assert(spsv.take(0) =~= Seq::<Seq<u8>>::empty());
        }
        while i < self.sps.len()
            invariant
                i <= self.sps@.len(),
                spsv == self.sps.deep_view(),
                ppsv == self.pps.deep_view(),
                self.encoding().len() <= usize::MAX,
                7 + param_list_size(spsv) + param_list_size(ppsv) == self.encoding().len(),
                total == 7 + param_list_size(spsv.take(i as int)),
            decreases self.sps@.len() - i,
        {
            proof {
                assert(spsv[i as int] == self.sps@[i as int]@);
                lemma_param_list_take_step(spsv, i as int);
                lemma_param_list_size_split(spsv, i + 1);
                lemma_param_list_size(ppsv);
            }
            total = total + 2 + self.sps[i].len();
            i = i + 1;
        }
        proof {
            assert(spsv.take(spsv.len() as int) =~= spsv);
        }
        let mut j: usize = 0;
        proof {
            assert(ppsv.take(0) =~= Seq::<Seq<u8>>::empty());
        }
        while j < self.pps.len()
            invariant
                j <= self.pps@.len(),
                ppsv == self.pps.deep_view(),
                spsv == self.sps.deep_view(),
                self.encoding().len() <= usize::MAX,
                7 + param_list_size(spsv) + param_list_size(ppsv) == self.encoding().len(),
                total == 7 + param_list_size(spsv) + param_list_size(ppsv.take(j as int)),
            decreases self.pps@.len() - j,
        {
            proof {
                assert(ppsv[j as int] == self.pps@[j as int]@);
                lemma_param_list_take_step(ppsv, j as int);
                lemma_param_list_size_split(ppsv, j + 1);
            }
            total = total + 2 + self.pps[j].len();
            j = j + 1;
        }
        proof {
            assert(ppsv.take(ppsv.len() as int) =~= ppsv);
        }
        total
    }

    /// Encode the record as an `avcC` payload.
    pub fn encode(&self) -> (out: Vec<u8>)
        requires
            self.valid(),
            self.encoding().len() <= usize::MAX,
        ensures
            out@ == self.encoding(),
    {
        let mut out: Vec<u8> = Vec::new();
        out.push(1);
        out.push(self.profile_indication);
        out.push(self.profile_compatibility);
        out.push(self.level_indication);
        out.push(0xFF);
        out.push(0xE0 + (self.sps.len() as u8));
        let ghost head = seq![
            1u8,
            self.profile_indication,
            self.profile_compatibility,
            self.level_indication,
            0xFFu8,
            (0xE0 + self.sps_view().len()) as u8,
        ];
        proof {
            assert(out@ =~= head);
        }
        push_param_list(&mut out, &self.sps);
        proof {
            assert(out@ == head + param_list_bytes(self.sps_view()));
        }
        out.push(self.pps.len() as u8);
        proof {
            assert(out@ =~= head + param_list_bytes(self.sps_view()) + seq![
                self.pps_view().len() as u8,
            ]);
        }
        push_param_list(&mut out, &self.pps);
        proof {
            assert(out@ =~= self.encoding());
        }
        out
    }
}

/// The encoded size bounds each partial sum.
proof fn lemma_size_bound(enc: Seq<u8>, sps: Seq<Seq<u8>>, pps: Seq<Seq<u8>>)
    requires
        enc.len() == 6 + param_list_bytes(sps).len() + 1 + param_list_bytes(pps).len(),
    ensures
        7 + param_list_size(sps) + param_list_size(pps) == enc.len(),
{
    lemma_param_list_size(sps);
    lemma_param_list_size(pps);
}

/// Splitting off the first `k` entries splits the size.
proof fn lemma_param_list_size_split(l: Seq<Seq<u8>>, k: int)
    requires
        0 <= k <= l.len(),
    ensures
        param_list_size(l.take(k)) + param_list_size(l.skip(k)) == param_list_size(l),
        param_list_size(l.take(k)) >= 0,
        param_list_size(l.skip(k)) >= 0,
    decreases l.len(),
{
    lemma_param_list_size(l.take(k));
    lemma_param_list_size(l.skip(k));
    lemma_param_list_size(l);
    if k == 0 {
        assert(l.take(0) =~= Seq::<Seq<u8>>::empty());
        assert(l.skip(0) =~= l);
    } else {
        assert(l.take(k)[0] == l[0]);
        assert(l.take(k).drop_first() =~= l.drop_first().take(k - 1));
        assert(l.skip(k) =~= l.drop_first().skip(k - 1));
        lemma_param_list_size_split(l.drop_first(), k - 1);
    }
}

/// One more entry adds its 2-byte length and its bytes.
proof fn lemma_param_list_take_step(l: Seq<Seq<u8>>, i: int)
    requires
        0 <= i < l.len(),
    ensures
        param_list_size(l.take(i + 1)) == param_list_size(l.take(i)) + 2 + l[i].len(),
    decreases i,
{
    if i == 0 {
        assert(l.take(0) =~= Seq::<Seq<u8>>::empty());
        assert(l.take(1)[0] == l[0]);
        assert(l.take(1).drop_first() =~= Seq::<Seq<u8>>::empty());
    } else {
        lemma_param_list_take_step(l.drop_first(), i - 1);
        assert(l.take(i + 1)[0] == l[0]);
        assert(l.take(i + 1).drop_first() =~= l.drop_first().take(i));
        assert(l.take(i)[0] == l[0]);
        assert(l.take(i).drop_first() =~= l.drop_first().take(i - 1));
    }
}

/// Append a parameter-set list in record layout: each entry behind its
/// 2-byte big-endian length.
fn push_param_list(out: &mut Vec<u8>, l: &Vec<Vec<u8>>)
    requires
        forall|j: int| 0 <= j < l.deep_view().len() ==> (#[trigger] l.deep_view()[j]).len()
            <= 0xFFFF,
    ensures
        final(out)@ == old(out)@ + param_list_bytes(l.deep_view()),
{
    let ghost lv = l.deep_view();
    let mut i: usize = 0;
    proof {
        lemma_param_list_suffix(lv, 0);
        assert(lv.skip(0) =~= lv);
        assert(old(out)@ + param_list_bytes(lv.take(0)) =~= old(out)@);
        assert(param_list_bytes(lv.take(0)) =~= Seq::<u8>::empty());
    }
    while i < l.len()
        invariant
            i <= l@.len(),
            lv == l.deep_view(),
            forall|j: int| 0 <= j < lv.len() ==> (#[trigger] lv[j]).len() <= 0xFFFF,
            out@ == old(out)@ + param_list_bytes(lv.take(i as int)),
        decreases l@.len() - i,
    {
        let n = &l[i];
        let len = n.len();
        proof {
            assert(lv[i as int] == l@[i as int]@);
        }
        out.push((len / 0x100) as u8);
        out.push((len % 0x100) as u8);
        let mut k: usize = 0;
        while k < n.len()
            invariant
                k <= n@.len(),
                n@ == l@[i as int]@,
                out@ == old(out)@ + param_list_bytes(lv.take(i as int)) + u16_be(n@.len())
                    + n@.take(k as int),
            decreases n@.len() - k,
        {
            out.push(n[k]);
            k = k + 1;
            proof {
                assert(out@ =~= old(out)@ + param_list_bytes(lv.take(i as int)) + u16_be(n@.len())
                    + n@.take(k as int));
            }
        }
        proof {
            assert(n@.take(n@.len() as int) =~= n@);
            lemma_param_list_bytes_take_step(lv, i as int);
            assert(out@ =~= old(out)@ + param_list_bytes(lv.take(i + 1)));
        }
        i = i + 1;
    }
    proof {
        assert(lv.take(lv.len() as int) =~= lv);
    }
}

/// One more entry appends its 2-byte length and its bytes.
proof fn lemma_param_list_bytes_take_step(l: Seq<Seq<u8>>, i: int)
    requires
        0 <= i < l.len(),
    ensures
        param_list_bytes(l.take(i + 1)) == param_list_bytes(l.take(i)) + u16_be(l[i].len()) + l[i],
    decreases i,
{
    if i == 0 {
        assert(l.take(0) =~= Seq::<Seq<u8>>::empty());
        assert(l.take(1)[0] == l[0]);
        assert(l.take(1).drop_first() =~= Seq::<Seq<u8>>::empty());
        assert(param_list_bytes(l.take(1)) =~= param_list_bytes(l.take(0)) + u16_be(l[0].len())
            + l[0]);
    } else {
        lemma_param_list_bytes_take_step(l.drop_first(), i - 1);
        assert(l.take(i + 1)[0] == l[0]);
        assert(l.take(i + 1).drop_first() =~= l.drop_first().take(i));
        assert(l.take(i)[0] == l[0]);
        assert(l.take(i).drop_first() =~= l.drop_first().take(i - 1));
        assert(param_list_bytes(l.take(i + 1)) =~= param_list_bytes(l.take(i)) + u16_be(
            l[i].len(),
        ) + l[i]);
    }
}

/// A suffix of the list encodes to a suffix of the bytes.
proof fn lemma_param_list_suffix(l: Seq<Seq<u8>>, k: int)
    requires
        0 <= k <= l.len(),
    ensures
        param_list_bytes(l) == param_list_bytes(l.take(k)) + param_list_bytes(l.skip(k)),
    decreases k,
{
    if k == 0 {
        assert(l.take(0) =~= Seq::<Seq<u8>>::empty());
        assert(l.skip(0) =~= l);
        assert(param_list_bytes(l) =~= param_list_bytes(l.take(0)) + param_list_bytes(l.skip(0)));
    } else {
        lemma_param_list_bytes_take_step(l, k - 1);
        lemma_param_list_suffix(l, k - 1);
        assert(l.skip(k - 1)[0] == l[k - 1]);
        assert(l.skip(k - 1).drop_first() =~= l.skip(k));
        assert(param_list_bytes(l.skip(k - 1)) == u16_be(l[k - 1].len()) + l[k - 1]
            + param_list_bytes(l.skip(k)));
        assert(param_list_bytes(l) =~= param_list_bytes(l.take(k)) + param_list_bytes(l.skip(k)));
    }
}

/// Parse an `avcC` payload into a decoder configuration record.
///
/// The version byte must be 1 and the NAL unit length size must be 4
/// bytes; the two parameter-set lists must lie within the payload.
/// Bytes after the PPS list are ignored.
pub fn decode_avc_decoder_config(data: &[u8]) -> (r: Option<DecConfRec>)
    ensures
        match r {
            Some(rec) => decconf_spec(data@) matches Some(
                (p, c, l, sps, pps, _),
            ) && rec.profile_indication == p && rec.profile_compatibility == c
                && rec.level_indication == l && rec.sps_view() == sps && rec.pps_view() == pps,
            None => decconf_spec(data@) is None,
        },
{
    if data.len() < 6 {
        return None;
    }
    if data[0] != 1 {
        return None;
    }
    let profile = data[1];
    let compat = data[2];
    let level = data[3];
    if data[4] % 4 != 3 {
        return None;
    }
    let num_sps = data[5] % 32;
    let (sps_vec, pos) = match parse_list(data, 6, num_sps as usize) {
        Some(v) => v,
        None => {
            return None;
        },
    };
    if pos >= data.len() {
        return None;
    }
    let num_pps = data[pos];
    let (pps_vec, _end) = match parse_list(data, pos + 1, num_pps as usize) {
        Some(v) => v,
        None => {
            return None;
        },
    };
    Some(
        DecConfRec {
            profile_indication: profile,
            profile_compatibility: compat,
            level_indication: level,
            sps: sps_vec,
            pps: pps_vec,
        },
    )
}

/// Read `count` length-prefixed entries at `pos`.
fn parse_list(data: &[u8], pos: usize, count: usize) -> (r: Option<(Vec<Vec<u8>>, usize)>)
    requires
        pos <= data@.len(),
    ensures
        match r {
            Some((v, end)) => parse_param_list(data@, pos as int, count as int) == Some(
                (v.deep_view(), end as int),
            ) && pos <= end <= data@.len(),
            None => parse_param_list(data@, pos as int, count as int) is None,
        },
{
    let mut out: Vec<Vec<u8>> = Vec::new();
    let mut p = pos;
    let mut left = count;
    while left > 0
        invariant
            pos <= p <= data@.len(),
            left <= count,
            parse_param_list(data@, pos as int, count as int) matches Some((full, end)) ==> (
            parse_param_list(data@, p as int, left as int) matches Some(
                (rest, end2),
            ) && full == out.deep_view() + rest && end == end2),
            (parse_param_list(data@, pos as int, count as int) is None) == (parse_param_list(
                data@,
                p as int,
                left as int,
            ) is None),
        decreases left,
    {
        if data.len() - p < 2 {
            return None;
        }
        let l = (data[p] as usize) * 0x100 + (data[p + 1] as usize);
        if l > data.len() - p - 2 {
            proof {
                assert(parse_param_list(data@, p as int, left as int) is None);
            }
            return None;
        }
        let entry = slice_to_vec(&data[p + 2..p + 2 + l]);
        let ghost out0 = out.deep_view();
        out.push(entry);
        proof {
            assert(out.deep_view() =~~= out0 + seq![data@.subrange(p as int + 2, p + 2 + l)]);
            if parse_param_list(data@, pos as int, count as int) matches Some((full, end)) {
                let (rest, end2) = parse_param_list(data@, p as int, left as int)->Some_0;
                let (rest2, end3) = parse_param_list(
                    data@,
                    p + 2 + l,
                    left - 1,
                )->Some_0;
                assert(rest == seq![data@.subrange(p as int + 2, p + 2 + l)] + rest2);
                assert(out.deep_view() + rest2 =~= out0 + rest);
            }
        }
        p = p + 2 + l;
        left = left - 1;
    }
    proof {
        if parse_param_list(data@, pos as int, count as int) matches Some((full, end)) {
            assert(parse_param_list(data@, p as int, 0) == Some(
                (Seq::<Seq<u8>>::empty(), p as int),
            ));
            assert(out.deep_view() + Seq::<Seq<u8>>::empty() =~= out.deep_view());
        }
    }
    Some((out, p))
}


/// Parsing the record layout of a list gives the list back.
proof fn lemma_parse_of_param_list_bytes(s: Seq<u8>, pos: int, l: Seq<Seq<u8>>)
    requires
        0 <= pos,
        pos + param_list_size(l) <= s.len(),
        s.subrange(pos, pos + param_list_size(l)) == param_list_bytes(l),
        forall|j: int| 0 <= j < l.len() ==> (#[trigger] l[j]).len() <= 0xFFFF,
    ensures
        parse_param_list(s, pos, l.len() as int) == Some((l, pos + param_list_size(l))),
    decreases l.len(),
{
    lemma_param_list_size(l);
    if l.len() == 0 {
    } else {
        let n0 = l[0];
        let rest = l.drop_first();
        let w = param_list_bytes(l);
        let sz = param_list_size(l);
        lemma_param_list_size(rest);
        assert(w == u16_be(n0.len()) + n0 + param_list_bytes(rest));
        assert forall|k: int| 0 <= k < sz implies s[pos + k] == w[k] by {
            assert(s.subrange(pos, pos + sz)[k] == s[pos + k]);
        }
        assert(w[0] == ((n0.len() / 0x100) % 0x100) as u8);
        assert(w[1] == (n0.len() % 0x100) as u8);
        assert((n0.len() / 0x100) % 0x100 == n0.len() / 0x100) by (nonlinear_arith)
            requires
                n0.len() <= 0xFFFF,
        ;
        assert(be16_at(s, pos) == (n0.len() / 0x100) * 0x100 + n0.len() % 0x100);
        assert(be16_at(s, pos) == n0.len()) by (nonlinear_arith)
            requires
                be16_at(s, pos) == (n0.len() / 0x100) * 0x100 + n0.len() % 0x100,
        ;
        let nl = n0.len() as int;
        assert forall|k: int| 0 <= k < nl implies s[pos + 2 + k] == n0[k] by {
            assert(w[2 + k] == n0[k]);
            assert(s[pos + (2 + k)] == w[2 + k]);
        }
        assert(s.subrange(pos + 2, pos + 2 + nl) =~= n0);
        let pos2 = pos + 2 + nl;
        assert forall|k: int| 0 <= k < param_list_size(rest) implies s.subrange(
            pos2,
            pos2 + param_list_size(rest),
        )[k] == param_list_bytes(rest)[k] by {
            assert(w[2 + nl + k] == param_list_bytes(rest)[k]);
            assert(s[pos + (2 + nl + k)] == w[2 + nl + k]);
            assert(s.subrange(pos2, pos2 + param_list_size(rest))[k] == s[pos2 + k]);
        }
        assert(s.subrange(pos2, pos2 + param_list_size(rest)) =~= param_list_bytes(rest));
        assert(forall|j: int| 0 <= j < rest.len() ==> (#[trigger] rest[j]).len() <= 0xFFFF);
        lemma_parse_of_param_list_bytes(s, pos2, rest);
        assert(seq![s.subrange(pos + 2, pos + 2 + nl)] + rest =~= l);
    }
}

/// A parsed list serialises back to the bytes it came from.
proof fn lemma_param_list_bytes_of_parse(s: Seq<u8>, pos: int, count: int)
    requires
        count >= 0,
        0 <= pos <= s.len(),
        parse_param_list(s, pos, count) is Some,
    ensures
        ({
            let (l, end) = parse_param_list(s, pos, count)->Some_0;
            &&& l.len() == count
            &&& pos <= end <= s.len()
            &&& end == pos + param_list_size(l)
            &&& s.subrange(pos, end) == param_list_bytes(l)
            &&& forall|j: int| 0 <= j < l.len() ==> (#[trigger] l[j]).len() <= 0xFFFF
        }),
    decreases count,
{
    let (l, end) = parse_param_list(s, pos, count)->Some_0;
    if count == 0 {
        assert(s.subrange(pos, pos) =~= Seq::<u8>::empty());
    } else {
        let ln = be16_at(s, pos);
        let pos2 = pos + 2 + ln;
        lemma_param_list_bytes_of_parse(s, pos2, count - 1);
        let (rest, end2) = parse_param_list(s, pos2, count - 1)->Some_0;
        let n0 = s.subrange(pos + 2, pos + 2 + ln);
        assert(l == seq![n0] + rest);
        assert(l[0] == n0);
        assert(l.drop_first() =~= rest);
        lemma_param_list_size(rest);
        assert(n0.len() == ln);
        assert(ln <= 0xFFFF) by (nonlinear_arith)
            requires
                ln == s[pos] * 0x100 + s[pos + 1],
                s[pos] < 0x100,
                s[pos + 1] < 0x100,
        ;
        assert(u16_be(n0.len())[0] == s[pos]) by (nonlinear_arith)
            requires
                ln == s[pos] * 0x100 + s[pos + 1],
                0 <= s[pos] < 0x100,
                0 <= s[pos + 1] < 0x100,
                u16_be(n0.len())[0] == ((ln / 0x100) % 0x100) as u8,
                n0.len() == ln,
        ;
        assert(u16_be(n0.len())[1] == s[pos + 1]) by (nonlinear_arith)
            requires
                ln == s[pos] * 0x100 + s[pos + 1],
                0 <= s[pos] < 0x100,
                0 <= s[pos + 1] < 0x100,
                u16_be(n0.len())[1] == (ln % 0x100) as u8,
                n0.len() == ln,
        ;
        assert(param_list_bytes(l) == u16_be(n0.len()) + n0 + param_list_bytes(rest));
        assert(s.subrange(pos, end) =~= param_list_bytes(l)) by {
            assert(s.subrange(pos2, end) == param_list_bytes(rest));
            assert forall|k: int| 0 <= k < end - pos implies s.subrange(pos, end)[k]
                == param_list_bytes(l)[k] by {
                assert(s.subrange(pos, end)[k] == s[pos + k]);
                if k == 0 {
                    assert(param_list_bytes(l)[0] == u16_be(n0.len())[0]);
                } else if k == 1 {
                    assert(param_list_bytes(l)[1] == u16_be(n0.len())[1]);
                } else if k < 2 + ln {
                    assert(param_list_bytes(l)[k] == n0[k - 2]);
                    assert(n0[k - 2] == s[pos + k]);
                } else {
                    assert(param_list_bytes(l)[k] == param_list_bytes(rest)[k - 2 - ln]);
                    assert(s.subrange(pos2, end)[k - 2 - ln] == s[pos2 + (k - 2 - ln)]);
                }
            }
        }
    }
}

/// avcC round trip, first direction: decoding an encoded record gives
/// the record back, for any record the layout can carry.
pub proof fn lemma_decconf_decode_of_encode(
    profile: u8,
    compat: u8,
    level: u8,
    sps: Seq<Seq<u8>>,
    pps: Seq<Seq<u8>>,
)
    requires
        rec_valid(sps, pps),
    ensures
        decconf_spec(encode_spec(profile, compat, level, sps, pps)) == Some(
            (
                profile,
                compat,
                level,
                sps,
                pps,
                encode_spec(profile, compat, level, sps, pps).len() as int,
            ),
        ),
{
    let data = encode_spec(profile, compat, level, sps, pps);
    let head = seq![1u8, profile, compat, level, 0xFFu8, (0xE0 + sps.len()) as u8];
    lemma_param_list_size(sps);
    lemma_param_list_size(pps);
    let ssz = param_list_size(sps);
    let psz = param_list_size(pps);
    assert(data.len() == 7 + ssz + psz);
    assert(data[0] == 1 && data[1] == profile && data[2] == compat && data[3] == level && data[4]
        == 0xFF && data[5] == (0xE0 + sps.len()) as u8);
    assert(data[4] % 4 == 3);
    assert((0xE0 + sps.len()) % 32 == sps.len());
    assert(data[5] % 32 == sps.len());
    assert forall|k: int| 0 <= k < ssz implies data.subrange(6, 6 + ssz)[k] == param_list_bytes(
        sps,
    )[k] by {
        assert(data[6 + k] == param_list_bytes(sps)[k]);
        assert(data.subrange(6, 6 + ssz)[k] == data[6 + k]);
    }
    assert(data.subrange(6, 6 + ssz) =~= param_list_bytes(sps));
    lemma_parse_of_param_list_bytes(data, 6, sps);
    let p = 6 + ssz;
    assert(data[p] == pps.len() as u8);
    assert forall|k: int| 0 <= k < psz implies data.subrange(p + 1, p + 1 + psz)[k]
        == param_list_bytes(pps)[k] by {
        assert(data[p + 1 + k] == param_list_bytes(pps)[k]);
        assert(data.subrange(p + 1, p + 1 + psz)[k] == data[p + 1 + k]);
    }
    assert(data.subrange(p + 1, p + 1 + psz) =~= param_list_bytes(pps));
    lemma_parse_of_param_list_bytes(data, p + 1, pps);
}

/// avcC round trip, second direction: a payload that decodes, uses all
/// its bytes, and has the reserved bits set to 1 is reproduced exactly
/// by encoding the decoded record.
pub proof fn lemma_decconf_encode_of_decode(data: Seq<u8>)
    requires
        decconf_spec(data) is Some,
        decconf_spec(data)->Some_0.5 == data.len(),
        data[4] == 0xFF,
        data[5] / 32 == 7,
    ensures
        ({
            let (p, c, l, sps, pps, _) = decconf_spec(data)->Some_0;
            encode_spec(p, c, l, sps, pps) == data
        }),
{
    let (p, c, l, sps, pps, end) = decconf_spec(data)->Some_0;
    let num_sps = data[5] % 32;
    lemma_param_list_bytes_of_parse(data, 6, num_sps as int);
    let (sps2, mid) = parse_param_list(data, 6, num_sps as int)->Some_0;
    assert(sps2 == sps);
    let num_pps = data[mid];
    lemma_param_list_bytes_of_parse(data, mid + 1, num_pps as int);
    lemma_param_list_size(sps);
    lemma_param_list_size(pps);
    let ssz = param_list_size(sps);
    let psz = param_list_size(pps);
    assert(mid == 6 + ssz);
    assert(end == mid + 1 + psz);
    assert(data[5] == 0xE0 + sps.len()) by {
        assert(data[5] == 32 * (data[5] / 32) + data[5] % 32);
    }
    let enc = encode_spec(p, c, l, sps, pps);
    assert(enc.len() == 7 + ssz + psz);
    assert forall|k: int| 0 <= k < enc.len() implies enc[k] == data[k] by {
        if k < 6 {
            assert(enc[0] == 1 && enc[1] == p && enc[2] == c && enc[3] == l && enc[4] == 0xFF
                && enc[5] == (0xE0 + sps.len()) as u8);
        } else if k < 6 + ssz {
            assert(enc[k] == param_list_bytes(sps)[k - 6]);
            assert(data.subrange(6, mid)[k - 6] == data[k]);
        } else if k == 6 + ssz {
            assert(enc[k] == pps.len() as u8);
        } else {
            assert(enc[k] == param_list_bytes(pps)[k - 7 - ssz]);
            assert(data.subrange(mid + 1, end)[k - 7 - ssz] == data[k]);
        }
    }
    assert(enc =~= data);
}

} // verus!
