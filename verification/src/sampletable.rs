//! The sample-table resolver: combining `stsz`, `stsc`, `stco`/`co64`
//! and `stts` into a flat list of samples.
//!
//! The chunk-to-sample table assigns to every chunk the entry whose
//! `first_chunk` range contains it; samples are laid out back to back
//! inside each chunk. A sample's decode time is the running sum of the
//! expanded `stts` durations, whether or not the sample's bytes lie
//! inside the `mdat` payload.

use vstd::prelude::*;
use vstd::slice::slice_to_vec;
use crate::boxes::{find_box, find_box_range, find_box_spec, read_be32, CO64, MDAT, STCO, STSC, STSZ, STTS};

verus! {

/// Samples per chunk for 1-based chunk number `c`: the last table entry
/// whose `first_chunk` is at or before `c` applies.
pub open spec fn spc_for(stsc: Seq<(u32, u32, u32)>, c: int) -> int
    decreases stsc.len(),
{
    if stsc.len() == 0 {
        0
    } else if stsc.last().0 <= c {
        stsc.last().1 as int
    } else {
        spc_for(stsc.drop_last(), c)
    }
}

/// The absolute file offset of each sample, walking chunks in order.
/// State: 0-based chunk `c`, samples still to place in it `rem`, byte
/// offset inside it `woff`, and the next sample index `j`.
pub open spec fn offsets_from(
    co: Seq<u64>,
    stsc: Seq<(u32, u32, u32)>,
    sizes: Seq<u32>,
    c: int,
    rem: int,
    woff: int,
    j: int,
) -> Seq<int>
    decreases co.len() - c, rem + 1,
{
    if j >= sizes.len() || c < 0 || c >= co.len() {
        Seq::empty()
    } else if rem <= 0 {
        offsets_from(co, stsc, sizes, c + 1, spc_for(stsc, c + 2), 0, j)
    } else {
        seq![co[c] + woff] + offsets_from(co, stsc, sizes, c, rem - 1, woff + sizes[j], j + 1)
    }
}

/// The absolute file offset of each sample that the tables place.
pub open spec fn sample_offsets(co: Seq<u64>, stsc: Seq<(u32, u32, u32)>, sizes: Seq<u32>) -> Seq<
    int,
> {
    offsets_from(co, stsc, sizes, 0, spc_for(stsc, 1), 0, 0)
}

/// The sum of the first `k` durations: sample `k`'s decode time.
pub open spec fn dur_prefix(durs: Seq<u32>, k: int) -> int
    decreases k,
{
    if k <= 0 {
        0
    } else {
        dur_prefix(durs, k - 1) + durs[k - 1]
    }
}

/// Whether sample `j` lies inside the `mdat` payload that starts at
/// absolute offset `base` and is `mlen` bytes long.
pub open spec fn sample_in_mdat(offset: int, size: int, base: int, mlen: int) -> bool {
    offset >= base && offset - base + size <= mlen
}

/// The emitted samples, as `(bytes, decode time, duration)`: sample `j`
/// is emitted when its bytes lie inside the payload; skipped samples
/// still advance the decode time.
pub open spec fn emit_from(
    mdat: Seq<u8>,
    base: int,
    offs: Seq<int>,
    sizes: Seq<u32>,
    durs: Seq<u32>,
    j: int,
) -> Seq<(Seq<u8>, int, u32)>
    decreases offs.len() - j,
{
    if j < 0 || j >= offs.len() || j >= sizes.len() || j >= durs.len() {
        Seq::empty()
    } else {
        let here: Seq<(Seq<u8>, int, u32)> = if sample_in_mdat(
            offs[j],
            sizes[j] as int,
            base,
            mdat.len() as int,
        ) {
            seq![
                (
                    mdat.subrange(offs[j] - base, offs[j] - base + sizes[j]),
                    dur_prefix(durs, j),
                    durs[j],
                ),
            ]
        } else {
            Seq::empty()
        };
        here + emit_from(mdat, base, offs, sizes, durs, j + 1)
    }
}

/// The flat sample list of the resolver, as `(bytes, time, duration)`.
pub open spec fn resolved_samples(
    mdat: Seq<u8>,
    base: int,
    co: Seq<u64>,
    stsc: Seq<(u32, u32, u32)>,
    sizes: Seq<u32>,
    durs: Seq<u32>,
) -> Seq<(Seq<u8>, int, u32)> {
    emit_from(mdat, base, sample_offsets(co, stsc, sizes), sizes, durs, 0)
}

/// Samples per chunk for 1-based chunk number `c`.
pub fn spc_for_chunk(stsc: &Vec<(u32, u32, u32)>, c: u128) -> (r: u32)
    ensures
        r == spc_for(stsc@, c as int),
{
    let mut i = stsc.len();
    proof {
        assert(stsc@.take(stsc@.len() as int) =~= stsc@);
    }
    while i > 0
        invariant
            i <= stsc@.len(),
            spc_for(stsc@, c as int) == spc_for(stsc@.take(i as int), c as int),
        decreases i,
    {
        i = i - 1;
        proof {
            assert(stsc@.take(i + 1).last() == stsc@[i as int]);
            assert(stsc@.take(i + 1).drop_last() =~= stsc@.take(i as int));
        }
        if stsc[i].0 as u128 <= c {
            return stsc[i].1;
        }
    }
    proof {
        assert(stsc@.take(0) =~= Seq::<(u32, u32, u32)>::empty());
    }
    0
}

/// The absolute offset of every sample the tables place, in decode
/// order. Offsets are exact 128-bit values, so a malformed table cannot
/// wrap them around.
pub fn resolve_sample_offsets(co: &Vec<u64>, stsc: &Vec<(u32, u32, u32)>, sizes: &Vec<u32>) -> (r:
    Vec<u128>)
    ensures
        r@.map_values(|v: u128| v as int) == sample_offsets(co@, stsc@, sizes@),
        r@.len() <= sizes@.len(),
{
    let mut out: Vec<u128> = Vec::new();
    let mut c: usize = 0;
    let mut rem: u64 = spc_for_chunk(stsc, 1) as u64;
    let mut woff: u128 = 0;
    let mut j: usize = 0;
    proof {
        assert(out@.map_values(|v: u128| v as int) =~= Seq::<int>::empty());
    }
    while j < sizes.len() && c < co.len()
        invariant
            j <= sizes@.len(),
            c <= co@.len(),
            out@.len() == j,
            woff <= j * 0xFFFF_FFFF,
            sample_offsets(co@, stsc@, sizes@) == out@.map_values(|v: u128| v as int)
                + offsets_from(co@, stsc@, sizes@, c as int, rem as int, woff as int, j as int),
        decreases co@.len() - c, rem + 1,
    {
        if rem == 0 {
            c = c + 1;
            rem = spc_for_chunk(stsc, (c as u128) + 1) as u64;
            woff = 0;
        } else {
            let off: u128 = (co[c] as u128) + woff;
            let ghost out0 = out@;
            out.push(off);
            proof {
                assert(out@.map_values(|v: u128| v as int) =~= out0.map_values(|v: u128| v as int)
                    + seq![off as int]);
                assert((out0.map_values(|v: u128| v as int) + seq![off as int]) + offsets_from(
                    co@,
                    stsc@,
                    sizes@,
                    c as int,
                    rem - 1,
                    woff + sizes@[j as int],
                    j + 1,
                ) =~= out0.map_values(|v: u128| v as int) + (seq![off as int] + offsets_from(
                    co@,
                    stsc@,
                    sizes@,
                    c as int,
                    rem - 1,
                    woff + sizes@[j as int],
                    j + 1,
                )));
            }
            proof {
                assert(woff + sizes@[j as int] <= (j + 1) * 0xFFFF_FFFF) by (nonlinear_arith)
                    requires
                        woff <= j * 0xFFFF_FFFF,
                        sizes@[j as int] <= 0xFFFF_FFFF,
                        j >= 0,
                ;
            }
            woff = woff + (sizes[j] as u128);
            j = j + 1;
            rem = rem - 1;
        }
    }
    proof {
        assert(offsets_from(
            co@,
            stsc@,
            sizes@,
            c as int,
            rem as int,
            woff as int,
            j as int,
        ) =~= Seq::<int>::empty());
        assert(out@.map_values(|v: u128| v as int) + Seq::<int>::empty() =~= out@.map_values(
            |v: u128| v as int,
        ));
    }
    out
}

/// Sample `k + 1`'s decode time is sample `k`'s plus its duration, and
/// the total of all durations is the final decode time: the chained
/// timing that the resolver's outputs obey.
pub proof fn lemma_dur_prefix_step(durs: Seq<u32>, k: int)
    requires
        0 <= k < durs.len(),
    ensures
        dur_prefix(durs, k + 1) == dur_prefix(durs, k) + durs[k],
        dur_prefix(durs, k) >= 0,
    decreases k,
{
    if k > 0 {
        lemma_dur_prefix_step(durs, k - 1);
    }
}


/// The most samples a table is allowed to declare; larger counts are
/// rejected as a resource bound, and they also keep every decode time
/// within 64 bits.
pub open spec fn spec_max_samples() -> int {
    0x100_0000
}

/// The sample sizes of an `stsz` payload: a uniform size repeated, or
/// one 32-bit size per sample.
pub open spec fn stsz_spec(data: Seq<u8>) -> Option<Seq<u32>> {
    if data.len() < 12 {
        None
    } else {
        let uniform = crate::annexb::be32_at(data, 4);
        let count = crate::annexb::be32_at(data, 8);
        if count > spec_max_samples() {
            None
        } else if uniform == 0 {
            if 12 + 4 * count > data.len() {
                None
            } else {
                Some(Seq::new(count as nat, |i: int| crate::annexb::be32_at(data, 12 + 4 * i) as u32))
            }
        } else {
            Some(Seq::new(count as nat, |i: int| uniform as u32))
        }
    }
}

/// Parse the `stsz` payload into one size per sample.
pub fn parse_stsz_sizes(data: &[u8]) -> (r: Option<Vec<u32>>)
    ensures
        match r {
            Some(v) => stsz_spec(data@) == Some(v@) && v@.len() <= spec_max_samples(),
            None => stsz_spec(data@) is None,
        },
{
    let n = data.len();
    if n < 12 {
        return None;
    }
    let uniform = read_be32(data, 4);
    let count = read_be32(data, 8);
    if count > 0x100_0000 {
        return None;
    }
    let count = count as usize;
    let mut out: Vec<u32> = Vec::new();
    if uniform == 0 {
        if count > (n - 12) / 4 {
            proof {
                assert(12 + 4 * (count as int) > n);
            }
            return None;
        }
        proof {
            assert(12 + 4 * (count as int) <= n) by (nonlinear_arith)
                requires
                    count <= ((n - 12) / 4) as int,
                    n >= 12,
            ;
        }
        let mut i: usize = 0;
        while i < count
            invariant
                i <= count,
                12 + 4 * (count as int) <= n == data@.len(),
                out@.len() == i,
                forall|k: int|
                    0 <= k < i ==> #[trigger] out@[k] == crate::annexb::be32_at(
                        data@,
                        12 + 4 * k,
                    ) as u32,
            decreases count - i,
        {
            proof {
                assert(12 + 4 * (i as int) + 4 <= n) by (nonlinear_arith)
                    requires
                        (i as int) < count as int,
                        12 + 4 * (count as int) <= n,
                ;
            }
            out.push(read_be32(data, 12 + 4 * i));
            i = i + 1;
        }
        proof {
            assert(out@ =~= stsz_spec(data@)->Some_0);
        }
        Some(out)
    } else {
        let mut i: usize = 0;
        while i < count
            invariant
                i <= count,
                out@.len() == i,
                forall|k: int| 0 <= k < i ==> #[trigger] out@[k] == uniform,
            decreases count - i,
        {
            out.push(uniform);
            i = i + 1;
        }
        proof {
            assert(out@ =~= stsz_spec(data@)->Some_0);
        }
        Some(out)
    }
}

/// The chunk offsets of an `stco` (32-bit) or `co64` (64-bit) payload.
pub open spec fn chunk_offsets_spec(data: Seq<u8>, wide: bool) -> Option<Seq<u64>> {
    let esz: int = if wide {
        8
    } else {
        4
    };
    if data.len() < 8 {
        None
    } else {
        let count = crate::annexb::be32_at(data, 4);
        if 8 + esz * count > data.len() {
            None
        } else if wide {
            Some(Seq::new(count as nat, |i: int| crate::boxes::be64_at(data, 8 + 8 * i) as u64))
        } else {
            Some(Seq::new(count as nat, |i: int| crate::annexb::be32_at(data, 8 + 4 * i) as u64))
        }
    }
}

/// Parse the chunk offsets of an `stco` or (`wide`) `co64` payload.
pub fn parse_chunk_offsets(data: &[u8], wide: bool) -> (r: Option<Vec<u64>>)
    ensures
        match r {
            Some(v) => chunk_offsets_spec(data@, wide) == Some(v@),
            None => chunk_offsets_spec(data@, wide) is None,
        },
{
    let n = data.len();
    if n < 8 {
        return None;
    }
    let esz: usize = if wide {
        8
    } else {
        4
    };
    let count = read_be32(data, 4);
    if count as usize > (n - 8) / esz {
        proof {
            assert(8 + (esz as int) * (count as int) > n) by (nonlinear_arith)
                requires
                    count as int > ((n - 8) / (esz as int)) as int,
                    n >= 8,
                    esz == 4 || esz == 8,
            ;
        }
        return None;
    }
    let count = count as usize;
    proof {
        assert(8 + (esz as int) * (count as int) <= n) by (nonlinear_arith)
            requires
                count as int <= ((n - 8) / (esz as int)) as int,
                n >= 8,
                esz == 4 || esz == 8,
        ;
    }
    let mut out: Vec<u64> = Vec::new();
    let mut i: usize = 0;
    while i < count
        invariant
            i <= count,
            8 + (esz as int) * (count as int) <= n == data@.len(),
            esz == (if wide { 8int } else { 4int }),
            out@.len() == i,
            forall|k: int|
                0 <= k < i ==> #[trigger] out@[k] == (if wide {
                    crate::boxes::be64_at(data@, 8 + 8 * k) as u64
                } else {
                    crate::annexb::be32_at(data@, 8 + 4 * k) as u64
                }),
        decreases count - i,
    {
        proof {
            assert(8 + (esz as int) * (i as int) + esz <= n) by (nonlinear_arith)
                requires
                    (i as int) < count as int,
                    8 + (esz as int) * (count as int) <= n,
                    esz == 4 || esz == 8,
            ;
        }
        if wide {
            let hi = read_be32(data, 8 + 8 * i);
            let lo = read_be32(data, 8 + 8 * i + 4);
            out.push((hi as u64) * 0x100000000 + (lo as u64));
        } else {
            out.push(read_be32(data, 8 + 4 * i) as u64);
        }
        i = i + 1;
    }
    proof {
        assert(out@ =~= chunk_offsets_spec(data@, wide)->Some_0);
    }
    Some(out)
}

/// The `(first_chunk, samples_per_chunk, sample_description_index)`
/// entries of an `stsc` payload.
pub open spec fn stsc_spec(data: Seq<u8>) -> Option<Seq<(u32, u32, u32)>> {
    if data.len() < 8 {
        None
    } else {
        let count = crate::annexb::be32_at(data, 4);
        if 8 + 12 * count > data.len() {
            None
        } else {
            Some(
                Seq::new(
                    count as nat,
                    |i: int|
                        (
                            crate::annexb::be32_at(data, 8 + 12 * i) as u32,
                            crate::annexb::be32_at(data, 12 + 12 * i) as u32,
                            crate::annexb::be32_at(data, 16 + 12 * i) as u32,
                        ),
                ),
            )
        }
    }
}

/// Parse the chunk-to-sample entries of an `stsc` payload.
pub fn parse_stsc_entries(data: &[u8]) -> (r: Option<Vec<(u32, u32, u32)>>)
    ensures
        match r {
            Some(v) => stsc_spec(data@) == Some(v@),
            None => stsc_spec(data@) is None,
        },
{
    let n = data.len();
    if n < 8 {
        return None;
    }
    let count = read_be32(data, 4);
    if count as usize > (n - 8) / 12 {
        proof {
            assert(8 + 12 * (count as int) > n) by (nonlinear_arith)
                requires
                    count as int > ((n - 8) / 12) as int,
                    n >= 8,
            ;
        }
        return None;
    }
    let count = count as usize;
    proof {
        assert(8 + 12 * (count as int) <= n) by (nonlinear_arith)
            requires
                count as int <= ((n - 8) / 12) as int,
                n >= 8,
        ;
    }
    let mut out: Vec<(u32, u32, u32)> = Vec::new();
    let mut i: usize = 0;
    while i < count
        invariant
            i <= count,
            8 + 12 * (count as int) <= n == data@.len(),
            out@.len() == i,
            forall|k: int|
                0 <= k < i ==> #[trigger] out@[k] == (
                    crate::annexb::be32_at(data@, 8 + 12 * k) as u32,
                    crate::annexb::be32_at(data@, 12 + 12 * k) as u32,
                    crate::annexb::be32_at(data@, 16 + 12 * k) as u32,
                ),
        decreases count - i,
    {
        proof {
            assert(8 + 12 * (i as int) + 12 <= n) by (nonlinear_arith)
                requires
                    (i as int) < count as int,
                    8 + 12 * (count as int) <= n,
            ;
        }
        let a = read_be32(data, 8 + 12 * i);
        let b = read_be32(data, 8 + 12 * i + 4);
        let c = read_be32(data, 8 + 12 * i + 8);
        out.push((a, b, c));
        i = i + 1;
    }
    proof {
        assert(out@ =~= stsc_spec(data@)->Some_0);
    }
    Some(out)
}

/// `n` copies of the duration `v`.
pub open spec fn repeat_u32(v: u32, n: int) -> Seq<u32> {
    Seq::new(if n >= 0 {
        n as nat
    } else {
        0
    }, |i: int| v)
}

/// The per-sample durations that `(count, delta)` pairs expand to.
pub open spec fn stts_expand(entries: Seq<(u32, u32)>) -> Seq<u32>
    decreases entries.len(),
{
    if entries.len() == 0 {
        Seq::empty()
    } else {
        repeat_u32(entries[0].1, entries[0].0 as int) + stts_expand(entries.drop_first())
    }
}

proof fn lemma_stts_expand_take_step(entries: Seq<(u32, u32)>, i: int)
    requires
        0 <= i < entries.len(),
    ensures
        stts_expand(entries.take(i + 1)) == stts_expand(entries.take(i)) + repeat_u32(
            entries[i].1,
            entries[i].0 as int,
        ),
    decreases i,
{
    if i == 0 {
        assert(entries.take(0) =~= Seq::<(u32, u32)>::empty());
        assert(entries.take(1)[0] == entries[0]);
        assert(entries.take(1).drop_first() =~= Seq::<(u32, u32)>::empty());
        assert(stts_expand(entries.take(1)) =~= stts_expand(entries.take(0)) + repeat_u32(
            entries[0].1,
            entries[0].0 as int,
        ));
    } else {
        lemma_stts_expand_take_step(entries.drop_first(), i - 1);
        assert(entries.take(i + 1)[0] == entries[0]);
        assert(entries.take(i + 1).drop_first() =~= entries.drop_first().take(i));
        assert(entries.take(i)[0] == entries[0]);
        assert(entries.take(i).drop_first() =~= entries.drop_first().take(i - 1));
        assert(stts_expand(entries.take(i + 1)) =~= stts_expand(entries.take(i)) + repeat_u32(
            entries[i].1,
            entries[i].0 as int,
        ));
    }
}

proof fn lemma_stts_expand_len_ge(entries: Seq<(u32, u32)>, i: int)
    requires
        0 <= i <= entries.len(),
    ensures
        stts_expand(entries).len() >= stts_expand(entries.take(i)).len(),
        i < entries.len() ==> stts_expand(entries).len() >= stts_expand(entries.take(i)).len()
            + entries[i].0,
    decreases entries.len() - i,
{
    if i < entries.len() {
        lemma_stts_expand_take_step(entries, i);
        lemma_stts_expand_len_ge(entries, i + 1);
    } else {
        assert(entries.take(i) =~= entries);
    }
}

/// Expand the `(count, delta)` pairs to one duration per sample; the
/// expansion must come out at exactly `limit` samples, otherwise the
/// tables disagree and nothing is returned.
pub fn expand_stts_durations(entries: &Vec<(u32, u32)>, limit: usize) -> (r: Option<Vec<u32>>)
    ensures
        match r {
            Some(v) => v@ == stts_expand(entries@) && v@.len() == limit,
            None => stts_expand(entries@).len() != limit,
        },
{
    let mut out: Vec<u32> = Vec::new();
    let mut i: usize = 0;
    proof {
        assert(entries@.take(0) =~= Seq::<(u32, u32)>::empty());
    }
    while i < entries.len()
        invariant
            i <= entries@.len(),
            out@ == stts_expand(entries@.take(i as int)),
            out@.len() <= limit,
        decreases entries@.len() - i,
    {
        let (count, delta) = entries[i];
        proof {
            lemma_stts_expand_len_ge(entries@, i as int);
        }
        if count as usize > limit - out.len() {
            return None;
        }
        let mut k: usize = 0;
        while k < count as usize
            invariant
                k <= count,
                out@ == stts_expand(entries@.take(i as int)) + repeat_u32(delta, k as int),
                out@.len() <= limit,
                entries@[i as int] == (count, delta),
                i < entries@.len(),
                out@.len() == stts_expand(entries@.take(i as int)).len() + k,
                stts_expand(entries@.take(i as int)).len() + count <= limit,
            decreases count - k,
        {
            out.push(delta);
            k = k + 1;
            proof {
                assert(out@ =~= stts_expand(entries@.take(i as int)) + repeat_u32(
                    delta,
                    k as int,
                ));
            }
        }
        proof {
            lemma_stts_expand_take_step(entries@, i as int);
        }
        i = i + 1;
    }
    proof {
        assert(entries@.take(entries@.len() as int) =~= entries@);
    }
    if out.len() != limit {
        return None;
    }
    Some(out)
}

/// Resolve the tables into emitted samples `(bytes, decode time,
/// duration)`. The decode time advances for every placed sample, also
/// for those whose bytes lie outside the payload and are skipped.
pub fn emit_samples(
    mdat: &[u8],
    base: u64,
    offs: &Vec<u128>,
    sizes: &Vec<u32>,
    durs: &Vec<u32>,
) -> (r: Vec<(Vec<u8>, u64, u32)>)
    requires
        offs@.len() <= sizes@.len(),
        sizes@.len() == durs@.len(),
        durs@.len() <= spec_max_samples(),
    ensures
        ({
            let model = emit_from(
                mdat@,
                base as int,
                offs@.map_values(|v: u128| v as int),
                sizes@,
                durs@,
                0,
            );
            &&& r@.len() == model.len()
            &&& forall|j: int|
                0 <= j < model.len() ==> (#[trigger] r@[j]).0@ == model[j].0 && r@[j].1
                    == model[j].1 && r@[j].2 == model[j].2
        }),
{
    let ghost ioffs = offs@.map_values(|v: u128| v as int);
    let ghost model = emit_from(mdat@, base as int, ioffs, sizes@, durs@, 0);
    let mut out: Vec<(Vec<u8>, u64, u32)> = Vec::new();
    let mut t: u64 = 0;
    let mut j: usize = 0;
    proof {
        assert(model.skip(0) =~= model);
    }
    while j < offs.len()
        invariant
            j <= offs@.len(),
            offs@.len() <= sizes@.len(),
            sizes@.len() == durs@.len(),
            durs@.len() <= spec_max_samples(),
            ioffs == offs@.map_values(|v: u128| v as int),
            model == emit_from(mdat@, base as int, ioffs, sizes@, durs@, 0),
            t == dur_prefix(durs@, j as int),
            out@.len() <= model.len(),
            emit_from(mdat@, base as int, ioffs, sizes@, durs@, j as int) == model.skip(
                out@.len() as int,
            ),
            forall|k: int|
                0 <= k < out@.len() ==> (#[trigger] out@[k]).0@ == model[k].0 && out@[k].1
                    == model[k].1 && out@[k].2 == model[k].2,
        decreases offs@.len() - j,
    {
        proof {
            lemma_dur_prefix_step(durs@, j as int);
            lemma_dur_prefix_bound(durs@, j + 1);
            assert(ioffs[j as int] == offs@[j as int] as int);
        }
        let off = offs[j];
        let size = sizes[j];
        let mlen = mdat.len();
        let ghost rest = emit_from(mdat@, base as int, ioffs, sizes@, durs@, j + 1);
        if off >= (base as u128) {
            let rel = off - (base as u128);
            if rel <= (mlen as u128) && (size as u128) <= (mlen as u128) - rel {
                let a = rel as usize;
                let b = a + (size as usize);
                let bytes = slice_to_vec(&mdat[a..b]);
                let ghost l0 = out@.len() as int;
                proof {
                    assert(sample_in_mdat(ioffs[j as int], size as int, base as int, mlen as int));
                    assert(emit_from(mdat@, base as int, ioffs, sizes@, durs@, j as int)[0] == (
                        mdat@.subrange(a as int, b as int),
                        dur_prefix(durs@, j as int),
                        durs@[j as int],
                    ));
                    assert(emit_from(mdat@, base as int, ioffs, sizes@, durs@, j as int).len()
                        == 1 + rest.len());
                    assert(l0 < model.len());
                    assert(model.skip(l0)[0] == model[l0]);
                    assert(model.skip(l0).drop_first() =~= model.skip(l0 + 1));
                }
                out.push((bytes, t, durs[j]));
                proof {
                    assert(emit_from(mdat@, base as int, ioffs, sizes@, durs@, j as int)
                        == seq![model[l0]] + rest);
                    assert(rest =~= model.skip(out@.len() as int));
                }
            } else {
                proof {
                    assert(!sample_in_mdat(
                        ioffs[j as int],
                        size as int,
                        base as int,
                        mlen as int,
                    ));
                    assert(rest == model.skip(out@.len() as int));
                }
            }
        } else {
            proof {
                assert(!sample_in_mdat(ioffs[j as int], size as int, base as int, mlen as int));
                assert(rest == model.skip(out@.len() as int));
            }
        }
        t = t + (durs[j] as u64);
        j = j + 1;
    }
    proof {
        assert(emit_from(mdat@, base as int, ioffs, sizes@, durs@, j as int).len() == 0);
        assert(model.skip(out@.len() as int).len() == 0);
        assert(out@.len() == model.len());
    }
    out
}

/// Decode times stay within 64 bits under the declared-sample cap.
pub proof fn lemma_dur_prefix_bound(durs: Seq<u32>, k: int)
    requires
        0 <= k <= durs.len(),
        durs.len() <= spec_max_samples(),
    ensures
        dur_prefix(durs, k) <= k * 0x1_0000_0000,
        dur_prefix(durs, k) <= 0x100_0000_0000_0000,
        dur_prefix(durs, k) >= 0,
    decreases k,
{
    if k > 0 {
        lemma_dur_prefix_bound(durs, k - 1);
        assert(dur_prefix(durs, k) == dur_prefix(durs, k - 1) + durs[k - 1]);
        assert(dur_prefix(durs, k - 1) + durs[k - 1] <= k * 0x1_0000_0000) by (nonlinear_arith)
            requires
                dur_prefix(durs, k - 1) <= (k - 1) * 0x1_0000_0000,
                durs[k - 1] < 0x1_0000_0000,
        ;
        assert(k * 0x1_0000_0000 <= 0x100_0000_0000_0000) by (nonlinear_arith)
            requires
                k <= 0x100_0000,
        ;
    }
}


/// The chunk offsets of a sample table: `stco` is preferred when both
/// forms are present.
pub open spec fn stbl_chunk_offsets_spec(stbl: Seq<u8>) -> Option<Seq<u64>> {
    match find_box_spec(stbl, 0, STCO) {
        Some((_o, a, b)) => chunk_offsets_spec(stbl.subrange(a, b), false),
        None => match find_box_spec(stbl, 0, CO64) {
            Some((_o, a, b)) => chunk_offsets_spec(stbl.subrange(a, b), true),
            None => None,
        },
    }
}

/// The flat sample list of a whole `stbl` payload, reading its four
/// tables and the file's `mdat` payload: `(bytes, decode time,
/// duration)` per emitted sample. Nothing is returned when a table is
/// missing or malformed, when the expanded durations disagree with the
/// sample count, or when the file has no `mdat`.
pub open spec fn stbl_samples_spec(root: Seq<u8>, stbl: Seq<u8>) -> Option<
    Seq<(Seq<u8>, int, u32)>,
> {
    match find_box_spec(stbl, 0, STSZ) {
        None => None,
        Some((_o, a, b)) => match stsz_spec(stbl.subrange(a, b)) {
            None => None,
            Some(sizes) => match stbl_chunk_offsets_spec(stbl) {
                None => None,
                Some(co) => match find_box_spec(stbl, 0, STSC) {
                    None => None,
                    Some((_o2, a2, b2)) => match stsc_spec(stbl.subrange(a2, b2)) {
                        None => None,
                        Some(stsc) => match find_box_spec(stbl, 0, STTS) {
                            None => None,
                            Some((_o3, a3, b3)) => match crate::moov::stts_spec(
                                stbl.subrange(a3, b3),
                            ) {
                                None => None,
                                Some(entries) => {
                                    let durs = stts_expand(entries);
                                    if durs.len() != sizes.len() {
                                        None
                                    } else {
                                        match find_box_spec(root, 0, MDAT) {
                                            None => None,
                                            Some((_o4, ma, mb)) => Some(
                                                resolved_samples(
                                                    root.subrange(ma, mb),
                                                    ma,
                                                    co,
                                                    stsc,
                                                    sizes,
                                                    durs,
                                                ),
                                            ),
                                        }
                                    }
                                },
                            },
                        },
                    },
                },
            },
        },
    }
}

/// Resolve a whole `stbl` payload against the file's `mdat` into the
/// emitted samples, as `(bytes, decode time, duration)`.
pub fn resolve_stbl_samples(root: &[u8], stbl: &[u8]) -> (r: Option<Vec<(Vec<u8>, u64, u32)>>)
    ensures
        match r {
            Some(v) => stbl_samples_spec(root@, stbl@) matches Some(model) && v@.len()
                == model.len() && forall|j: int|
                0 <= j < model.len() ==> (#[trigger] v@[j]).0@ == model[j].0 && v@[j].1
                    == model[j].1 && v@[j].2 == model[j].2,
            None => stbl_samples_spec(root@, stbl@) is None,
        },
{
    let stsz = match find_box(stbl, STSZ) {
        Some(p) => p,
        None => {
            return None;
        },
    };
    let sizes = match parse_stsz_sizes(stsz) {
        Some(v) => v,
        None => {
            return None;
        },
    };
    let co = match find_box(stbl, STCO) {
        Some(p) => match parse_chunk_offsets(p, false) {
            Some(v) => v,
            None => {
                return None;
            },
        },
        None => match find_box(stbl, CO64) {
            Some(p) => match parse_chunk_offsets(p, true) {
                Some(v) => v,
                None => {
                    return None;
                },
            },
            None => {
                return None;
            },
        },
    };
    let stsc = match find_box(stbl, STSC) {
        Some(p) => match parse_stsc_entries(p) {
            Some(v) => v,
            None => {
                return None;
            },
        },
        None => {
            return None;
        },
    };
    let entries = match find_box(stbl, STTS) {
        Some(p) => match crate::moov::parse_stts_entries(p) {
            Some(v) => v,
            None => {
                return None;
            },
        },
        None => {
            return None;
        },
    };
    let durs = match expand_stts_durations(&entries, sizes.len()) {
        Some(v) => v,
        None => {
            return None;
        },
    };
    let (_mo, ma, mb) = match find_box_range(root, MDAT) {
        Some(t) => t,
        None => {
            return None;
        },
    };
    let offs = resolve_sample_offsets(&co, &stsc, &sizes);
    let out = emit_samples(&root[ma..mb], ma as u64, &offs, &sizes, &durs);
    Some(out)
}


/// Sample-table consistency: when every placed sample lies inside the
/// `mdat` payload, the resolver emits them all; each sample's decode
/// time is the sum of the durations before it, so consecutive decode
/// times differ by exactly the earlier sample's duration, the first
/// decode time is 0, and the last decode time plus its duration is the
/// sum of all placed durations — the track duration the tables
/// declare. Each sample's bytes are a slice of the payload at its
/// offset.
pub proof fn lemma_sample_table_consistency(
    mdat: Seq<u8>,
    base: int,
    offs: Seq<int>,
    sizes: Seq<u32>,
    durs: Seq<u32>,
)
    requires
        offs.len() <= sizes.len(),
        sizes.len() == durs.len(),
        forall|j: int|
            0 <= j < offs.len() ==> sample_in_mdat(
                #[trigger] offs[j],
                sizes[j] as int,
                base,
                mdat.len() as int,
            ),
    ensures
        ({
            let m = emit_from(mdat, base, offs, sizes, durs, 0);
            &&& m.len() == offs.len()
            &&& forall|i: int|
                0 <= i < m.len() ==> (#[trigger] m[i]).1 == dur_prefix(durs, i) && m[i].2
                    == durs[i] && m[i].0 == mdat.subrange(offs[i] - base, offs[i] - base + sizes[i])
            &&& m.len() > 0 ==> m[0].1 == 0
            &&& forall|i: int| 0 <= i < m.len() - 1 ==> (#[trigger] m[i + 1]).1 == m[i].1 + m[i].2
            &&& m.len() > 0 ==> m[m.len() - 1].1 + m[m.len() - 1].2 == dur_prefix(
                durs,
                offs.len() as int,
            )
        }),
{
    lemma_emit_all(mdat, base, offs, sizes, durs, 0);
    let m = emit_from(mdat, base, offs, sizes, durs, 0);
    assert forall|i: int| 0 <= i < m.len() - 1 implies (#[trigger] m[i + 1]).1 == m[i].1
        + m[i].2 by {
        lemma_dur_prefix_step(durs, i);
    }
    if m.len() > 0 {
        lemma_dur_prefix_step(durs, offs.len() - 1);
    }
}

/// With every sample in range, the emitted list from `j` on is one
/// entry per placed sample.
proof fn lemma_emit_all(
    mdat: Seq<u8>,
    base: int,
    offs: Seq<int>,
    sizes: Seq<u32>,
    durs: Seq<u32>,
    j: int,
)
    requires
        0 <= j,
        offs.len() <= sizes.len(),
        sizes.len() == durs.len(),
        forall|k: int|
            0 <= k < offs.len() ==> sample_in_mdat(
                #[trigger] offs[k],
                sizes[k] as int,
                base,
                mdat.len() as int,
            ),
    ensures
        ({
            let m = emit_from(mdat, base, offs, sizes, durs, j);
            &&& m.len() == if j <= offs.len() {
                offs.len() - j
            } else {
                0
            }
            &&& forall|i: int|
                0 <= i < m.len() ==> (#[trigger] m[i]).1 == dur_prefix(durs, j + i) && m[i].2
                    == durs[j + i] && m[i].0 == mdat.subrange(
                    offs[j + i] - base,
                    offs[j + i] - base + sizes[j + i],
                )
        }),
    decreases offs.len() - j,
{
    if j < offs.len() {
        lemma_emit_all(mdat, base, offs, sizes, durs, j + 1);
    }
}

} // verus!
