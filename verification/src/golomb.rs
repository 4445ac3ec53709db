//! Exp-Golomb codes, on top of the two bit readers.
//!
//! An unsigned code `ue(v)` is `k` zero bits, a one bit, and `k` suffix
//! bits; its value is `2^k - 1 + suffix`. The signed code `se(v)` maps the
//! unsigned value `u` to `(u+1)/2` when `u` is odd and to `-(u/2)` when it
//! is even. Codes with more than 31 leading zeros do not fit a `u32` and
//! are rejected through the readers' sticky error.

use vstd::prelude::*;
use vstd::arithmetic::div_mod::{lemma_div_is_ordered, lemma_div_multiples_vanish};
use vstd::arithmetic::logarithm::{lemma_log0, lemma_log_s, log};
use vstd::arithmetic::power2::{lemma_pow2, lemma_pow2_adds, lemma_pow2_pos, lemma2_to64, pow2};
use crate::bits::{
    bit_at, bits_value, lemma_bits_value_bound, lemma_bits_value_one, pow2_u64, BitError,
    BitReader,
};
use crate::ebsp::EbspReader;

verus! {

/// The number of zero bits at bit position `pos` before the first one bit
/// (or before the end of the stream).
pub open spec fn leading_zeros(s: Seq<u8>, pos: int) -> int
    decreases 8 * s.len() - pos,
{
    if pos < 0 || pos >= 8 * s.len() {
        0
    } else if bit_at(s, pos) == 1 {
        0
    } else {
        1 + leading_zeros(s, pos + 1)
    }
}

pub proof fn lemma_leading_zeros_nonneg(s: Seq<u8>, pos: int)
    ensures
        leading_zeros(s, pos) >= 0,
    decreases 8 * s.len() - pos,
{
    if 0 <= pos < 8 * s.len() && bit_at(s, pos) != 1 {
        lemma_leading_zeros_nonneg(s, pos + 1);
    }
}

/// A well-formed `ue` code at bit position `pos`: the terminating one bit
/// and the suffix lie within the stream, and the value fits a `u32`.
pub open spec fn ue_wf(s: Seq<u8>, pos: int) -> bool {
    let k = leading_zeros(s, pos);
    &&& 0 <= pos
    &&& pos + k < 8 * s.len()
    &&& pos + 2 * k + 1 <= 8 * s.len()
    &&& k <= 31
}

/// The value coded by the `ue` code at bit position `pos`.
pub open spec fn ue_value(s: Seq<u8>, pos: int) -> nat {
    let k = leading_zeros(s, pos);
    ((pow2(k as nat) - 1) + bits_value(s, pos + k + 1, k as nat)) as nat
}

/// The number of bits the `ue` code at `pos` occupies.
pub open spec fn ue_size(s: Seq<u8>, pos: int) -> int {
    2 * leading_zeros(s, pos) + 1
}

/// The standard map from the unsigned code value to the signed value.
pub open spec fn se_map(u: nat) -> int {
    if u % 2 == 1 {
        ((u + 1) / 2) as int
    } else {
        -((u / 2) as int)
    }
}

proof fn lemma_leading_zeros_is(s: Seq<u8>, pos: int, k: int)
    requires
        0 <= pos,
        0 <= k,
        pos + k < 8 * s.len(),
        forall|j: int| 0 <= j < k ==> #[trigger] bit_at(s, pos + j) == 0,
        bit_at(s, pos + k) == 1,
    ensures
        leading_zeros(s, pos) == k,
    decreases k,
{
    if k == 0 {
    } else {
        assert(bit_at(s, pos + 0) == 0);
        assert(forall|j: int| 0 <= j < k - 1 ==> #[trigger] bit_at(s, pos + 1 + j) == bit_at(
            s,
            pos + (j + 1),
        ) && bit_at(s, pos + (j + 1)) == 0);
        lemma_leading_zeros_is(s, pos + 1, k - 1);
        assert(leading_zeros(s, pos) == 1 + leading_zeros(s, pos + 1));
    }
}

proof fn lemma_leading_zeros_end(s: Seq<u8>, pos: int, k: int)
    requires
        0 <= pos,
        0 <= k,
        pos + k == 8 * s.len(),
        forall|j: int| 0 <= j < k ==> #[trigger] bit_at(s, pos + j) == 0,
    ensures
        leading_zeros(s, pos) == k,
    decreases k,
{
    if k == 0 {
    } else {
        assert(bit_at(s, pos + 0) == 0);
        assert(forall|j: int| 0 <= j < k - 1 ==> #[trigger] bit_at(s, pos + 1 + j) == bit_at(
            s,
            pos + (j + 1),
        ) && bit_at(s, pos + (j + 1)) == 0);
        lemma_leading_zeros_end(s, pos + 1, k - 1);
        assert(leading_zeros(s, pos) == 1 + leading_zeros(s, pos + 1));
    }
}

proof fn lemma_leading_zeros_at_least(s: Seq<u8>, pos: int, k: int)
    requires
        0 <= pos,
        0 <= k,
        pos + k <= 8 * s.len(),
        forall|j: int| 0 <= j < k ==> #[trigger] bit_at(s, pos + j) == 0,
    ensures
        leading_zeros(s, pos) >= k,
    decreases k,
{
    if k == 0 {
        lemma_leading_zeros_nonneg(s, pos);
    } else {
        assert(bit_at(s, pos + 0) == 0);
        assert(forall|j: int| 0 <= j < k - 1 ==> #[trigger] bit_at(s, pos + 1 + j) == bit_at(
            s,
            pos + (j + 1),
        ) && bit_at(s, pos + (j + 1)) == 0);
        lemma_leading_zeros_at_least(s, pos + 1, k - 1);
        assert(leading_zeros(s, pos) == 1 + leading_zeros(s, pos + 1));
    }
}

/// Read one unsigned Exp-Golomb code. On a malformed or truncated code
/// the reader's sticky error is set and 0 is returned.
pub fn read_ue(r: &mut BitReader) -> (v: u32)
    requires
        old(r).wf(),
    ensures
        final(r).wf(),
        final(r).stream() == old(r).stream(),
        old(r).failed() ==> final(r).failed() && v == 0,
        !old(r).failed() && ue_wf(old(r).stream(), old(r).bits_read()) ==> !final(r).failed()
            && v == ue_value(old(r).stream(), old(r).bits_read()) && final(r).bits_read() == old(
            r,
        ).bits_read() + ue_size(old(r).stream(), old(r).bits_read()) && v <= 0xFFFF_FFFE,
        !old(r).failed() && !ue_wf(old(r).stream(), old(r).bits_read()) ==> final(r).failed() && v
            == 0,
        final(r).failed() == (old(r).failed() || !ue_wf(old(r).stream(), old(r).bits_read())),
{
    if r.acc_error().is_some() {
        return 0;
    }
    let ghost s = old(r).stream();
    let ghost pos = old(r).bits_read();
    proof {
        old(r).lemma_wf();
    }
    let mut leading: u32 = 0;
    let mut stop = false;
    while !stop
        invariant
            r.wf(),
            r.stream() == s,
            !old(r).failed(),
            pos == old(r).bits_read(),
            0 <= pos,
            leading <= 31,
            !stop ==> !r.failed() && r.bits_read() == pos + leading && forall|j: int|
                0 <= j < leading ==> #[trigger] bit_at(s, pos + j) == 0,
            stop ==> (r.failed() && !ue_wf(s, pos)) || (!r.failed() && r.bits_read() == pos
                + leading + 1 && leading == leading_zeros(s, pos) && pos + leading < 8 * s.len()),
        decreases (if stop { 0int } else { 33 - leading }),
    {
        proof {
            r.lemma_wf();
        }
        let f = r.read_flag();
        if r.acc_error().is_some() {
            // The stream ended inside the run of zeros.
            proof {
                lemma_leading_zeros_end(s, pos, leading as int);
            }
            stop = true;
        } else if f {
            proof {
                lemma_bits_value_one(s, pos + leading);
                lemma_leading_zeros_is(s, pos, leading as int);
            }
            stop = true;
        } else {
            proof {
                lemma_bits_value_one(s, pos + leading);
            }
            if leading == 31 {
                // A 33rd bit of prefix would push the value past u32.
                proof {
                    lemma_leading_zeros_at_least(s, pos, 32);
                }
                r.mark_failed(BitError::Overflow);
                stop = true;
            } else {
                leading = leading + 1;
            }
        }
    }
    if r.acc_error().is_some() {
        return 0;
    }
    let ghost k = leading as int;
    let suffix = if leading > 0 {
        r.read(leading)
    } else {
        proof {
            assert(bits_value(s, pos + k + 1, 0) == 0);
        }
        0
    };
    if r.acc_error().is_some() {
        return 0;
    }
    proof {
        lemma_bits_value_bound(s, pos + k + 1, leading as nat);
        lemma_pow2_adds(leading as nat, 1);
        lemma2_to64();
        if leading < 32 {
            vstd::arithmetic::power2::lemma_pow2_strictly_increases(leading as nat, 32);
        }
    }
    let p = pow2_u64(leading as u64);
    ((p - 1) as u32) + suffix
}

/// Read one signed Exp-Golomb code through the standard mapping.
pub fn read_se(r: &mut BitReader) -> (v: i32)
    requires
        old(r).wf(),
    ensures
        final(r).wf(),
        final(r).stream() == old(r).stream(),
        old(r).failed() ==> final(r).failed() && v == 0,
        !old(r).failed() && ue_wf(old(r).stream(), old(r).bits_read()) ==> !final(r).failed() && v
            == se_map(ue_value(old(r).stream(), old(r).bits_read())) && final(r).bits_read()
            == old(r).bits_read() + ue_size(old(r).stream(), old(r).bits_read()),
        !old(r).failed() && !ue_wf(old(r).stream(), old(r).bits_read()) ==> final(r).failed() && v
            == 0,
        final(r).failed() == (old(r).failed() || !ue_wf(old(r).stream(), old(r).bits_read())),
{
    let u = read_ue(r);
    if u % 2 == 1 {
        ((u + 1) / 2) as i32
    } else {
        -((u / 2) as i32)
    }
}

/// Read one unsigned Exp-Golomb code from an EBSP reader; positions refer
/// to the un-escaped payload.
pub fn read_ue_eb(r: &mut EbspReader) -> (v: u32)
    requires
        old(r).wf(),
    ensures
        final(r).wf(),
        final(r).stream() == old(r).stream(),
        old(r).failed() ==> final(r).failed() && v == 0,
        !old(r).failed() && ue_wf(old(r).payload(), old(r).bits_read()) ==> !final(r).failed()
            && v == ue_value(old(r).payload(), old(r).bits_read()) && final(r).bits_read() == old(
            r,
        ).bits_read() + ue_size(old(r).payload(), old(r).bits_read()) && v <= 0xFFFF_FFFE,
        !old(r).failed() && !ue_wf(old(r).payload(), old(r).bits_read()) ==> final(r).failed() && v
            == 0,
        final(r).failed() == (old(r).failed() || !ue_wf(old(r).payload(), old(r).bits_read())),
        final(r).bits_read() >= old(r).bits_read(),
        !old(r).failed() && ue_wf(old(r).payload(), old(r).bits_read()) ==> final(r).bits_read()
            >= old(r).bits_read() + 1,
{
    if r.acc_error().is_some() {
        return 0;
    }
    let ghost s = old(r).payload();
    let ghost pos = old(r).bits_read();
    proof {
        old(r).lemma_wf();
    }
    let mut leading: u32 = 0;
    let mut stop = false;
    while !stop
        invariant
            r.wf(),
            r.stream() == old(r).stream(),
            s == r.payload(),
            !old(r).failed(),
            pos == old(r).bits_read(),
            0 <= pos,
            leading <= 31,
            !stop ==> !r.failed() && r.bits_read() == pos + leading && forall|j: int|
                0 <= j < leading ==> #[trigger] bit_at(s, pos + j) == 0,
            stop ==> (r.failed() && !ue_wf(s, pos)) || (!r.failed() && r.bits_read() == pos
                + leading + 1 && leading == leading_zeros(s, pos) && pos + leading < 8 * s.len()),
            r.bits_read() >= pos,
        decreases (if stop { 0int } else { 33 - leading }),
    {
        proof {
            r.lemma_wf();
        }
        let f = r.read_flag();
        if r.acc_error().is_some() {
            proof {
                lemma_leading_zeros_end(s, pos, leading as int);
            }
            stop = true;
        } else if f {
            proof {
                lemma_bits_value_one(s, pos + leading);
                lemma_leading_zeros_is(s, pos, leading as int);
            }
            stop = true;
        } else {
            proof {
                lemma_bits_value_one(s, pos + leading);
            }
            if leading == 31 {
                proof {
                    lemma_leading_zeros_at_least(s, pos, 32);
                }
                r.mark_failed(BitError::Overflow);
                stop = true;
            } else {
                leading = leading + 1;
            }
        }
    }
    if r.acc_error().is_some() {
        return 0;
    }
    let ghost k = leading as int;
    let suffix = if leading > 0 {
        r.read(leading)
    } else {
        proof {
            assert(bits_value(s, pos + k + 1, 0) == 0);
        }
        0
    };
    if r.acc_error().is_some() {
        return 0;
    }
    proof {
        lemma_bits_value_bound(s, pos + k + 1, leading as nat);
        lemma_pow2_adds(leading as nat, 1);
        lemma2_to64();
        if leading < 32 {
            vstd::arithmetic::power2::lemma_pow2_strictly_increases(leading as nat, 32);
        }
    }
    let p = pow2_u64(leading as u64);
    ((p - 1) as u32) + suffix
}

/// Read one signed Exp-Golomb code from an EBSP reader.
pub fn read_se_eb(r: &mut EbspReader) -> (v: i32)
    requires
        old(r).wf(),
    ensures
        final(r).wf(),
        final(r).stream() == old(r).stream(),
        old(r).failed() ==> final(r).failed() && v == 0,
        !old(r).failed() && ue_wf(old(r).payload(), old(r).bits_read()) ==> !final(r).failed() && v
            == se_map(ue_value(old(r).payload(), old(r).bits_read())) && final(r).bits_read()
            == old(r).bits_read() + ue_size(old(r).payload(), old(r).bits_read()),
        !old(r).failed() && !ue_wf(old(r).payload(), old(r).bits_read()) ==> final(r).failed() && v
            == 0,
        final(r).failed() == (old(r).failed() || !ue_wf(old(r).payload(), old(r).bits_read())),
        final(r).bits_read() >= old(r).bits_read(),
        !old(r).failed() && ue_wf(old(r).payload(), old(r).bits_read()) ==> final(r).bits_read()
            >= old(r).bits_read() + 1,
{
    let u = read_ue_eb(r);
    if u % 2 == 1 {
        ((u + 1) / 2) as i32
    } else {
        -((u / 2) as i32)
    }
}

/// log2 of a value known to lie between two neighbouring powers of two.
proof fn lemma_log2_of_bounded(k: nat, x: int)
    requires
        pow2(k) <= x < pow2(k + 1),
    ensures
        log(2, x) == k,
    decreases k,
{
    lemma_pow2(k);
    lemma_pow2((k + 1) as nat);
    if k == 0 {
        lemma2_to64();
        lemma_log0(2, x);
    } else {
        lemma_pow2((k - 1) as nat);
        lemma_pow2_pos((k - 1) as nat);
        lemma_pow2_adds((k - 1) as nat, 1);
        lemma_pow2_adds(k, 1);
        lemma2_to64();
        lemma_log_s(2, x);
        assert(log(2, x) == 1 + log(2, x / 2));
        // pow2(k - 1) <= x / 2 < pow2(k)
        lemma_div_is_ordered(pow2(k) as int, x, 2);
        lemma_div_multiples_vanish(pow2((k - 1) as nat) as int, 2);
        lemma_div_is_ordered(x, pow2(k + 1) - 1, 2);
        lemma_div_multiples_vanish(pow2(k) as int, 2);
        assert((2 * pow2(k) - 1) / 2 == pow2(k) - 1) by (nonlinear_arith)
            requires
                pow2(k) >= 1,
        ;
        lemma_log2_of_bounded((k - 1) as nat, x / 2);
    }
}

/// A well-formed `ue` code occupies exactly `2 * log2(v + 1) + 1` bits,
/// where `v` is the value it codes.
pub proof fn lemma_ue_size_is_log(s: Seq<u8>, pos: int)
    requires
        ue_wf(s, pos),
    ensures
        ue_size(s, pos) == 2 * log(2, ue_value(s, pos) as int + 1) + 1,
{
    let k = leading_zeros(s, pos);
    lemma_leading_zeros_nonneg(s, pos);
    let kn = k as nat;
    let suffix = bits_value(s, pos + k + 1, kn);
    lemma_bits_value_bound(s, pos + k + 1, kn);
    lemma_pow2_pos(kn);
    assert(ue_value(s, pos) == pow2(kn) - 1 + suffix);
    lemma_pow2_adds(kn, 1);
    lemma2_to64();
    assert(ue_value(s, pos) as int + 1 == pow2(kn) + suffix);
    assert(pow2(kn) + suffix < pow2(kn + 1));
    lemma_log2_of_bounded(kn, ue_value(s, pos) as int + 1);
    assert(log(2, ue_value(s, pos) as int + 1) == kn);
}

/// The standard signed mapping is injective: distinct unsigned code
/// values give distinct signed values, so `se` inverts `ue`.
pub proof fn lemma_se_map_injective(u1: nat, u2: nat)
    requires
        se_map(u1) == se_map(u2),
    ensures
        u1 == u2,
{
}

/// The unsigned code value that the standard mapping sends to `m`: the
/// mapping is onto the integers, with `2m - 1` for positive `m` and
/// `-2m` otherwise.
pub proof fn lemma_se_map_inverse(m: int)
    ensures
        m > 0 ==> se_map((2 * m - 1) as nat) == m,
        m <= 0 ==> se_map((-2 * m) as nat) == m,
{
}


/// A position in a bit stream together with the readers' sticky
/// failure state: the ghost counterpart of a reader while a parse
/// walks the stream. After a failure the position is meaningless, and
/// every operation collapses to the one dead cursor.
pub struct BitCursor {
    pub pos: int,
    pub failed: bool,
}

/// The one cursor every failure collapses to.
pub open spec fn dead_cursor() -> BitCursor {
    BitCursor { pos: 0, failed: true }
}

/// The cursor a [`crate::bits::BitReader`] stands at: its position
/// while it is healthy, the dead cursor once it has failed.
pub open spec fn reader_cursor(r: crate::bits::BitReader) -> BitCursor {
    if r.failed() {
        dead_cursor()
    } else {
        BitCursor { pos: r.bits_read(), failed: false }
    }
}

/// A [`crate::bits::BitReader`] stands at a cursor.
pub open spec fn reader_at(r: crate::bits::BitReader, c: BitCursor) -> bool {
    reader_cursor(r) == c
}

/// The cursor an [`EbspReader`] stands at, over its un-escaped
/// payload.
pub open spec fn ebsp_cursor(r: EbspReader) -> BitCursor {
    if r.failed() {
        dead_cursor()
    } else {
        BitCursor { pos: r.bits_read(), failed: false }
    }
}

/// An [`EbspReader`] stands at a cursor of its un-escaped payload.
pub open spec fn ebsp_at(r: EbspReader, c: BitCursor) -> bool {
    ebsp_cursor(r) == c
}

/// Reading `n` bits at a cursor: the bits' value and the cursor after,
/// failing when the stream is exhausted; a failed cursor yields 0.
pub open spec fn s_read(s: Seq<u8>, c: BitCursor, n: nat) -> (nat, BitCursor) {
    if c.failed {
        (0, dead_cursor())
    } else if c.pos + n <= 8 * s.len() {
        (bits_value(s, c.pos, n), BitCursor { pos: c.pos + n, failed: false })
    } else {
        (0, dead_cursor())
    }
}

/// Reading one bit as a flag at a cursor.
pub open spec fn s_flag(s: Seq<u8>, c: BitCursor) -> (bool, BitCursor) {
    let (v, c1) = s_read(s, c, 1);
    (v == 1, c1)
}

/// Reading one unsigned Exp-Golomb code at a cursor.
pub open spec fn s_uev(s: Seq<u8>, c: BitCursor) -> (nat, BitCursor) {
    if c.failed {
        (0, dead_cursor())
    } else if ue_wf(s, c.pos) {
        (ue_value(s, c.pos), BitCursor { pos: c.pos + ue_size(s, c.pos), failed: false })
    } else {
        (0, dead_cursor())
    }
}

/// Reading one signed Exp-Golomb code at a cursor.
pub open spec fn s_sev(s: Seq<u8>, c: BitCursor) -> (int, BitCursor) {
    let (u, c1) = s_uev(s, c);
    (se_map(u), c1)
}

/// A successful Exp-Golomb read moves the cursor forward.
pub proof fn lemma_s_uev_progress(s: Seq<u8>, c: BitCursor)
    requires
        !c.failed,
        !s_uev(s, c).1.failed,
    ensures
        s_uev(s, c).1.pos >= c.pos + 1,
{
    lemma_leading_zeros_nonneg(s, c.pos);
}

/// A successful Exp-Golomb read starts in range and lands in range,
/// strictly forward.
pub proof fn lemma_s_uev_bounds(s: Seq<u8>, c: BitCursor)
    ensures
        !s_uev(s, c).1.failed ==> 0 <= c.pos < s_uev(s, c).1.pos <= 8 * s.len(),
{
    if !s_uev(s, c).1.failed {
        lemma_leading_zeros_nonneg(s, c.pos);
    }
}

/// The number of bits needed for values below `v`; 0 when `v <= 1`.
/// Halving (rounded up) strips one bit per step.
pub open spec fn clog2(v: int) -> int
    decreases v,
{
    if v <= 1 {
        0
    } else {
        1 + clog2((v + 1) / 2)
    }
}

proof fn lemma_clog2_char(v: int)
    requires
        1 <= v,
    ensures
        0 <= clog2(v),
        pow2(clog2(v) as nat) >= v,
        clog2(v) > 0 ==> pow2((clog2(v) - 1) as nat) < v,
    decreases v,
{
    lemma2_to64();
    if v > 1 {
        let w = (v + 1) / 2;
        vstd::arithmetic::div_mod::lemma_fundamental_div_mod(v + 1, 2);
        lemma_clog2_char(w);
        let k = clog2(w);
        lemma_pow2_adds(k as nat, 1);
        assert(2 * pow2(k as nat) >= 2 * w >= v) by (nonlinear_arith)
            requires
                pow2(k as nat) >= w,
                2 * w >= v,
        ;
        if k == 0 {
            assert(pow2(0) == 1 < v);
        } else {
            lemma_pow2_adds((k - 1) as nat, 1);
            assert(2 * pow2((k - 1) as nat) < 2 * w) by (nonlinear_arith)
                requires
                    pow2((k - 1) as nat) < w,
            ;
            // pow2(k) < 2w <= v + 1, and for even v already 2w == v;
            // for odd v the power of two cannot hit the odd value.
            if v % 2 == 0 {
                assert(2 * w == v);
            } else {
                assert(2 * w == v + 1);
                assert(pow2(k as nat) % 2 == 0) by {
                    lemma_pow2_adds((k - 1) as nat, 1);
                    vstd::arithmetic::div_mod::lemma_mod_multiples_basic(
                        pow2((k - 1) as nat) as int,
                        2,
                    );
                };
                assert(v % 2 == 1);
            }
        }
    }
}

pub fn ceil_log2(v: u32) -> (r: u32)
    ensures
        r == clog2(v as int),
        r <= 32,
        pow2(r as nat) >= v,
        r > 0 ==> pow2((r - 1) as nat) < v,
{
    proof {
        lemma2_to64();
    }
    if v <= 1 {
        return 0;
    }
    let mut k: u32 = 0;
    let mut p: u64 = 1;
    while p < (v as u64)
        invariant
            k <= 32,
            p == pow2(k as nat),
            k > 0 ==> pow2((k - 1) as nat) < v,
        decreases 32 - k,
    {
        proof {
            lemma_pow2_adds(k as nat, 1);
            lemma2_to64();
            if k >= 32 {
                assert(pow2(32) <= pow2(k as nat)) by {
                    if k > 32 {
                        vstd::arithmetic::power2::lemma_pow2_strictly_increases(32, k as nat);
                    }
                };
                assert(false);
            }
        }
        p = p * 2;
        k = k + 1;
    }
    proof {
        lemma_clog2_char(v as int);
        // Both k and clog2(v) sit between the same neighbouring powers
        // of two, so they are the same exponent.
        let c = clog2(v as int);
        if k < c {
            vstd::arithmetic::power2::lemma_pow2_strictly_increases(k as nat, (c - 1) as nat + 1);
            if k < c - 1 {
                vstd::arithmetic::power2::lemma_pow2_strictly_increases(k as nat, (c - 1) as nat);
            }
            assert(pow2(k as nat) <= pow2((c - 1) as nat)) by {
                if k == c - 1 {
                } else {
                }
            };
            assert(false);
        }
        if c < k {
            if c < k - 1 {
                vstd::arithmetic::power2::lemma_pow2_strictly_increases(c as nat, (k - 1) as nat);
            }
            assert(pow2(c as nat) <= pow2((k - 1) as nat));
            assert(false);
        }
    }
    k
}

/// The `delta_scale` recurrence of a scaling list at a cursor, carrying
/// the latched `last` and running `next` scales: while `next` is not 0
/// a signed delta adjusts it modulo 256, and once it reaches 0 every
/// remaining entry repeats the latched value without further reads.
pub open spec fn scaling_list_spec(
    s: Seq<u8>,
    c: BitCursor,
    size: nat,
    last: int,
    next: int,
) -> (Seq<i32>, BitCursor)
    decreases size,
{
    if size == 0 {
        (Seq::empty(), c)
    } else {
        let (d, c1): (int, BitCursor) = if next != 0 {
            s_sev(s, c)
        } else {
            (0, c)
        };
        let next2: int = if next != 0 {
            (last + d + 256) % 256
        } else {
            next
        };
        let entry: int = if next2 == 0 {
            last
        } else {
            next2
        };
        let (rest, c2) = scaling_list_spec(s, c1, (size - 1) as nat, entry, next2);
        (seq![entry as i32] + rest, c2)
    }
}

/// Read one scaling list of `size` entries by the `delta_scale`
/// recurrence, starting from a scale of 8.
pub fn read_scaling_list(r: &mut BitReader, size: usize) -> (list: Vec<i32>)
    requires
        old(r).wf(),
    ensures
        final(r).wf(),
        final(r).stream() == old(r).stream(),
        ({
            let c0 = reader_cursor(*old(r));
            let (m, cf) = scaling_list_spec(old(r).stream(), c0, size as nat, 8, 8);
            &&& list@ == m
            &&& reader_at(*final(r), cf)
        }),
{
    let ghost s = old(r).stream();
    let ghost c0 = reader_cursor(*old(r));
    let ghost (m_total, c_total) = scaling_list_spec(s, c0, size as nat, 8, 8);
    let mut list: Vec<i32> = Vec::new();
    let mut last_scale: i32 = 8;
    let mut next_scale: i32 = 8;
    let mut i: usize = 0;
    let ghost mut cur = c0;
    proof {
        assert(Seq::<i32>::empty() + scaling_list_spec(s, cur, size as nat, 8, 8).0
            =~= scaling_list_spec(s, cur, size as nat, 8, 8).0);
    }
    while i < size
        invariant
            i <= size,
            r.wf(),
            r.stream() == s,
            reader_at(*r, cur),
            0 <= last_scale < 256,
            0 <= next_scale < 256,
            ({
                let (suf, cf) = scaling_list_spec(
                    s,
                    cur,
                    (size - i) as nat,
                    last_scale as int,
                    next_scale as int,
                );
                m_total == list@ + suf && c_total == cf
            }),
        decreases size - i,
    {
        let ghost cur0 = cur;
        let ghost last0 = last_scale as int;
        let ghost next0 = next_scale as int;
        if next_scale != 0 {
            let delta = read_se(r);
            proof {
                cur = s_sev(s, cur).1;
                assert(delta == s_sev(s, cur0).0);
            }
            let shifted: i64 = (last_scale as i64) + (delta as i64) + 256 + 0x1_0000_0000;
            let m64: u64 = (shifted as u64) % 256;
            proof {
                vstd::arithmetic::div_mod::lemma_mod_multiples_vanish(
                    0x100_0000,
                    last_scale + delta + 256,
                    256,
                );
            }
            next_scale = m64 as i32;
        }
        let entry = if next_scale == 0 {
            last_scale
        } else {
            next_scale
        };
        list.push(entry);
        last_scale = entry;
        i = i + 1;
        proof {
            let (suf0, _cf0) = scaling_list_spec(s, cur0, (size - i + 1) as nat, last0, next0);
            let (suf1, _cf1) = scaling_list_spec(
                s,
                cur,
                (size - i) as nat,
                last_scale as int,
                next_scale as int,
            );
            assert(suf0 == seq![entry as i32] + suf1);
            assert(list@ + suf1 =~= m_total);
        }
    }
    list
}

/// Read one scaling list from an EBSP reader; same recurrence as
/// [`read_scaling_list`], over the un-escaped payload.
pub fn read_scaling_list_eb(r: &mut EbspReader, size: usize) -> (list: Vec<i32>)
    requires
        old(r).wf(),
    ensures
        final(r).wf(),
        final(r).stream() == old(r).stream(),
        ({
            let c0 = ebsp_cursor(*old(r));
            let (m, cf) = scaling_list_spec(old(r).payload(), c0, size as nat, 8, 8);
            &&& list@ == m
            &&& ebsp_at(*final(r), cf)
        }),
{
    let ghost s = old(r).payload();
    let ghost c0 = ebsp_cursor(*old(r));
    let ghost (m_total, c_total) = scaling_list_spec(s, c0, size as nat, 8, 8);
    let mut list: Vec<i32> = Vec::new();
    let mut last_scale: i32 = 8;
    let mut next_scale: i32 = 8;
    let mut i: usize = 0;
    let ghost mut cur = c0;
    proof {
        assert(Seq::<i32>::empty() + scaling_list_spec(s, cur, size as nat, 8, 8).0
            =~= scaling_list_spec(s, cur, size as nat, 8, 8).0);
    }
    while i < size
        invariant
            i <= size,
            r.wf(),
            r.stream() == old(r).stream(),
            s == r.payload(),
            ebsp_at(*r, cur),
            0 <= last_scale < 256,
            0 <= next_scale < 256,
            ({
                let (suf, cf) = scaling_list_spec(
                    s,
                    cur,
                    (size - i) as nat,
                    last_scale as int,
                    next_scale as int,
                );
                m_total == list@ + suf && c_total == cf
            }),
        decreases size - i,
    {
        let ghost cur0 = cur;
        let ghost last0 = last_scale as int;
        let ghost next0 = next_scale as int;
        if next_scale != 0 {
            let delta = read_se_eb(r);
            proof {
                cur = s_sev(s, cur).1;
                assert(delta == s_sev(s, cur0).0);
            }
            let shifted: i64 = (last_scale as i64) + (delta as i64) + 256 + 0x1_0000_0000;
            let m64: u64 = (shifted as u64) % 256;
            proof {
                vstd::arithmetic::div_mod::lemma_mod_multiples_vanish(
                    0x100_0000,
                    last_scale + delta + 256,
                    256,
                );
            }
            next_scale = m64 as i32;
        }
        let entry = if next_scale == 0 {
            last_scale
        } else {
            next_scale
        };
        list.push(entry);
        last_scale = entry;
        i = i + 1;
        proof {
            let (suf0, _cf0) = scaling_list_spec(s, cur0, (size - i + 1) as nat, last0, next0);
            let (suf1, _cf1) = scaling_list_spec(
                s,
                cur,
                (size - i) as nat,
                last_scale as int,
                next_scale as int,
            );
            assert(suf0 == seq![entry as i32] + suf1);
            assert(list@ + suf1 =~= m_total);
        }
    }
    list
}

} // verus!
