//! A most-significant-bit-first reader over an in-memory byte buffer.
//!
//! The reader keeps a 64-bit accumulator that is refilled one byte at a
//! time and follows a sticky first-error discipline: once a read runs past
//! the end of the input, every later read returns 0 and the first error is
//! reported by [`BitReader::acc_error`].

use vstd::prelude::*;
use vstd::arithmetic::div_mod::{
    lemma_div_denominator, lemma_fundamental_div_mod, lemma_fundamental_div_mod_converse,
};
use vstd::arithmetic::power2::{
    lemma_pow2_adds, lemma_pow2_pos, lemma_pow2_strictly_increases, lemma2_to64, lemma2_to64_rest,
    pow2,
};

verus! {

/// Bit `i` of a byte sequence, counting the most significant bit of each
/// byte first: bit 0 is the top bit of byte 0.
pub open spec fn bit_at(data: Seq<u8>, i: int) -> nat {
    ((data[i / 8] as nat) / pow2((7 - (i % 8)) as nat)) % 2
}

/// The value of the `n` bits of `data` that start at bit index `start`,
/// read most significant first.
pub open spec fn bits_value(data: Seq<u8>, start: int, n: nat) -> nat
    decreases n,
{
    if n == 0 {
        0
    } else {
        bits_value(data, start, (n - 1) as nat) * 2 + bit_at(data, start + n - 1)
    }
}

pub proof fn lemma_bits_value_bound(data: Seq<u8>, start: int, n: nat)
    ensures
        bits_value(data, start, n) < pow2(n),
    decreases n,
{
    if n == 0 {
        lemma_pow2_pos(0);
    } else {
        lemma_bits_value_bound(data, start, (n - 1) as nat);
        lemma_pow2_adds((n - 1) as nat, 1);
        lemma2_to64();
    }
}

/// Reading `a + b` bits is reading `a` bits and then `b` bits.
pub proof fn lemma_bits_value_concat(data: Seq<u8>, start: int, a: nat, b: nat)
    ensures
        bits_value(data, start, a + b) == bits_value(data, start, a) * pow2(b) + bits_value(
            data,
            start + a,
            b,
        ),
    decreases b,
{
    if b == 0 {
        lemma2_to64();
        assert(a + b == a);
        assert(bits_value(data, start + a, 0) == 0);
        assert(bits_value(data, start, a + b) == bits_value(data, start, a) * 1);
    } else {
        let bm1 = (b - 1) as nat;
        lemma_bits_value_concat(data, start, a, bm1);
        lemma_pow2_adds(bm1, 1);
        lemma2_to64();
        let va = bits_value(data, start, a);
        let v1 = bits_value(data, start + a, bm1);
        let bit = bit_at(data, start + a + b - 1);
        assert((a + b - 1) as nat == a + bm1);
        assert(bits_value(data, start, a + b) == bits_value(data, start, a + bm1) * 2 + bit);
        assert(bits_value(data, start + a, b) == v1 * 2 + bit);
        assert(bits_value(data, start, a + bm1) == va * pow2(bm1) + v1);
        assert((va * pow2(bm1) + v1) * 2 + bit == va * pow2(b) + (v1 * 2 + bit))
            by (nonlinear_arith)
            requires
                pow2(b) == pow2(bm1) * 2,
        ;
        assert(bits_value(data, start, a + b) == va * pow2(b) + bits_value(data, start + a, b));
    }
}

/// Within one byte, the first `n` bits are the byte's top `n` bits.
proof fn lemma_bits_value_byte_prefix(data: Seq<u8>, i: int, n: nat)
    requires
        0 <= i < data.len(),
        n <= 8,
    ensures
        bits_value(data, 8 * i, n) == (data[i] as nat) / pow2((8 - n) as nat),
    decreases n,
{
    let b = data[i] as nat;
    if n == 0 {
        lemma2_to64();
        assert(b / 256 == 0) by (nonlinear_arith)
            requires
                b < 256,
        ;
    } else {
        lemma_bits_value_byte_prefix(data, i, (n - 1) as nat);
        // The bit at index 8*i + n - 1 lies in byte i at offset n - 1.
        assert((8 * i + n - 1) / 8 == i && (8 * i + n - 1) % 8 == n - 1) by (nonlinear_arith)
            requires
                0 <= n - 1 < 8,
        ;
        assert(bit_at(data, 8 * i + n - 1) == (b / pow2((8 - n) as nat)) % 2);
        let p = pow2((8 - n) as nat);
        lemma_pow2_pos((8 - n) as nat);
        lemma_pow2_adds((8 - n) as nat, 1);
        lemma2_to64();
        // b / (2p) == (b / p) / 2, then rebuild with the fundamental identity.
        lemma_div_denominator(b as int, p as int, 2);
        lemma_fundamental_div_mod((b / p) as int, 2);
    }
}

/// A single bit read is the bit itself.
pub proof fn lemma_bits_value_one(data: Seq<u8>, i: int)
    ensures
        bits_value(data, i, 1) == bit_at(data, i),
{
    assert(bits_value(data, i, 0) == 0);
    assert(bits_value(data, i, 1) == bits_value(data, i, 0) * 2 + bit_at(data, i + 1 - 1));
}

/// Byte `i` of the stream is the value of bits `8*i .. 8*i + 8`.
pub proof fn lemma_bits_value_byte(data: Seq<u8>, i: int)
    requires
        0 <= i < data.len(),
    ensures
        bits_value(data, 8 * i, 8) == data[i],
{
    lemma_bits_value_byte_prefix(data, i, 8);
    lemma2_to64();
}

/// 2 to the power `k` as an executable value.
pub fn pow2_u64(k: u64) -> (r: u64)
    requires
        k <= 62,
    ensures
        r == pow2(k as nat),
        r >= 1,
{
    let mut i: u64 = 0;
    let mut r: u64 = 1;
    proof {
        lemma2_to64();
    }
    while i < k
        invariant
            i <= k <= 62,
            r == pow2(i as nat),
        decreases k - i,
    {
        proof {
            lemma_pow2_adds(i as nat, 1);
            lemma2_to64();
            if i + 1 < 63 {
                lemma_pow2_strictly_increases((i + 1) as nat, 63);
            }
            lemma2_to64_rest();
        }
        r = r * 2;
        i = i + 1;
    }
    proof {
        lemma_pow2_pos(k as nat);
    }
    r
}

/// The first `n` bits only depend on the bytes they lie in, so a longer
/// buffer that agrees on a prefix gives the same value.
pub proof fn lemma_bits_value_agree(s1: Seq<u8>, s2: Seq<u8>, start: int, n: nat)
    requires
        0 <= start,
        start + n <= 8 * s1.len(),
        s1.len() <= s2.len(),
        forall|j: int| 0 <= j < s1.len() ==> s1[j] == s2[j],
    ensures
        bits_value(s1, start, n) == bits_value(s2, start, n),
    decreases n,
{
    if n > 0 {
        lemma_bits_value_agree(s1, s2, start, (n - 1) as nat);
        let i = start + n - 1;
        assert(0 <= i / 8 < s1.len()) by (nonlinear_arith)
            requires
                0 <= i < 8 * s1.len(),
        ;
        assert(s1[i / 8] == s2[i / 8]);
        assert(bit_at(s1, i) == bit_at(s2, i));
    }
}

/// The first error a reader or writer ran into.
#[derive(Clone, Copy, Debug, PartialEq, Eq, Structural)]
pub enum BitError {
    /// A read ran past the end of the input.
    Truncated,
    /// A whole-byte operation was asked for while not byte-aligned.
    NotAligned,
    /// A variable-length code ran past the supported range.
    Overflow,
}

/// Sticky-error bit reader over an owned byte buffer.
pub struct BitReader {
    data: Vec<u8>,
    /// Bytes moved from `data` into the accumulator so far.
    loaded: usize,
    /// Number of valid low bits of `acc`; at most 7 between calls.
    nbits: u32,
    /// The bits already loaded but not yet consumed, as an integer.
    acc: u64,
    err: Option<BitError>,
}

impl BitReader {
    /// The input byte sequence.
    pub closed spec fn stream(self) -> Seq<u8> {
        self.data@
    }

    /// Bits handed out to the caller so far.
    pub closed spec fn bits_read(self) -> int {
        8 * self.loaded - self.nbits
    }

    /// Bytes pulled from the input so far (partially consumed bytes count).
    pub closed spec fn bytes_loaded(self) -> int {
        self.loaded as int
    }

    /// True once any read has failed; reads return 0 from then on.
    pub closed spec fn failed(self) -> bool {
        self.err is Some
    }

    pub closed spec fn error(self) -> Option<BitError> {
        self.err
    }

    pub closed spec fn wf(self) -> bool {
        &&& self.loaded <= self.data@.len()
        &&& self.data@.len() <= 0x1000_0000_0000_0000
        &&& self.nbits <= 7
        &&& self.nbits <= 8 * self.loaded
        &&& self.acc == bits_value(self.data@, self.bits_read(), self.nbits as nat)
        &&& self.acc < pow2(self.nbits as nat)
    }

    /// Bytes pulled so far round the consumed bits up to whole bytes.
    pub proof fn lemma_bytes_loaded_is_ceil(self)
        requires
            self.wf(),
        ensures
            self.bytes_loaded() == (self.bits_read() + 7) / 8,
    {
        lemma_fundamental_div_mod_converse(
            self.bits_read() + 7,
            8,
            self.loaded as int,
            7 - self.nbits,
        );
    }

    /// What every well-formed reader guarantees about its counters.
    pub proof fn lemma_wf(self)
        requires
            self.wf(),
        ensures
            0 <= self.bits_read() <= 8 * self.stream().len(),
            self.bits_read() <= 8 * self.bytes_loaded() <= self.bits_read() + 7,
            self.bytes_loaded() <= self.stream().len(),
            self.stream().len() <= 0x1000_0000_0000_0000,
    {
    }

    pub fn new(data: Vec<u8>) -> (r: BitReader)
        requires
            data@.len() <= 0x1000_0000_0000_0000,
        ensures
            r.wf(),
            r.stream() == data@,
            r.bits_read() == 0,
            r.bytes_loaded() == 0,
            !r.failed(),
            r.error() is None,
    {
        proof {
            lemma2_to64();
        }
        BitReader { data, loaded: 0, nbits: 0, acc: 0, err: None }
    }

    /// The first error since construction, if any; sticky.
    pub fn acc_error(&self) -> (r: Option<BitError>)
        ensures
            r == self.error(),
            r is Some <==> self.failed(),
    {
        self.err
    }

    /// Record an error; an earlier one is kept. The reader is dead after.
    pub(crate) fn mark_failed(&mut self, e: BitError)
        requires
            old(self).wf(),
        ensures
            final(self).wf(),
            final(self).failed(),
            final(self).stream() == old(self).stream(),
            final(self).error() == if old(self).failed() {
                old(self).error()
            } else {
                Some(e)
            },
            final(self).bits_read() >= old(self).bits_read(),
    {
        proof {
            lemma2_to64();
        }
        if self.err.is_none() {
            self.err = Some(e);
        }
        self.nbits = 0;
        self.acc = 0;
    }

    /// Bits handed out so far.
    pub fn nr_bits_read(&self) -> (r: u64)
        requires
            self.wf(),
        ensures
            r == self.bits_read(),
    {
        proof {
            self.lemma_wf();
        }
        8 * (self.loaded as u64) - (self.nbits as u64)
    }

    /// Bytes pulled from the input so far; a partially consumed byte counts.
    pub fn nr_bytes_read(&self) -> (r: usize)
        requires
            self.wf(),
        ensures
            r == self.bytes_loaded(),
    {
        self.loaded
    }

    /// Position within the current byte: 0 when byte-aligned.
    pub fn nr_bits_read_in_current_byte(&self) -> (r: u32)
        requires
            self.wf(),
        ensures
            r == self.bits_read() % 8,
    {
        proof {
            self.lemma_wf();
            lemma_fundamental_div_mod_converse(
                self.bits_read(),
                8,
                if self.nbits == 0 { self.loaded as int } else { self.loaded - 1 },
                if self.nbits == 0 { 0int } else { 8 - self.nbits },
            );
        }
        if self.nbits == 0 {
            0
        } else {
            8 - self.nbits
        }
    }

    /// Consume the next `n` bits and return them as an integer, most
    /// significant bit first. Once the input is exhausted the error sticks
    /// and all reads return 0.
    pub fn read(&mut self, n: u32) -> (r: u32)
        requires
            old(self).wf(),
            n <= 32,
        ensures
            final(self).wf(),
            final(self).stream() == old(self).stream(),
            old(self).failed() ==> final(self).failed() && final(self).error() == old(self).error() && r == 0 && final(self).bits_read() == old(self).bits_read() && final(self).bytes_loaded() == old(self).bytes_loaded(),
            !old(self).failed() && old(self).bits_read() + n <= 8 * old(self).stream().len()
                ==> !final(self).failed() && final(self).error() is None && final(self).bits_read()
                == old(self).bits_read() + n && r == bits_value(
                old(self).stream(),
                old(self).bits_read(),
                n as nat,
            ) && old(self).bytes_loaded() <= final(self).bytes_loaded(),
            !old(self).failed() && old(self).bits_read() + n > 8 * old(self).stream().len()
                ==> final(self).failed() && final(self).error() == Some(BitError::Truncated) && r
                == 0,
            final(self).failed() == (old(self).failed() || old(self).bits_read() + n > 8 * old(self).stream().len()),
            final(self).bits_read() >= old(self).bits_read(),
    {
        if self.err.is_some() {
            return 0;
        }
        let ghost start = self.bits_read();
        while self.nbits < n
            invariant
                n <= 32,
                self.loaded <= self.data@.len(),
                self.data@.len() <= 0x1000_0000_0000_0000,
                self.nbits < n + 8,
                self.nbits <= 8 * self.loaded,
                self.acc == bits_value(self.data@, start, self.nbits as nat),
                self.acc < pow2(self.nbits as nat),
                self.err is None,
                self.data@ == old(self).stream(),
                start == 8 * self.loaded - self.nbits,
                start == old(self).bits_read(),
                old(self).bytes_loaded() <= self.loaded,
                !old(self).failed(),
            decreases n + 8 - self.nbits,
        {
            if self.loaded >= self.data.len() {
                // bits_read == 8 * loaded - nbits with loaded == len and
                // nbits < n, so start + n runs past the end of the input.
                proof {
                    lemma2_to64();
                }
                self.err = Some(BitError::Truncated);
                self.nbits = 0;
                self.acc = 0;
                return 0;
            }
            let b = self.data[self.loaded];
            proof {
                lemma_bits_value_byte(self.data@, self.loaded as int);
                lemma_bits_value_concat(self.data@, start, self.nbits as nat, 8);
                lemma_pow2_adds(self.nbits as nat, 8);
                lemma2_to64();
                if self.nbits + 8 < 40 {
                    lemma_pow2_strictly_increases((self.nbits + 8) as nat, 40);
                }
                lemma2_to64_rest();
                assert(self.acc * 256 + b < pow2(self.nbits as nat) * 256) by (nonlinear_arith)
                    requires
                        self.acc < pow2(self.nbits as nat),
                        b < 256,
                ;
            }
            self.acc = self.acc * 256 + (b as u64);
            self.loaded = self.loaded + 1;
            self.nbits = self.nbits + 8;
        }
        // Split the accumulator: the top n bits are the result, the low
        // nbits - n bits stay buffered.
        let k = self.nbits - n;
        let p = pow2_u64(k as u64);
        let r64 = self.acc / p;
        let rest = self.acc % p;
        proof {
            lemma_bits_value_concat(self.data@, start, n as nat, k as nat);
            lemma_bits_value_bound(self.data@, start, n as nat);
            lemma_bits_value_bound(self.data@, start + n, k as nat);
            lemma_fundamental_div_mod_converse(
                self.acc as int,
                p as int,
                bits_value(self.data@, start, n as nat) as int,
                bits_value(self.data@, start + n, k as nat) as int,
            );
            lemma2_to64();
            if n < 32 {
                lemma_pow2_strictly_increases(n as nat, 32);
            }
        }
        self.acc = rest;
        self.nbits = k;
        r64 as u32
    }

    /// Read a single bit as a flag.
    pub fn read_flag(&mut self) -> (r: bool)
        requires
            old(self).wf(),
        ensures
            final(self).wf(),
            final(self).stream() == old(self).stream(),
            old(self).failed() ==> final(self).failed() && final(self).error() == old(self).error() && r == false && final(self).bits_read() == old(self).bits_read(),
            !old(self).failed() && old(self).bits_read() + 1 <= 8 * old(self).stream().len()
                ==> !final(self).failed() && final(self).bits_read() == old(self).bits_read() + 1
                && r == (bits_value(old(self).stream(), old(self).bits_read(), 1) == 1),
            !old(self).failed() && old(self).bits_read() + 1 > 8 * old(self).stream().len()
                ==> final(self).failed() && r == false,
            final(self).failed() == (old(self).failed() || old(self).bits_read() + 1 > 8 * old(self).stream().len()),
            final(self).bits_read() >= old(self).bits_read(),
    {
        proof {
            lemma_bits_value_bound(old(self).stream(), old(self).bits_read(), 1);
            lemma2_to64();
        }
        self.read(1) == 1
    }

    /// Read `n` bits and sign-extend from bit `n - 1`.
    pub fn read_signed(&mut self, n: u32) -> (r: i32)
        requires
            old(self).wf(),
            n <= 32,
        ensures
            final(self).wf(),
            final(self).stream() == old(self).stream(),
            old(self).failed() ==> final(self).failed() && r == 0 && final(self).bits_read()
                == old(self).bits_read(),
            !old(self).failed() && old(self).bits_read() + n <= 8 * old(self).stream().len()
                ==> !final(self).failed() && final(self).bits_read() == old(self).bits_read() + n
                && r == sign_extend(
                bits_value(old(self).stream(), old(self).bits_read(), n as nat),
                n as nat,
            ),
            final(self).failed() == (old(self).failed() || old(self).bits_read() + n > 8 * old(self).stream().len()),
    {
        let v = self.read(n);
        if n == 0 {
            return 0;
        }
        proof {
            lemma_bits_value_bound(old(self).stream(), old(self).bits_read(), n as nat);
            lemma_pow2_adds((n - 1) as nat, 1);
            lemma2_to64();
            if n < 32 {
                lemma_pow2_strictly_increases(n as nat, 32);
            }
        }
        let half = pow2_u64((n - 1) as u64);
        let full = pow2_u64(n as u64);
        if (v as u64) >= half {
            ((v as i64) - (full as i64)) as i32
        } else {
            v as i32
        }
    }

    /// The remaining input, valid only at a byte boundary; otherwise the
    /// alignment error is recorded and the result is empty.
    pub fn read_remaining_bytes(&mut self) -> (r: Vec<u8>)
        requires
            old(self).wf(),
        ensures
            final(self).wf(),
            final(self).stream() == old(self).stream(),
            old(self).failed() ==> final(self).failed() && final(self).error() == old(self).error() && r@ == Seq::<u8>::empty(),
            !old(self).failed() && old(self).bits_read() % 8 == 0 ==> !final(self).failed() && r@
                == old(self).stream().skip(old(self).bits_read() / 8) && final(self).bits_read()
                == 8 * final(self).stream().len(),
            !old(self).failed() && old(self).bits_read() % 8 != 0 ==> final(self).failed() && final(self).error() == Some(BitError::NotAligned) && r@ == Seq::<u8>::empty(),
    {
        if self.err.is_some() {
            return Vec::new();
        }
        if self.nbits != 0 {
            proof {
                self.lemma_wf();
                lemma_fundamental_div_mod_converse(
                    self.bits_read(),
                    8,
                    self.loaded - 1,
                    8 - self.nbits,
                );
            }
            proof {
                lemma2_to64();
            }
            self.err = Some(BitError::NotAligned);
            self.nbits = 0;
            self.acc = 0;
            return Vec::new();
        }
        proof {
            lemma_fundamental_div_mod_converse(self.bits_read(), 8, self.loaded as int, 0);
        }
        let mut out: Vec<u8> = Vec::new();
        let ghost from = self.loaded as int;
        while self.loaded < self.data.len()
            invariant
                0 <= from <= self.loaded <= self.data@.len(),
                self.data@.len() <= 0x1000_0000_0000_0000,
                self.nbits == 0,
                self.acc == 0,
                self.err is None,
                self.data@ == old(self).stream(),
                out@ == self.data@.subrange(from, self.loaded as int),
            decreases self.data@.len() - self.loaded,
        {
            let b = self.data[self.loaded];
            out.push(b);
            self.loaded = self.loaded + 1;
            proof {
                assert(out@ =~= self.data@.subrange(from, self.loaded as int));
            }
        }
        proof {
            lemma2_to64();
            assert(out@ =~= self.data@.skip(from));
        }
        out
    }
}

/// Interpret an `n`-bit value as a two's-complement signed integer.
pub open spec fn sign_extend(v: nat, n: nat) -> int {
    if n == 0 {
        0
    } else if v >= pow2((n - 1) as nat) {
        v - pow2(n)
    } else {
        v as int
    }
}

} // verus!
