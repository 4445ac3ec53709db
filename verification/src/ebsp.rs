//! A bit reader over H.264 encapsulated byte sequence payloads (EBSP).
//!
//! It behaves like [`crate::bits::BitReader`], but while refilling it drops
//! each emulation-prevention byte: after two consecutive `0x00` input bytes
//! a `0x03` is skipped, which turns the transport form `00 00 03 XX` back
//! into `00 00 XX`. [`remove_emulation_prevention_bytes`] performs the same
//! un-escaping eagerly into an owned buffer.

use vstd::prelude::*;
use vstd::arithmetic::power2::{lemma_pow2_strictly_increases, lemma2_to64, lemma2_to64_rest, pow2};
use vstd::arithmetic::div_mod::lemma_fundamental_div_mod_converse;
use crate::bits::{
    bits_value, lemma_bits_value_bound, lemma_bits_value_byte, lemma_bits_value_concat, pow2_u64,
    BitError,
};

verus! {

/// The zero-run counter after one more input byte. The counter saturates:
/// only a run of exactly two zeros arms the escape, and any longer run
/// behaves the same whether it is counted as 3 or more.
pub open spec fn next_zero_count(zc: int, b: u8) -> int {
    if b == 0 {
        if zc < 3 {
            zc + 1
        } else {
            zc
        }
    } else {
        0
    }
}

/// The un-escaped bytes produced from `data[i..]` when the zero-run
/// counter currently stands at `zc`.
pub open spec fn rbsp_from(data: Seq<u8>, i: int, zc: int) -> Seq<u8>
    decreases data.len() - i,
{
    if i < 0 || i >= data.len() {
        Seq::empty()
    } else if zc == 2 && data[i] == 3 {
        rbsp_from(data, i + 1, 0)
    } else {
        seq![data[i]] + rbsp_from(data, i + 1, next_zero_count(zc, data[i]))
    }
}

/// The raw byte sequence payload: `data` with every emulation-prevention
/// byte removed.
pub open spec fn rbsp(data: Seq<u8>) -> Seq<u8> {
    rbsp_from(data, 0, 0)
}

/// The raw position and zero-run counter after emitting `m` more
/// un-escaped bytes from `data[i..]`: escape bytes on the way are
/// consumed, trailing ones are not.
pub open spec fn walker_from(data: Seq<u8>, i: int, zc: int, m: int) -> (int, int)
    decreases data.len() - i,
{
    if m <= 0 || i < 0 || i >= data.len() {
        (i, zc)
    } else if zc == 2 && data[i] == 3 {
        walker_from(data, i + 1, 0, m)
    } else {
        walker_from(data, i + 1, next_zero_count(zc, data[i]), m - 1)
    }
}

/// One step of the walker: past any escape byte, then one emitted byte.
pub open spec fn step_one(data: Seq<u8>, i: int, zc: int) -> (int, int)
    decreases data.len() - i,
{
    if i < 0 || i >= data.len() {
        (i, zc)
    } else if zc == 2 && data[i] == 3 {
        step_one(data, i + 1, 0)
    } else {
        (i + 1, next_zero_count(zc, data[i]))
    }
}

/// Emitting one more byte is one step from wherever the walker stands.
pub proof fn lemma_walker_step(data: Seq<u8>, i: int, zc: int, m: int)
    requires
        0 <= m,
    ensures
        ({
            let (j, z) = walker_from(data, i, zc, m);
            walker_from(data, i, zc, m + 1) == step_one(data, j, z)
        }),
    decreases data.len() - i,
{
    reveal_with_fuel(walker_from, 3);
    reveal_with_fuel(step_one, 3);
    if i < 0 || i >= data.len() {
    } else if zc == 2 && data[i] == 3 {
        lemma_walker_step(data, i + 1, 0, m);
    } else if m == 0 {
    } else {
        lemma_walker_step(data, i + 1, next_zero_count(zc, data[i]), m - 1);
    }
}

/// The raw bytes consumed once `bits` bits of the un-escaped payload
/// have been handed out: the escape bytes crossed on the way included,
/// those that follow the last touched byte not.
pub open spec fn raw_pos(data: Seq<u8>, bits: int) -> int {
    walker_from(data, 0, 0, (bits + 7) / 8).0
}

/// Un-escape an encapsulated payload into an owned buffer.
pub fn remove_emulation_prevention_bytes(data: &[u8]) -> (out: Vec<u8>)
    ensures
        out@ == rbsp(data@),
        out@.len() <= data@.len(),
{
    let mut out: Vec<u8> = Vec::new();
    let mut zc: u8 = 0;
    let mut i: usize = 0;
    while i < data.len()
        invariant
            i <= data@.len(),
            zc <= 3,
            rbsp(data@) == out@ + rbsp_from(data@, i as int, zc as int),
            out@.len() <= i,
        decreases data@.len() - i,
    {
        let b = data[i];
        if zc == 2 && b == 3 {
            zc = 0;
        } else {
            proof {
                assert((out@ + seq![b]) + rbsp_from(
                    data@,
                    i + 1,
                    next_zero_count(zc as int, b),
                ) =~= out@ + (seq![b] + rbsp_from(data@, i + 1, next_zero_count(zc as int, b))));
            }
            out.push(b);
            if b == 0 {
                if zc < 3 {
                    zc = zc + 1;
                }
            } else {
                zc = 0;
            }
        }
        i = i + 1;
    }
    proof {
        assert(out@ =~= rbsp(data@));
    }
    out
}

/// Sticky-error bit reader that un-escapes emulation-prevention bytes on
/// the fly while it refills.
pub struct EbspReader {
    data: Vec<u8>,
    /// Raw input bytes consumed, escape bytes included.
    raw: usize,
    /// Saturating count of the current run of `0x00` input bytes.
    zc: u8,
    /// Un-escaped bytes produced so far.
    emitted: Ghost<int>,
    /// Number of valid low bits of `acc`; at most 7 between calls.
    nbits: u32,
    /// The bits already produced but not yet consumed, as an integer.
    acc: u64,
    err: Option<BitError>,
}

impl EbspReader {
    /// The raw input byte sequence, escapes included.
    pub closed spec fn stream(self) -> Seq<u8> {
        self.data@
    }

    /// The un-escaped payload that reads walk through.
    pub open spec fn payload(self) -> Seq<u8> {
        rbsp(self.stream())
    }

    /// Bits of the un-escaped payload handed out so far.
    pub closed spec fn bits_read(self) -> int {
        8 * self.emitted@ - self.nbits
    }

    /// Raw input bytes consumed so far, escape bytes included.
    pub closed spec fn raw_read(self) -> int {
        self.raw as int
    }

    /// True once any read has failed; reads return 0 from then on.
    pub closed spec fn failed(self) -> bool {
        self.err is Some
    }

    pub closed spec fn error(self) -> Option<BitError> {
        self.err
    }

    pub closed spec fn wf(self) -> bool {
        &&& self.raw <= self.data@.len()
        &&& self.data@.len() <= 0x1000_0000_0000_0000
        &&& self.zc <= 3
        &&& 0 <= self.emitted@ <= self.payload().len()
        &&& self.payload().skip(self.emitted@) == rbsp_from(
            self.data@,
            self.raw as int,
            self.zc as int,
        )
        &&& self.nbits <= 7
        &&& self.nbits <= 8 * self.emitted@
        &&& self.acc == bits_value(self.payload(), self.bits_read(), self.nbits as nat)
        &&& self.acc < pow2(self.nbits as nat)
        &&& self.emitted@ <= self.raw
        &&& !(self.err is Some) ==> (self.raw as int, self.zc as int) == walker_from(
            self.data@,
            0,
            0,
            self.emitted@,
        )
    }

    /// While no read has failed, the raw bytes consumed stand exactly
    /// where the walker puts them for the bits handed out.
    pub proof fn lemma_raw_read_is(self)
        requires
            self.wf(),
            !self.failed(),
        ensures
            self.raw_read() == raw_pos(self.stream(), self.bits_read()),
    {
        let e = self.emitted@;
        let nb = self.nbits as int;
        lemma_fundamental_div_mod_converse(8 * e - nb + 7, 8, e, 7 - nb);
        assert((self.bits_read() + 7) / 8 == e);
    }

    /// What every well-formed reader guarantees about its counters.
    pub proof fn lemma_wf(self)
        requires
            self.wf(),
        ensures
            0 <= self.bits_read() <= 8 * self.payload().len(),
            self.payload().len() <= self.stream().len(),
            0 <= self.raw_read() <= self.stream().len(),
            8 * self.raw_read() >= self.bits_read(),
    {
        lemma_rbsp_from_len(self.data@, 0, 0);
    }

    pub fn new(data: Vec<u8>) -> (r: EbspReader)
        requires
            data@.len() <= 0x1000_0000_0000_0000,
        ensures
            r.wf(),
            r.stream() == data@,
            r.bits_read() == 0,
            r.raw_read() == 0,
            !r.failed(),
            r.error() is None,
    {
        proof {
            lemma2_to64();
            assert(rbsp(data@).skip(0) =~= rbsp(data@));
        }
        EbspReader { data, raw: 0, zc: 0, emitted: Ghost(0), nbits: 0, acc: 0, err: None }
    }

    /// The first error since construction, if any; sticky.
    pub fn acc_error(&self) -> (r: Option<BitError>)
        ensures
            r == self.error(),
            r is Some <==> self.failed(),
    {
        self.err
    }

    /// Record an error; an earlier one is kept. The reader is dead after.
    pub(crate) fn mark_failed(&mut self, e: BitError)
        requires
            old(self).wf(),
        ensures
            final(self).wf(),
            final(self).failed(),
            final(self).stream() == old(self).stream(),
            final(self).error() == if old(self).failed() {
                old(self).error()
            } else {
                Some(e)
            },
            final(self).bits_read() >= old(self).bits_read(),
    {
        proof {
            lemma2_to64();
        }
        if self.err.is_none() {
            self.err = Some(e);
        }
        self.nbits = 0;
        self.acc = 0;
    }

    /// Raw input bytes consumed so far, escape bytes included.
    pub fn nr_bytes_read(&self) -> (r: usize)
        requires
            self.wf(),
        ensures
            r == self.raw_read(),
    {
        self.raw
    }

    /// Consume the next `n` bits of the un-escaped payload, most
    /// significant bit first. Once the payload is exhausted the error
    /// sticks and all reads return 0.
    pub fn read(&mut self, n: u32) -> (r: u32)
        requires
            old(self).wf(),
            n <= 32,
        ensures
            final(self).wf(),
            final(self).stream() == old(self).stream(),
            old(self).failed() ==> final(self).failed() && final(self).error() == old(self).error()
                && r == 0 && final(self).bits_read() == old(self).bits_read() && final(self).raw_read() == old(self).raw_read(),
            !old(self).failed() && old(self).bits_read() + n <= 8 * old(self).payload().len()
                ==> !final(self).failed() && final(self).error() is None && final(self).bits_read()
                == old(self).bits_read() + n && r == bits_value(
                old(self).payload(),
                old(self).bits_read(),
                n as nat,
            ) && old(self).raw_read() <= final(self).raw_read(),
            !old(self).failed() && old(self).bits_read() + n > 8 * old(self).payload().len()
                ==> final(self).failed() && final(self).error() == Some(BitError::Truncated) && r
                == 0,
            final(self).failed() == (old(self).failed() || old(self).bits_read() + n > 8 * old(self).payload().len()),
            final(self).bits_read() >= old(self).bits_read(),
    {
        if self.err.is_some() {
            return 0;
        }
        let ghost start = self.bits_read();
        let ghost full = self.payload();
        while self.nbits < n
            invariant
                n <= 32,
                self.raw <= self.data@.len(),
                self.data@.len() <= 0x1000_0000_0000_0000,
                self.zc <= 3,
                0 <= self.emitted@ <= full.len(),
                full.skip(self.emitted@) == rbsp_from(self.data@, self.raw as int, self.zc as int),
                self.nbits < n + 8,
                self.nbits <= 8 * self.emitted@,
                self.acc == bits_value(full, start, self.nbits as nat),
                self.acc < pow2(self.nbits as nat),
                self.err is None,
                self.data@ == old(self).stream(),
                full == self.payload(),
                start == 8 * self.emitted@ - self.nbits,
                start == old(self).bits_read(),
                old(self).raw_read() <= self.raw,
                self.emitted@ <= self.raw,
                !old(self).failed(),
                (self.raw as int, self.zc as int) == walker_from(self.data@, 0, 0, self.emitted@),
            decreases 8 * (self.data@.len() - self.raw) + 40 - self.nbits,
        {
            let ghost step_from = (self.raw as int, self.zc as int);
            proof {
                lemma_walker_step(self.data@, 0, 0, self.emitted@);
            }
            if self.raw >= self.data.len() {
                // The un-escaped payload is exhausted: emitted == payload
                // length, so start + n runs past its end.
                proof {
                    lemma2_to64();
                    assert(full.skip(self.emitted@).len() == 0);
                }
                self.err = Some(BitError::Truncated);
                self.nbits = 0;
                self.acc = 0;
                return 0;
            }
            let mut b = self.data[self.raw];
            if self.zc == 2 && b == 3 {
                // Emulation-prevention byte: drop it, reset the run. The
                // run is zero after it, so no second escape can follow at
                // once, and the next byte, if any, is emitted.
                proof {
                    assert(rbsp_from(self.data@, self.raw as int, self.zc as int) == rbsp_from(
                        self.data@,
                        self.raw + 1,
                        0,
                    ));
                }
                self.raw = self.raw + 1;
                self.zc = 0;
                if self.raw >= self.data.len() {
                    proof {
                        lemma2_to64();
                        assert(full.skip(self.emitted@).len() == 0);
                    }
                    self.err = Some(BitError::Truncated);
                    self.nbits = 0;
                    self.acc = 0;
                    return 0;
                }
                b = self.data[self.raw];
            }
            proof {
                reveal_with_fuel(step_one, 3);
                assert(step_one(self.data@, step_from.0, step_from.1) == (
                    self.raw + 1,
                    next_zero_count(self.zc as int, b),
                ));
            }
            proof {
                let e = self.emitted@;
                let d = self.data@;
                let r0 = self.raw as int;
                let z0 = self.zc as int;
                let rest = rbsp_from(d, r0 + 1, next_zero_count(z0, b));
                assert(rbsp_from(d, r0, z0) == seq![b] + rest);
                assert(full.skip(e).len() == 1 + rest.len());
                assert(e < full.len());
                assert(full[e] == full.skip(e)[0]);
                assert(full[e] == b);
                assert(full.skip(e + 1) =~= rest) by {
                    assert forall|j: int| 0 <= j < full.len() - (e + 1) implies full.skip(e + 1)[j]
                        == rest[j] by {
                        assert(full.skip(e + 1)[j] == full[e + 1 + j]);
                        assert(full.skip(e)[j + 1] == full[e + 1 + j]);
                        assert(full.skip(e)[j + 1] == (seq![b] + rest)[j + 1]);
                    }
                };
                lemma_bits_value_byte(full, e);
                lemma_bits_value_concat(full, start, self.nbits as nat, 8);
                vstd::arithmetic::power2::lemma_pow2_adds(self.nbits as nat, 8);
                lemma2_to64();
                if self.nbits + 8 < 40 {
                    lemma_pow2_strictly_increases((self.nbits + 8) as nat, 40);
                }
                lemma2_to64_rest();
                assert(self.acc * 256 + b < pow2(self.nbits as nat) * 256) by (nonlinear_arith)
                    requires
                        self.acc < pow2(self.nbits as nat),
                        b < 256,
                ;
            }
            self.acc = self.acc * 256 + (b as u64);
            self.raw = self.raw + 1;
            if b == 0 {
                if self.zc < 3 {
                    self.zc = self.zc + 1;
                }
            } else {
                self.zc = 0;
            }
            proof {
                self.emitted@ = self.emitted@ + 1;
            }
            self.nbits = self.nbits + 8;
        }
        // Split the accumulator: the top n bits are the result, the low
        // nbits - n bits stay buffered.
        let k = self.nbits - n;
        let p = pow2_u64(k as u64);
        let r64 = self.acc / p;
        let rest = self.acc % p;
        proof {
            lemma_bits_value_concat(self.payload(), start, n as nat, k as nat);
            lemma_bits_value_bound(self.payload(), start, n as nat);
            lemma_bits_value_bound(self.payload(), start + n, k as nat);
            lemma_fundamental_div_mod_converse(
                self.acc as int,
                p as int,
                bits_value(self.payload(), start, n as nat) as int,
                bits_value(self.payload(), start + n, k as nat) as int,
            );
            lemma2_to64();
            if n < 32 {
                lemma_pow2_strictly_increases(n as nat, 32);
            }
        }
        self.acc = rest;
        self.nbits = k;
        r64 as u32
    }

    /// Read a single bit as a flag.
    pub fn read_flag(&mut self) -> (r: bool)
        requires
            old(self).wf(),
        ensures
            final(self).wf(),
            final(self).stream() == old(self).stream(),
            old(self).failed() ==> final(self).failed() && final(self).error() == old(self).error()
                && r == false && final(self).bits_read() == old(self).bits_read(),
            !old(self).failed() && old(self).bits_read() + 1 <= 8 * old(self).payload().len()
                ==> !final(self).failed() && final(self).bits_read() == old(self).bits_read() + 1
                && r == (bits_value(old(self).payload(), old(self).bits_read(), 1) == 1),
            !old(self).failed() && old(self).bits_read() + 1 > 8 * old(self).payload().len()
                ==> final(self).failed() && r == false,
            final(self).failed() == (old(self).failed() || old(self).bits_read() + 1 > 8 * old(self).payload().len()),
            final(self).bits_read() >= old(self).bits_read(),
    {
        proof {
            lemma_bits_value_bound(old(self).payload(), old(self).bits_read(), 1);
            lemma2_to64();
        }
        self.read(1) == 1
    }

    /// Read `n` bits and sign-extend from bit `n - 1`.
    pub fn read_signed(&mut self, n: u32) -> (r: i32)
        requires
            old(self).wf(),
            n <= 32,
        ensures
            final(self).wf(),
            final(self).stream() == old(self).stream(),
            old(self).failed() ==> final(self).failed() && r == 0 && final(self).bits_read()
                == old(self).bits_read(),
            !old(self).failed() && old(self).bits_read() + n <= 8 * old(self).payload().len()
                ==> !final(self).failed() && final(self).bits_read() == old(self).bits_read() + n
                && r == crate::bits::sign_extend(
                bits_value(old(self).payload(), old(self).bits_read(), n as nat),
                n as nat,
            ),
            final(self).failed() == (old(self).failed() || old(self).bits_read() + n > 8 * old(self).payload().len()),
    {
        let v = self.read(n);
        if n == 0 {
            return 0;
        }
        proof {
            lemma_bits_value_bound(old(self).payload(), old(self).bits_read(), n as nat);
            vstd::arithmetic::power2::lemma_pow2_adds((n - 1) as nat, 1);
            lemma2_to64();
            if n < 32 {
                lemma_pow2_strictly_increases(n as nat, 32);
            }
        }
        let half = pow2_u64((n - 1) as u64);
        let full = pow2_u64(n as u64);
        if (v as u64) >= half {
            ((v as i64) - (full as i64)) as i32
        } else {
            v as i32
        }
    }
}

/// The un-escaped payload is never longer than its raw input.
pub proof fn lemma_rbsp_from_len(data: Seq<u8>, i: int, zc: int)
    requires
        0 <= i <= data.len(),
    ensures
        rbsp_from(data, i, zc).len() <= data.len() - i,
    decreases data.len() - i,
{
    if i < data.len() {
        if zc == 2 && data[i] == 3 {
            lemma_rbsp_from_len(data, i + 1, 0);
        } else {
            lemma_rbsp_from_len(data, i + 1, next_zero_count(zc, data[i]));
        }
    }
}

} // verus!
