//! A most-significant-bit-first writer that accumulates bits into an
//! in-memory buffer.
//!
//! The written stream is modelled as one integer: writing `n` bits shifts
//! the stream left by `n` and adds the low `n` bits of the argument.
//! [`BitWriter::flush`] pads the last byte with zero bits.

use vstd::prelude::*;
use vstd::arithmetic::div_mod::lemma_fundamental_div_mod;
use vstd::arithmetic::power2::{lemma_pow2_adds, lemma_pow2_pos, lemma2_to64, lemma2_to64_rest, pow2};
use crate::bits::{
    bits_value, lemma_bits_value_agree, lemma_bits_value_bound, lemma_bits_value_byte,
    lemma_bits_value_concat, pow2_u64, BitError,
};

verus! {

/// Sticky-error bit writer over an owned byte buffer.
pub struct BitWriter {
    out: Vec<u8>,
    /// Number of valid low bits of `acc`; at most 7 between calls.
    nbits: u32,
    /// The bits not yet flushed into a whole byte, as an integer.
    acc: u64,
}

impl BitWriter {
    /// Bits written so far.
    pub closed spec fn written_len(self) -> int {
        8 * self.out@.len() + self.nbits
    }

    /// The whole written bit stream, as an integer with the first bit
    /// most significant.
    pub closed spec fn written_val(self) -> nat {
        (bits_value(self.out@, 0, (8 * self.out@.len()) as nat) * pow2(self.nbits as nat)
            + self.acc) as nat
    }

    /// Bits that still sit in the accumulator, not yet part of a byte.
    pub closed spec fn buffered(self) -> int {
        self.nbits as int
    }

    pub closed spec fn wf(self) -> bool {
        &&& self.nbits <= 7
        &&& self.acc < pow2(self.nbits as nat)
    }

    /// What every well-formed writer guarantees about its counters.
    pub proof fn lemma_wf(self)
        requires
            self.wf(),
        ensures
            0 <= self.buffered() <= 7,
            self.buffered() == self.written_len() % 8,
            self.written_len() >= 0,
    {
        vstd::arithmetic::div_mod::lemma_fundamental_div_mod_converse(
            self.written_len(),
            8,
            self.out@.len() as int,
            self.nbits as int,
        );
    }

    /// Create a writer with an empty buffer.
    pub fn new() -> (r: BitWriter)
        ensures
            r.wf(),
            r.written_len() == 0,
            r.written_val() == 0,
            r.buffered() == 0,
    {
        proof {
            lemma2_to64();
        }
        BitWriter { out: Vec::new(), nbits: 0, acc: 0 }
    }

    /// Writing into an in-memory buffer cannot fail; kept so that callers
    /// can follow the same sticky-error discipline as with the readers.
    pub fn acc_error(&self) -> (r: Option<BitError>)
        ensures
            r is None,
    {
        None
    }

    /// Append the low `n` bits of `bits` to the stream.
    pub fn write(&mut self, bits: u32, n: u32)
        requires
            old(self).wf(),
            n <= 32,
        ensures
            final(self).wf(),
            final(self).written_len() == old(self).written_len() + n,
            final(self).written_val() == old(self).written_val() * pow2(n as nat) + (
            bits as nat) % pow2(n as nat),
    {
        proof {
            lemma_pow2_pos(n as nat);
            lemma_pow2_adds(self.nbits as nat, n as nat);
            lemma2_to64();
            lemma2_to64_rest();
            if self.nbits + n < 40 {
                vstd::arithmetic::power2::lemma_pow2_strictly_increases(
                    (self.nbits + n) as nat,
                    40,
                );
            }
            assert(self.acc * pow2(n as nat) + (bits as nat) % pow2(n as nat) < pow2(
                self.nbits as nat,
            ) * pow2(n as nat)) by (nonlinear_arith)
                requires
                    self.acc < pow2(self.nbits as nat),
                    (bits as nat) % pow2(n as nat) < pow2(n as nat),
                    pow2(n as nat) > 0,
            ;
        }
        let m = pow2_u64(n as u64);
        let low = (bits as u64) % m;
        let ghost w0 = self.written_val();
        let ghost l0 = self.written_len();
        proof {
            assert(bits_value(self.out@, 0, (8 * self.out@.len()) as nat) * pow2(
                (self.nbits + n) as nat,
            ) + (self.acc * pow2(n as nat) + low) == w0 * pow2(n as nat) + low)
                by (nonlinear_arith)
                requires
                    pow2((self.nbits + n) as nat) == pow2(self.nbits as nat) * pow2(n as nat),
                    w0 == bits_value(self.out@, 0, (8 * self.out@.len()) as nat) * pow2(
                        self.nbits as nat,
                    ) + self.acc,
            ;
        }
        self.acc = self.acc * m + low;
        self.nbits = self.nbits + n;
        // Move completed bytes out of the accumulator.
        while self.nbits >= 8
            invariant
                self.nbits <= 39,
                self.acc < pow2(self.nbits as nat),
                8 * self.out@.len() + self.nbits == l0 + n,
                bits_value(self.out@, 0, (8 * self.out@.len()) as nat) * pow2(self.nbits as nat)
                    + self.acc == w0 * pow2(n as nat) + (bits as nat) % pow2(n as nat),
            decreases self.nbits,
        {
            proof {
                lemma_pow2_adds((self.nbits - 8) as nat, 8);
                lemma2_to64();
            }
            let p8 = pow2_u64((self.nbits - 8) as u64);
            let hi = self.acc / p8;
            proof {
                lemma_fundamental_div_mod(self.acc as int, p8 as int);
                assert(hi < 256) by (nonlinear_arith)
                    requires
                        p8 > 0,
                        self.acc < p8 * 256,
                        self.acc == p8 * (self.acc as int / p8 as int) + self.acc as int
                            % p8 as int,
                        hi == self.acc as int / p8 as int,
                        self.acc % p8 >= 0,
                ;
            }
            let b = hi as u8;
            let ghost out0 = self.out@;
            let ghost bytes0 = bits_value(out0, 0, (8 * out0.len()) as nat);
            self.out.push(b);
            proof {
                lemma_bits_value_agree(out0, self.out@, 0, (8 * out0.len()) as nat);
                lemma_bits_value_concat(self.out@, 0, (8 * out0.len()) as nat, 8);
                lemma_bits_value_byte(self.out@, out0.len() as int);
                assert(bits_value(self.out@, 0, (8 * self.out@.len()) as nat) == bytes0 * 256 + b);
                let nb = (self.nbits - 8) as nat;
                assert((bytes0 * 256 + b) * pow2(nb) + (self.acc % p8) == bytes0 * (256 * pow2(nb))
                    + (b * pow2(nb) + self.acc % p8)) by (nonlinear_arith);
                assert(b * pow2(nb) + self.acc % p8 == self.acc) by (nonlinear_arith)
                    requires
                        self.acc == p8 * (self.acc as int / p8 as int) + self.acc as int
                            % p8 as int,
                        b == self.acc as int / p8 as int,
                        p8 == pow2(nb),
                ;
            }
            self.acc = self.acc % p8;
            self.nbits = self.nbits - 8;
        }
    }

    /// Pad the stream with zero bits up to the next byte boundary and
    /// move everything into the byte buffer.
    pub fn flush(&mut self)
        requires
            old(self).wf(),
        ensures
            final(self).wf(),
            final(self).buffered() == 0,
            final(self).written_len() % 8 == 0,
            old(self).written_len() <= final(self).written_len() < old(self).written_len() + 8,
            final(self).written_val() == old(self).written_val() * pow2(
                (final(self).written_len() - old(self).written_len()) as nat,
            ),
    {
        proof {
            lemma2_to64();
        }
        if self.nbits != 0 {
            let pad = 8 - self.nbits;
            proof {
                lemma_pow2_adds(self.nbits as nat, pad as nat);
                lemma2_to64();
                assert(self.acc * pow2(pad as nat) < pow2(self.nbits as nat) * pow2(pad as nat))
                    by (nonlinear_arith)
                    requires
                        self.acc < pow2(self.nbits as nat),
                        pow2(pad as nat) > 0,
                ;
            }
            let pp = pow2_u64(pad as u64);
            let b = (self.acc * pp) as u8;
            let ghost out0 = self.out@;
            let ghost bytes0 = bits_value(out0, 0, (8 * out0.len()) as nat);
            let ghost w0 = self.written_val();
            self.out.push(b);
            proof {
                lemma_bits_value_agree(out0, self.out@, 0, (8 * out0.len()) as nat);
                lemma_bits_value_concat(self.out@, 0, (8 * out0.len()) as nat, 8);
                lemma_bits_value_byte(self.out@, out0.len() as int);
                assert(bits_value(self.out@, 0, (8 * self.out@.len()) as nat) == bytes0 * 256 + b);
                assert((bytes0 * 256 + self.acc * pow2(pad as nat)) * pow2(0) == (bytes0 * pow2(
                    self.nbits as nat,
                ) + self.acc) * pow2(pad as nat)) by (nonlinear_arith)
                    requires
                        pow2(self.nbits as nat) * pow2(pad as nat) == 256,
                        pow2(0) == 1,
                ;
            }
            self.acc = 0;
            self.nbits = 0;
            proof {
                vstd::arithmetic::div_mod::lemma_mod_multiples_basic(
                    self.out@.len() as int,
                    8,
                );
            }
        } else {
            proof {
                vstd::arithmetic::div_mod::lemma_mod_multiples_basic(
                    self.out@.len() as int,
                    8,
                );
            }
        }
    }

    /// The finished buffer; call [`BitWriter::flush`] first.
    pub fn into_bytes(self) -> (r: Vec<u8>)
        requires
            self.wf(),
            self.buffered() == 0,
        ensures
            8 * r@.len() == self.written_len(),
            bits_value(r@, 0, (8 * r@.len()) as nat) == self.written_val(),
    {
        proof {
            lemma2_to64();
        }
        self.out
    }
}

} // verus!
