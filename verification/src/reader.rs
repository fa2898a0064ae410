//! The primitive decoder: a forward cursor over an in-memory byte source.
//!
//! Every read checks that the requested bytes are there and fails with
//! [`ObbyError::Truncated`] otherwise; the cursor only moves forward on its
//! own, and [`BinaryReader::seek`] repositions it absolutely.

use vstd::prelude::*;

use crate::error::ObbyError;
use crate::format::{
    lossy_utf8_of, spec_read, spec_string, spec_u32, spec_varint, lemma_varint_bounds,
};

verus! {

/// A byte source with a cursor. Reads decode fixed-width and
/// variable-width primitives at the cursor and advance it.
pub struct BinaryReader {
    data: Vec<u8>,
    pos: u64,
}

/// Relies on `String::from_utf8_lossy` (with `Cow::into_owned`): UTF-8
/// decoding that replaces malformed sequences instead of failing. The result
/// depends on the bytes alone, and valid UTF-8 decodes losslessly.
#[verifier::external_body]
fn utf8_lossy(bytes: &Vec<u8>) -> (r: String)
    ensures
        r@ == lossy_utf8_of(bytes@),
        vstd::utf8::valid_utf8(bytes@) ==> r@ == vstd::utf8::decode_utf8(bytes@),
{
    String::from_utf8_lossy(bytes.as_slice()).into_owned()
}

impl BinaryReader {
    /// The whole byte source the cursor walks over.
    pub closed spec fn source(&self) -> Seq<u8> {
        self.data@
    }

    /// The cursor's absolute position. A seek may place it past the end of
    /// the source; every read checks bounds itself.
    pub closed spec fn position(&self) -> int {
        self.pos as int
    }

    /// Wraps a byte buffer, with the cursor at its start.
    pub fn new(data: Vec<u8>) -> (r: BinaryReader)
        ensures
            r.source() == data@,
            r.position() == 0,
    {
        BinaryReader { data, pos: 0 }
    }

    /// A byte source fits in memory, so its length is bounded by the
    /// address space.
    pub proof fn lemma_source_len(&self)
        ensures
            self.source().len() <= usize::MAX,
    {
        assert(self.data@.len() == self.data.len());
    }

    /// The cursor's absolute position, as the callers' offset bookkeeping
    /// reads it.
    pub fn stream_position(&self) -> (r: u64)
        ensures
            r as int == self.position(),
    {
        self.pos
    }

    /// Moves the cursor to the absolute position `p`.
    pub fn seek(&mut self, p: u64)
        ensures
            final(self).source() == old(self).source(),
            final(self).position() == p as int,
    {
        self.pos = p;
    }

    /// Reads the single byte at the cursor.
    pub fn read_u8(&mut self) -> (r: Result<u8, ObbyError>)
        ensures
            final(self).source() == old(self).source(),
            match r {
                Ok(b) => old(self).position() < old(self).source().len() && b == old(
                    self,
                ).source()[old(self).position()] && final(self).position() == old(self).position()
                    + 1,
                Err(e) => e == ObbyError::Truncated && old(self).position() >= old(
                    self,
                ).source().len() && final(self).position() == old(self).position(),
            },
    {
        if self.pos < self.data.len() as u64 {
            let b = self.data[self.pos as usize];
            self.pos = self.pos + 1;
            Ok(b)
        } else {
            Err(ObbyError::Truncated)
        }
    }

    /// Reads exactly `n` bytes at the cursor into an owned buffer.
    pub fn read_bytes(&mut self, n: usize) -> (r: Result<Vec<u8>, ObbyError>)
        ensures
            final(self).source() == old(self).source(),
            match r {
                Ok(buf) => spec_read(old(self).source(), old(self).position(), n as int) == Some(
                    buf@,
                ) && final(self).position() == old(self).position() + n,
                Err(e) => e == ObbyError::Truncated && spec_read(
                    old(self).source(),
                    old(self).position(),
                    n as int,
                ) is None && final(self).position() == old(self).position(),
            },
    {
        if n == 0 {
            return Ok(Vec::new());
        }
        let len_u64 = self.data.len() as u64;
        if self.pos >= len_u64 || (n as u64) > len_u64 - self.pos {
            return Err(ObbyError::Truncated);
        }
        let start = self.pos as usize;
        let mut buf: Vec<u8> = Vec::new();
        let mut k: usize = 0;
        while k < n
            invariant
                k <= n,
                start + n <= self.data@.len(),
                start + n <= usize::MAX,
                buf@.len() == k,
                forall|j: int| 0 <= j < k ==> buf@[j] == self.data@[start + j],
            decreases n - k,
        {
            let b = self.data[start + k];
            buf.push(b);
            k = k + 1;
        }
        assert(buf@ =~= self.data@.subrange(start as int, start as int + n as int));
        self.pos = self.pos + n as u64;
        Ok(buf)
    }

    /// Reads a 32-bit little-endian field at the cursor. The wire declares
    /// these fields signed; the caller interprets values of `0x8000_0000`
    /// and above as negative.
    pub fn read_u32_le(&mut self) -> (r: Result<u32, ObbyError>)
        ensures
            final(self).source() == old(self).source(),
            match r {
                Ok(v) => spec_u32(old(self).source(), old(self).position()) == Some(
                    (v as nat, old(self).position() + 4),
                ) && final(self).position() == old(self).position() + 4,
                Err(e) => e == ObbyError::Truncated && spec_u32(
                    old(self).source(),
                    old(self).position(),
                ) is None && final(self).position() == old(self).position(),
            },
    {
        let buf = match self.read_bytes(4) {
            Ok(b) => b,
            Err(e) => {
                return Err(e);
            },
        };
        let v: u32 = (buf[0] as u32) + (buf[1] as u32) * 0x100 + (buf[2] as u32) * 0x10000 + (
        buf[3] as u32) * 0x1000000;
        Ok(v)
    }

    /// Reads a base-128 varint at the cursor. A value too large for `u64`
    /// cannot prefix anything that fits in memory, so it is reported as the
    /// truncation it will become.
    pub fn read_varint(&mut self) -> (r: Result<u64, ObbyError>)
        ensures
            final(self).source() == old(self).source(),
            match r {
                Ok(v) => spec_varint(old(self).source(), old(self).position()) == Some(
                    (v as nat, final(self).position()),
                ),
                Err(e) => e == ObbyError::Truncated && match spec_varint(
                    old(self).source(),
                    old(self).position(),
                ) {
                    None => true,
                    Some((v, j)) => v > u64::MAX,
                },
            },
    {
        let ghost s = self.source();
        let ghost pos0 = self.position();
        if self.pos >= self.data.len() as u64 {
            return Err(ObbyError::Truncated);
        }
        let mut val: u64 = 0;
        let mut mult: u64 = 1;
        let mut mult_ok: bool = true;
        let mut too_big: bool = false;
        let ghost mut acc: nat = 0;
        let ghost mut gmult: nat = 1;
        loop
            invariant
                s == old(self).source(),
                pos0 == old(self).position(),
                self.source() == s,
                pos0 <= self.position() <= s.len(),
                too_big <==> acc > u64::MAX,
                !too_big ==> val as nat == acc,
                mult_ok ==> gmult == mult as nat,
                !mult_ok ==> gmult > u64::MAX,
                match spec_varint(s, self.position()) {
                    None => spec_varint(s, pos0) is None,
                    Some((v, j)) => spec_varint(s, pos0) == Some(((acc + gmult * v) as nat, j)),
                },
            decreases s.len() - self.position(),
        {
            let ghost cur = self.position();
            let ghost acc0 = acc;
            let ghost gmult0 = gmult;
            let b = match self.read_u8() {
                Ok(b) => b,
                Err(e) => {
                    return Err(e);
                },
            };
            let low: u64 = (b % 128) as u64;
            let ghost g: nat = low as nat;
            let ghost term: nat = gmult0 * g;
            proof {
                lemma_varint_bounds(s, cur);
                acc = acc0 + term;
            }
            if !too_big {
                if mult_ok {
                    match low.checked_mul(mult) {
                        Some(t) => {
                            proof {
                                assert((mult as nat) * g == g * (mult as nat)) by (nonlinear_arith);
                                assert(term == t as nat);
                            }
                            match val.checked_add(t) {
                                Some(nv) => {
                                    val = nv;
                                },
                                None => {
                                    too_big = true;
                                },
                            }
                        },
                        None => {
                            too_big = true;
                            proof {
                                assert((mult as nat) * g == g * (mult as nat)) by (nonlinear_arith);
                                assert(term > u64::MAX);
                            }
                        },
                    }
                } else {
                    if low != 0 {
                        too_big = true;
                        proof {
                            assert(gmult0 * g >= gmult0 * 1) by (nonlinear_arith)
                                requires
                                    g >= 1,
                                    gmult0 >= 0,
                            ;
                        }
                    }
                }
            }
            if b < 128 {
                proof {
                    assert(spec_varint(s, cur) == Some((b as nat, cur + 1)));
                    assert(gmult0 * (b as nat) == term);
                }
                if too_big {
                    return Err(ObbyError::Truncated);
                }
                return Ok(val);
            }
            proof {
                match spec_varint(s, cur + 1) {
                    None => {
                        assert(spec_varint(s, cur) is None);
                    },
                    Some((v, j)) => {
                        assert(spec_varint(s, cur) == Some(
                            ((((b - 128) as nat) + 128 * v) as nat, j),
                        ));
                        assert(gmult0 * (((b - 128) as nat) + 128 * v) == gmult0 * ((b
                            - 128) as nat) + (gmult0 * 128) * v) by (nonlinear_arith);
                        assert((b - 128) as nat == g);
                        assert(spec_varint(s, pos0) == Some(
                            ((acc + (gmult0 * 128) * v) as nat, j),
                        ));
                    },
                }
            }
            if mult_ok {
                match mult.checked_mul(128) {
                    Some(nm) => {
                        mult = nm;
                    },
                    None => {
                        mult_ok = false;
                        proof {
                            assert((mult as nat) * 128 > u64::MAX);
                        }
                    },
                }
            } else {
                proof {
                    assert(gmult0 * 128 >= gmult0 * 1) by (nonlinear_arith)
                        requires
                            gmult0 >= 0,
                    ;
                }
            }
            proof {
                gmult = gmult0 * 128;
            }
        }
    }

    /// Reads a length-prefixed string at the cursor: a varint byte count,
    /// then that many bytes decoded as UTF-8 with replacement.
    pub fn read_csharp_string(&mut self) -> (r: Result<String, ObbyError>)
        ensures
            final(self).source() == old(self).source(),
            match r {
                Ok(out) => spec_string(old(self).source(), old(self).position()) == Some(
                    (out@, final(self).position()),
                ),
                Err(e) => e == ObbyError::Truncated && spec_string(
                    old(self).source(),
                    old(self).position(),
                ) is None,
            },
    {
        let ghost s = self.source();
        let ghost p0 = self.position();
        let n64 = match self.read_varint() {
            Ok(v) => v,
            Err(e) => {
                proof {
                    lemma_varint_bounds(s, p0);
                    assert(self.data@.len() == self.data.len());
                }
                return Err(e);
            },
        };
        proof {
            lemma_varint_bounds(s, p0);
            assert(self.data@.len() == self.data.len());
        }
        if n64 > usize::MAX as u64 {
            return Err(ObbyError::Truncated);
        }
        let n = n64 as usize;
        let buf = match self.read_bytes(n) {
            Ok(b) => b,
            Err(e) => {
                return Err(e);
            },
        };
        let out = utf8_lossy(&buf);
        Ok(out)
    }
}

} // verus!
