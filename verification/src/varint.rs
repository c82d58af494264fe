//! Variable-length integers: unsigned base-128 varints in little-endian
//! group order, and the zigzag mapping that carries signed integers on
//! them.

use vstd::prelude::*;

use crate::error::DecodeError;
use crate::reader::SharedByteSliceReader;

verus! {

/// Value and byte length of the unsigned varint at the front of `s`:
/// seven payload bits per byte, least significant group first, the high
/// bit of each byte a continuation flag. `None` when `s` ends before a
/// byte without the continuation flag.
pub open spec fn varint_value(s: Seq<u8>) -> Option<(nat, nat)>
    decreases s.len(),
{
    if s.len() == 0 {
        None
    } else if s[0] < 128 {
        Some((s[0] as nat, 1nat))
    } else {
        match varint_value(s.skip(1)) {
            None => None,
            Some(p) => Some((((s[0] - 128) + 128 * p.0) as nat, (p.1 + 1) as nat)),
        }
    }
}

/// Reading the varint at the front of `s` into a `u64`: the decoded
/// value and its byte length, `UnexpectedEof` when the varint is
/// incomplete, `Overflow` when its value does not fit 64 bits.
pub open spec fn spec_varint_u64(s: Seq<u8>) -> Result<(u64, nat), DecodeError> {
    match varint_value(s) {
        None => Err(DecodeError::UnexpectedEof),
        Some(p) => if p.0 < 0x1_0000_0000_0000_0000 {
            Ok((p.0 as u64, p.1))
        } else {
            Err(DecodeError::Overflow)
        },
    }
}

/// The zigzag image of a signed integer: non-negative `x` maps to `2x`,
/// negative `x` to `-2x - 1`.
pub open spec fn zigzag(x: int) -> int {
    if x >= 0 {
        2 * x
    } else {
        -2 * x - 1
    }
}

/// The inverse of `zigzag`: even `n` maps to `n / 2`, odd `n` to
/// `-((n + 1) / 2)`.
pub open spec fn unzigzag(n: int) -> int {
    if n % 2 == 0 {
        n / 2
    } else {
        -((n + 1) / 2)
    }
}

/// Reading the varint at the front of `s` as a zigzag-encoded `i64`.
pub open spec fn spec_zigzag_i64(s: Seq<u8>) -> Result<(i64, nat), DecodeError> {
    match spec_varint_u64(s) {
        Err(e) => Err(e),
        Ok(p) => Ok((unzigzag(p.0 as int) as i64, p.1)),
    }
}

/// Reading the varint at the front of `s` as a zigzag-encoded `i32`:
/// `Overflow` when the decoded value does not fit 32 bits.
pub open spec fn spec_zigzag_i32(s: Seq<u8>) -> Result<(i32, nat), DecodeError> {
    match spec_varint_u64(s) {
        Err(e) => Err(e),
        Ok(p) => {
            let w = unzigzag(p.0 as int);
            if -0x8000_0000 <= w <= 0x7FFF_FFFF {
                Ok((w as i32, p.1))
            } else {
                Err(DecodeError::Overflow)
            }
        },
    }
}

/// Reading the varint at the front of `s` as a zigzag-encoded `i16`:
/// `Overflow` when the decoded value does not fit 16 bits.
pub open spec fn spec_zigzag_i16(s: Seq<u8>) -> Result<(i16, nat), DecodeError> {
    match spec_varint_u64(s) {
        Err(e) => Err(e),
        Ok(p) => {
            let w = unzigzag(p.0 as int);
            if -0x8000 <= w <= 0x7FFF {
                Ok((w as i16, p.1))
            } else {
                Err(DecodeError::Overflow)
            }
        },
    }
}

/// Maps a zigzag-encoded unsigned value back to the signed integer.
pub fn zigzag_decode_i64(n: u64) -> (r: i64)
    ensures
        r as int == unzigzag(n as int),
{
    proof {
        vstd::arithmetic::div_mod::lemma_fundamental_div_mod(n as int, 2);
    }
    if n % 2 == 0 {
        (n / 2) as i64
    } else {
        -((n / 2) as i64) - 1
    }
}

impl SharedByteSliceReader {
    /// Reads the unsigned varint at the cursor into a `u64`, as
    /// `spec_varint_u64` says of the remaining bytes.
    pub fn read_varint_u64(&mut self) -> (r: Result<u64, DecodeError>)
        requires
            old(self).wf(),
        ensures
            final(self).wf(),
            final(self).bytes() == old(self).bytes(),
            final(self).position() >= old(self).position(),
            (match r {
                Ok(v) => spec_varint_u64(old(self).remaining()) == Ok::<(u64, nat), DecodeError>(
                    (v, (final(self).position() - old(self).position()) as nat),
                ),
                Err(e) => spec_varint_u64(old(self).remaining()) == Err::<(u64, nat), DecodeError>(
                    e,
                ),
            }),
        decreases old(self).bytes().len() - old(self).position(),
    {
        let b = match self.read_u8() {
            Ok(b) => b,
            Err(e) => {
                return Err(e);
            },
        };
        if b < 0x80 {
            Ok(b as u64)
        } else {
            let low: u64 = (b - 0x80) as u64;
            proof {
                assert(old(self).remaining().skip(1) =~= self.remaining());
            }
            let rest = match self.read_varint_u64() {
                Ok(rest) => rest,
                Err(e) => {
                    proof {
                        if e == DecodeError::Overflow {
                            let p = varint_value(old(self).remaining().skip(1)).unwrap();
                            assert(128 * p.0 >= 128 * 0x1_0000_0000_0000_0000) by (nonlinear_arith)
                                requires p.0 >= 0x1_0000_0000_0000_0000;
                        }
                    }
                    return Err(e);
                },
            };
            let cap: u64 = (0xFFFF_FFFF_FFFF_FFFFu64 - low) / 128;
            if rest <= cap {
                proof {
                    let m: int = 0xFFFF_FFFF_FFFF_FFFF;
                    vstd::arithmetic::div_mod::lemma_fundamental_div_mod(m - low, 128);
                    assert(128 * (cap as int) <= m - low);
                    assert(128 * (rest as int) <= 128 * (cap as int)) by (nonlinear_arith)
                        requires rest as int <= cap as int;
                }
                Ok(low + 128 * rest)
            } else {
                proof {
                    let m: int = 0xFFFF_FFFF_FFFF_FFFF;
                    vstd::arithmetic::div_mod::lemma_fundamental_div_mod(m - low, 128);
                    assert(128 * (rest as int) >= 128 * (cap as int + 1)) by (nonlinear_arith)
                        requires rest as int >= cap as int + 1;
                    assert(low + 128 * (rest as int) > m);
                }
                Err(DecodeError::Overflow)
            }
        }
    }

    /// Reads the varint at the cursor as a zigzag-encoded `i64`.
    pub fn read_zigzag_i64(&mut self) -> (r: Result<i64, DecodeError>)
        requires
            old(self).wf(),
        ensures
            final(self).wf(),
            final(self).bytes() == old(self).bytes(),
            final(self).position() >= old(self).position(),
            (match r {
                Ok(v) => spec_zigzag_i64(old(self).remaining()) == Ok::<(i64, nat), DecodeError>(
                    (v, (final(self).position() - old(self).position()) as nat),
                ),
                Err(e) => spec_zigzag_i64(old(self).remaining()) == Err::<(i64, nat), DecodeError>(
                    e,
                ),
            }),
    {
        let n = match self.read_varint_u64() {
            Ok(n) => n,
            Err(e) => {
                return Err(e);
            },
        };
        Ok(zigzag_decode_i64(n))
    }

    /// Reads the varint at the cursor as a zigzag-encoded `i32`.
    pub fn read_zigzag_i32(&mut self) -> (r: Result<i32, DecodeError>)
        requires
            old(self).wf(),
        ensures
            final(self).wf(),
            final(self).bytes() == old(self).bytes(),
            final(self).position() >= old(self).position(),
            (match r {
                Ok(v) => spec_zigzag_i32(old(self).remaining()) == Ok::<(i32, nat), DecodeError>(
                    (v, (final(self).position() - old(self).position()) as nat),
                ),
                Err(e) => spec_zigzag_i32(old(self).remaining()) == Err::<(i32, nat), DecodeError>(
                    e,
                ),
            }),
    {
        let n = match self.read_varint_u64() {
            Ok(n) => n,
            Err(e) => {
                return Err(e);
            },
        };
        let w = zigzag_decode_i64(n);
        if -0x8000_0000i64 <= w && w <= 0x7FFF_FFFFi64 {
            Ok(w as i32)
        } else {
            Err(DecodeError::Overflow)
        }
    }

    /// Reads the varint at the cursor as a zigzag-encoded `i16`.
    pub fn read_zigzag_i16(&mut self) -> (r: Result<i16, DecodeError>)
        requires
            old(self).wf(),
        ensures
            final(self).wf(),
            final(self).bytes() == old(self).bytes(),
            final(self).position() >= old(self).position(),
            (match r {
                Ok(v) => spec_zigzag_i16(old(self).remaining()) == Ok::<(i16, nat), DecodeError>(
                    (v, (final(self).position() - old(self).position()) as nat),
                ),
                Err(e) => spec_zigzag_i16(old(self).remaining()) == Err::<(i16, nat), DecodeError>(
                    e,
                ),
            }),
    {
        let n = match self.read_varint_u64() {
            Ok(n) => n,
            Err(e) => {
                return Err(e);
            },
        };
        let w = zigzag_decode_i64(n);
        if -0x8000i64 <= w && w <= 0x7FFFi64 {
            Ok(w as i16)
        } else {
            Err(DecodeError::Overflow)
        }
    }
}

} // verus!
