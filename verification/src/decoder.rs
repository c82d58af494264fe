//! The compact-protocol decoder: a stateful reader over a byte slice
//! that exposes the primitive and structural read operations — zigzag
//! varints, delta-compressed field ids, inline booleans, nibble-packed
//! collection headers — together with the spec functions that say, byte
//! for byte, what each operation consumes and returns.

use vstd::prelude::*;

use crate::error::DecodeError;
use crate::reader::SharedByteSliceReader;
use crate::varint::{spec_varint_u64, spec_zigzag_i16, spec_zigzag_i32, spec_zigzag_i64};
use crate::wire::{spec_wire_of, wire_of, WireType};

verus! {

/// What a field-header byte announces: the end of the current struct,
/// or the next field's identifier and wire type.
#[derive(Clone, Copy, Debug, PartialEq, Eq, Structural)]
pub enum FieldHeader {
    Stop,
    Field(i16, WireType),
}

/// The field header at the front of `s`, given the previous field id of
/// the current struct level: a `0x00` byte is the stop field; otherwise
/// the high nibble is a field-id delta (`1`–`15`), or `0` when the id
/// follows explicitly as a zigzag varint, and the low nibble is the wire
/// type.
pub open spec fn spec_field_header(s: Seq<u8>, last: i16) -> Result<
    (FieldHeader, nat),
    DecodeError,
> {
    if s.len() == 0 {
        Err(DecodeError::UnexpectedEof)
    } else if s[0] == 0 {
        Ok((FieldHeader::Stop, 1nat))
    } else {
        let delta = s[0] / 16;
        let tag = s[0] % 16;
        match spec_wire_of(tag) {
            None => Err(DecodeError::UnknownType),
            Some(w) => if delta != 0 {
                if last + delta <= 0x7FFF {
                    Ok((FieldHeader::Field((last + delta) as i16, w), 1nat))
                } else {
                    Err(DecodeError::Overflow)
                }
            } else {
                match spec_zigzag_i16(s.skip(1)) {
                    Err(e) => Err(e),
                    Ok(p) => Ok((FieldHeader::Field(p.0, w), (p.1 + 1) as nat)),
                }
            },
        }
    }
}

/// The boolean element at the front of `s`: one byte, `0` or `2` for
/// false, `1` for true, anything else an unknown type.
pub open spec fn spec_bool_value(s: Seq<u8>) -> Result<(bool, nat), DecodeError> {
    if s.len() == 0 {
        Err(DecodeError::UnexpectedEof)
    } else if s[0] == 0 || s[0] == 2 {
        Ok((false, 1nat))
    } else if s[0] == 1 {
        Ok((true, 1nat))
    } else {
        Err(DecodeError::UnknownType)
    }
}

/// The single raw byte at the front of `s`, as a signed 8-bit value.
pub open spec fn spec_i8(s: Seq<u8>) -> Result<(i8, nat), DecodeError> {
    if s.len() == 0 {
        Err(DecodeError::UnexpectedEof)
    } else {
        Ok((s[0] as i8, 1nat))
    }
}

/// The unsigned little-endian 64-bit value of the first eight bytes.
pub open spec fn spec_le_u64(s: Seq<u8>) -> nat {
    (s[0] + 256 * (s[1] + 256 * (s[2] + 256 * (s[3] + 256 * (s[4] + 256 * (s[5] + 256 * (s[6]
        + 256 * s[7]))))))) as nat
}

/// The eight raw little-endian bytes at the front of `s`, as the bit
/// pattern of a double.
pub open spec fn spec_double_bits(s: Seq<u8>) -> Result<(u64, nat), DecodeError> {
    if s.len() < 8 {
        Err(DecodeError::UnexpectedEof)
    } else {
        Ok((spec_le_u64(s) as u64, 8nat))
    }
}

/// The length-prefixed byte string at the front of `s`: an unsigned
/// varint length followed by that many raw bytes.
pub open spec fn spec_binary(s: Seq<u8>) -> Result<(Seq<u8>, nat), DecodeError> {
    match spec_varint_u64(s) {
        Err(e) => Err(e),
        Ok(p) => if p.1 + p.0 > s.len() {
            Err(DecodeError::UnexpectedEof)
        } else {
            Ok((s.subrange(p.1 as int, p.1 + p.0), (p.1 + p.0) as nat))
        },
    }
}

/// The list or set header at the front of `s`: one byte whose high
/// nibble is the element count (`15` meaning a varint count follows) and
/// whose low nibble is the element wire type.
pub open spec fn spec_list_header(s: Seq<u8>) -> Result<((WireType, nat), nat), DecodeError> {
    if s.len() == 0 {
        Err(DecodeError::UnexpectedEof)
    } else {
        let nib = s[0] / 16;
        let tag = s[0] % 16;
        match spec_wire_of(tag) {
            None => Err(DecodeError::UnknownType),
            Some(w) => if nib < 15 {
                Ok(((w, nib as nat), 1nat))
            } else {
                match spec_varint_u64(s.skip(1)) {
                    Err(e) => Err(e),
                    Ok(p) => if p.0 as nat <= usize::MAX as nat {
                        Ok(((w, p.0 as nat), (p.1 + 1) as nat))
                    } else {
                        Err(DecodeError::Overflow)
                    },
                }
            },
        }
    }
}

/// The map header at the front of `s`: an unsigned varint size, then —
/// only when the size is nonzero — one byte packing the key-type and
/// value-type nibbles.
pub open spec fn spec_map_header(s: Seq<u8>) -> Result<
    ((nat, Option<(WireType, WireType)>), nat),
    DecodeError,
> {
    match spec_varint_u64(s) {
        Err(e) => Err(e),
        Ok(p) => if p.0 as nat > usize::MAX as nat {
            Err(DecodeError::Overflow)
        } else if p.0 == 0 {
            Ok(((0nat, None), p.1))
        } else if p.1 + 1 > s.len() {
            Err(DecodeError::UnexpectedEof)
        } else {
            let tb = s[p.1 as int];
            match (spec_wire_of(tb / 16), spec_wire_of(tb % 16)) {
                (Some(kt), Some(vt)) => Ok(((p.0 as nat, Some((kt, vt))), (p.1 + 1) as nat)),
                _ => Err(DecodeError::UnknownType),
            }
        },
    }
}

/// The stateful decoder: a cursor plus the per-struct field-id context —
/// the previous field id at the current nesting level, and the saved ids
/// of the enclosing levels.
pub struct CompactReader {
    r: SharedByteSliceReader,
    last_field_id: i16,
    saved_ids: Vec<i16>,
}

impl CompactReader {
    /// The whole underlying buffer.
    pub closed spec fn bytes(self) -> Seq<u8> {
        self.r.bytes()
    }

    /// The cursor position.
    pub closed spec fn position(self) -> int {
        self.r.position()
    }

    /// The previous field id at the current struct nesting level.
    pub closed spec fn last_id(self) -> i16 {
        self.last_field_id
    }

    /// The saved field ids of the enclosing struct levels, outermost
    /// first.
    pub closed spec fn saved(self) -> Seq<i16> {
        self.saved_ids@
    }

    /// The cursor stands inside the buffer.
    pub open spec fn wf(self) -> bool {
        0 <= self.position() <= self.bytes().len()
    }

    /// The bytes not yet consumed.
    pub open spec fn remaining(self) -> Seq<u8> {
        self.bytes().skip(self.position())
    }

    /// A fresh decoder over `inner`: cursor at the start, field-id
    /// context zero, no enclosing levels.
    pub fn new(inner: Vec<u8>) -> (r: Self)
        ensures
            r.wf(),
            r.bytes() == inner@,
            r.position() == 0,
            r.last_id() == 0,
            r.saved() == Seq::<i16>::empty(),
    {
        let c = CompactReader {
            r: SharedByteSliceReader::new(inner),
            last_field_id: 0,
            saved_ids: Vec::new(),
        };
        proof {
            assert(c.saved() =~= Seq::<i16>::empty());
        }
        c
    }

    /// Enters a struct: consumes no bytes, saves the current field-id
    /// context and starts a fresh one at zero.
    pub fn read_struct_begin(&mut self)
        requires
            old(self).wf(),
        ensures
            final(self).wf(),
            final(self).bytes() == old(self).bytes(),
            final(self).position() == old(self).position(),
            final(self).last_id() == 0,
            final(self).saved() == old(self).saved().push(old(self).last_id()),
    {
        self.saved_ids.push(self.last_field_id);
        self.last_field_id = 0;
    }

    /// Reads a field header: a stop byte pops the field-id context (or
    /// fails with `UnbalancedNesting` when there is none); otherwise the
    /// new field id comes from the delta nibble or an explicit zigzag
    /// varint, as `spec_field_header` says.
    pub fn read_field_begin(&mut self) -> (r: Result<FieldHeader, DecodeError>)
        requires
            old(self).wf(),
        ensures
            final(self).wf(),
            final(self).bytes() == old(self).bytes(),
            final(self).position() >= old(self).position(),
            (match r {
                Ok(h) => {
                    &&& (spec_field_header(old(self).remaining(), old(self).last_id()) matches Ok(
                        p,
                    ) && p.0 == h && final(self).position() == old(self).position() + p.1)
                    &&& (h matches FieldHeader::Stop ==> old(self).saved().len() > 0 && final(self).last_id() == old(self).saved().last() && final(self).saved() == old(self).saved().drop_last())
                    &&& (h matches FieldHeader::Field(id, _w) ==> final(self).last_id() == id
                        && final(self).saved() == old(self).saved())
                },
                Err(e) => {
                    &&& (e != DecodeError::UnbalancedNesting ==> spec_field_header(
                        old(self).remaining(),
                        old(self).last_id(),
                    ) == Err::<(FieldHeader, nat), DecodeError>(e))
                    &&& (e == DecodeError::UnbalancedNesting ==> (spec_field_header(
                        old(self).remaining(),
                        old(self).last_id(),
                    ) matches Ok(p) && p.0 == FieldHeader::Stop) && old(self).saved().len() == 0)
                },
            }),
    {
        let b = match self.r.read_u8() {
            Ok(b) => b,
            Err(e) => {
                return Err(e);
            },
        };
        if b == 0 {
            match self.saved_ids.pop() {
                Some(id) => {
                    self.last_field_id = id;
                    Ok(FieldHeader::Stop)
                },
                None => Err(DecodeError::UnbalancedNesting),
            }
        } else {
            let delta = b / 16;
            let tag = b % 16;
            match wire_of(tag) {
                None => Err(DecodeError::UnknownType),
                Some(w) => {
                    if delta != 0 {
                        if self.last_field_id <= 0x7FFF - (delta as i16) {
                            self.last_field_id = self.last_field_id + (delta as i16);
                            Ok(FieldHeader::Field(self.last_field_id, w))
                        } else {
                            Err(DecodeError::Overflow)
                        }
                    } else {
                        proof {
                            assert(old(self).remaining().skip(1) =~= self.remaining());
                        }
                        let id = match self.r.read_zigzag_i16() {
                            Ok(id) => id,
                            Err(e) => {
                                return Err(e);
                            },
                        };
                        self.last_field_id = id;
                        Ok(FieldHeader::Field(id, w))
                    }
                },
            }
        }
    }

    /// Reads one boolean collection element, as `spec_bool_value` says.
    pub fn read_bool_element(&mut self) -> (r: Result<bool, DecodeError>)
        requires
            old(self).wf(),
        ensures
            final(self).wf(),
            final(self).bytes() == old(self).bytes(),
            final(self).position() >= old(self).position(),
            final(self).last_id() == old(self).last_id(),
            final(self).saved() == old(self).saved(),
            (match r {
                Ok(v) => spec_bool_value(old(self).remaining()) matches Ok(p) && p.0 == v && final(self).position() == old(self).position() + p.1,
                Err(e) => spec_bool_value(old(self).remaining()) == Err::<
                    (bool, nat),
                    DecodeError,
                >(e),
            }),
    {
        let b = match self.r.read_u8() {
            Ok(b) => b,
            Err(e) => {
                return Err(e);
            },
        };
        if b == 0 || b == 2 {
            Ok(false)
        } else if b == 1 {
            Ok(true)
        } else {
            Err(DecodeError::UnknownType)
        }
    }

    /// Reads one raw byte as a signed 8-bit value.
    pub fn read_i8(&mut self) -> (r: Result<i8, DecodeError>)
        requires
            old(self).wf(),
        ensures
            final(self).wf(),
            final(self).bytes() == old(self).bytes(),
            final(self).position() >= old(self).position(),
            final(self).last_id() == old(self).last_id(),
            final(self).saved() == old(self).saved(),
            (match r {
                Ok(v) => spec_i8(old(self).remaining()) matches Ok(p) && p.0 == v && final(self).position() == old(self).position() + p.1,
                Err(e) => spec_i8(old(self).remaining()) == Err::<(i8, nat), DecodeError>(e),
            }),
    {
        match self.r.read_u8() {
            Ok(b) => Ok(b as i8),
            Err(e) => Err(e),
        }
    }

    /// Reads a zigzag varint as an `i16`.
    pub fn read_i16(&mut self) -> (r: Result<i16, DecodeError>)
        requires
            old(self).wf(),
        ensures
            final(self).wf(),
            final(self).bytes() == old(self).bytes(),
            final(self).position() >= old(self).position(),
            final(self).last_id() == old(self).last_id(),
            final(self).saved() == old(self).saved(),
            (match r {
                Ok(v) => spec_zigzag_i16(old(self).remaining()) matches Ok(p) && p.0 == v && final(self).position() == old(self).position() + p.1,
                Err(e) => spec_zigzag_i16(old(self).remaining()) == Err::<
                    (i16, nat),
                    DecodeError,
                >(e),
            }),
    {
        self.r.read_zigzag_i16()
    }

    /// Reads a zigzag varint as an `i32`.
    pub fn read_i32(&mut self) -> (r: Result<i32, DecodeError>)
        requires
            old(self).wf(),
        ensures
            final(self).wf(),
            final(self).bytes() == old(self).bytes(),
            final(self).position() >= old(self).position(),
            final(self).last_id() == old(self).last_id(),
            final(self).saved() == old(self).saved(),
            (match r {
                Ok(v) => spec_zigzag_i32(old(self).remaining()) matches Ok(p) && p.0 == v && final(self).position() == old(self).position() + p.1,
                Err(e) => spec_zigzag_i32(old(self).remaining()) == Err::<
                    (i32, nat),
                    DecodeError,
                >(e),
            }),
    {
        self.r.read_zigzag_i32()
    }

    /// Reads a zigzag varint as an `i64`.
    pub fn read_i64(&mut self) -> (r: Result<i64, DecodeError>)
        requires
            old(self).wf(),
        ensures
            final(self).wf(),
            final(self).bytes() == old(self).bytes(),
            final(self).position() >= old(self).position(),
            final(self).last_id() == old(self).last_id(),
            final(self).saved() == old(self).saved(),
            (match r {
                Ok(v) => spec_zigzag_i64(old(self).remaining()) matches Ok(p) && p.0 == v && final(self).position() == old(self).position() + p.1,
                Err(e) => spec_zigzag_i64(old(self).remaining()) == Err::<
                    (i64, nat),
                    DecodeError,
                >(e),
            }),
    {
        self.r.read_zigzag_i64()
    }

    /// Reads eight raw little-endian bytes as the bit pattern of a
    /// double.
    pub fn read_double_bits(&mut self) -> (r: Result<u64, DecodeError>)
        requires
            old(self).wf(),
        ensures
            final(self).wf(),
            final(self).bytes() == old(self).bytes(),
            final(self).position() >= old(self).position(),
            final(self).last_id() == old(self).last_id(),
            final(self).saved() == old(self).saved(),
            (match r {
                Ok(v) => spec_double_bits(old(self).remaining()) matches Ok(p) && p.0 == v
                    && final(self).position() == old(self).position() + p.1,
                Err(e) => spec_double_bits(old(self).remaining()) == Err::<
                    (u64, nat),
                    DecodeError,
                >(e),
            }),
    {
        let bytes = match self.r.read_fixed(8) {
            Ok(v) => v,
            Err(e) => {
                return Err(e);
            },
        };
        let v: u64 = (bytes[0] as u64) + 256 * ((bytes[1] as u64) + 256 * ((bytes[2] as u64) + 256
            * ((bytes[3] as u64) + 256 * ((bytes[4] as u64) + 256 * ((bytes[5] as u64) + 256 * ((
        bytes[6] as u64) + 256 * (bytes[7] as u64)))))));
        Ok(v)
    }

    /// Reads a varint length then that many raw bytes.
    pub fn read_binary(&mut self) -> (r: Result<Vec<u8>, DecodeError>)
        requires
            old(self).wf(),
        ensures
            final(self).wf(),
            final(self).bytes() == old(self).bytes(),
            final(self).position() >= old(self).position(),
            final(self).last_id() == old(self).last_id(),
            final(self).saved() == old(self).saved(),
            (match r {
                Ok(v) => spec_binary(old(self).remaining()) matches Ok(p) && p.0 == v@ && final(self).position() == old(self).position() + p.1,
                Err(e) => spec_binary(old(self).remaining()) == Err::<
                    (Seq<u8>, nat),
                    DecodeError,
                >(e),
            }),
    {
        let n = match self.r.read_varint_u64() {
            Ok(n) => n,
            Err(e) => {
                return Err(e);
            },
        };
        let rem = self.r.remaining_len();
        if n > rem as u64 {
            return Err(DecodeError::UnexpectedEof);
        }
        let v = match self.r.read_fixed(n as usize) {
            Ok(v) => v,
            Err(e) => {
                return Err(e);
            },
        };
        proof {
            let s = old(self).remaining();
            let p = spec_varint_u64(s).unwrap();
            assert(s.skip(p.1 as int).subrange(0, n as int) =~= s.subrange(
                p.1 as int,
                p.1 + (n as int),
            ));
        }
        Ok(v)
    }

    /// Reads a list or set header: the element wire type and count.
    pub fn read_list_begin(&mut self) -> (r: Result<(WireType, usize), DecodeError>)
        requires
            old(self).wf(),
        ensures
            final(self).wf(),
            final(self).bytes() == old(self).bytes(),
            final(self).position() >= old(self).position(),
            final(self).last_id() == old(self).last_id(),
            final(self).saved() == old(self).saved(),
            (match r {
                Ok(h) => spec_list_header(old(self).remaining()) matches Ok(p) && p.0 == (
                    h.0,
                    h.1 as nat,
                ) && final(self).position() == old(self).position() + p.1,
                Err(e) => spec_list_header(old(self).remaining()) == Err::<
                    ((WireType, nat), nat),
                    DecodeError,
                >(e),
            }),
    {
        let b = match self.r.read_u8() {
            Ok(b) => b,
            Err(e) => {
                return Err(e);
            },
        };
        let nib = b / 16;
        let tag = b % 16;
        let w = match wire_of(tag) {
            Some(w) => w,
            None => {
                return Err(DecodeError::UnknownType);
            },
        };
        if nib < 15 {
            Ok((w, nib as usize))
        } else {
            proof {
                assert(old(self).remaining().skip(1) =~= self.remaining());
            }
            let v = match self.r.read_varint_u64() {
                Ok(v) => v,
                Err(e) => {
                    return Err(e);
                },
            };
            if v > usize::MAX as u64 {
                Err(DecodeError::Overflow)
            } else {
                Ok((w, v as usize))
            }
        }
    }

    /// Reads a map header: the size and, when it is nonzero, the key and
    /// value wire types.
    pub fn read_map_begin(&mut self) -> (r: Result<
        (usize, Option<(WireType, WireType)>),
        DecodeError,
    >)
        requires
            old(self).wf(),
        ensures
            final(self).wf(),
            final(self).bytes() == old(self).bytes(),
            final(self).position() >= old(self).position(),
            final(self).last_id() == old(self).last_id(),
            final(self).saved() == old(self).saved(),
            (match r {
                Ok(h) => spec_map_header(old(self).remaining()) matches Ok(p) && p.0 == (
                    h.0 as nat,
                    h.1,
                ) && final(self).position() == old(self).position() + p.1,
                Err(e) => spec_map_header(old(self).remaining()) == Err::<
                    ((nat, Option<(WireType, WireType)>), nat),
                    DecodeError,
                >(e),
            }),
    {
        let n = match self.r.read_varint_u64() {
            Ok(n) => n,
            Err(e) => {
                return Err(e);
            },
        };
        if n > usize::MAX as u64 {
            return Err(DecodeError::Overflow);
        }
        if n == 0 {
            return Ok((0, None));
        }
        let tb = match self.r.read_u8() {
            Ok(b) => b,
            Err(e) => {
                return Err(e);
            },
        };
        proof {
            let s = old(self).remaining();
            let p = spec_varint_u64(s).unwrap();
            assert(s.skip(p.1 as int)[0] == s[p.1 as int]);
        }
        let kt = match wire_of(tb / 16) {
            Some(w) => w,
            None => {
                return Err(DecodeError::UnknownType);
            },
        };
        let vt = match wire_of(tb % 16) {
            Some(w) => w,
            None => {
                return Err(DecodeError::UnknownType);
            },
        };
        Ok((n as usize, Some((kt, vt))))
    }
}

} // verus!
