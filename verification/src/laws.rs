//! The laws of the encoding, stated against a canonical reference
//! encoder written as spec functions: the zigzag mapping inverts itself,
//! a decoded field id does not depend on whether the encoder chose the
//! delta or the absolute form, and decoding a canonical encoding of a
//! primitive value gives back that value.

use vstd::prelude::*;

use crate::decoder::{
    spec_binary, spec_bool_value, spec_double_bits, spec_field_header, spec_i8, spec_le_u64,
    spec_list_header, spec_map_header, FieldHeader,
};
use crate::value::{spec_elems, spec_pairs, spec_struct_fields, spec_value, GValue};
use crate::varint::{
    spec_varint_u64, spec_zigzag_i16, spec_zigzag_i32, spec_zigzag_i64, unzigzag, varint_value,
    zigzag,
};
use crate::wire::{spec_tag_of, spec_wire_of, WireType};

verus! {

/// The canonical unsigned varint encoding of `n`: seven bits per byte,
/// least significant group first, continuation bit on every byte but the
/// last.
pub open spec fn enc_varint(n: nat) -> Seq<u8>
    decreases n,
    via enc_varint_dec
{
    if n < 128 {
        seq![n as u8]
    } else {
        seq![(128 + n % 128) as u8] + enc_varint(n / 128)
    }
}

#[via_fn]
proof fn enc_varint_dec(n: nat) {
    if n >= 128 {
        vstd::arithmetic::div_mod::lemma_div_decreases(n as int, 128);
    }
}

/// The canonical zigzag varint encoding of a signed integer.
pub open spec fn enc_zigzag(x: int) -> Seq<u8> {
    enc_varint(zigzag(x) as nat)
}

/// Decoding a canonical varint gives back the encoded value, whatever
/// follows it.
pub proof fn lemma_varint_roundtrip(n: nat, rest: Seq<u8>)
    ensures
        varint_value(enc_varint(n) + rest) == Some((n, enc_varint(n).len())),
    decreases n,
{
    let s = enc_varint(n) + rest;
    if n < 128 {
        assert(s[0] == n as u8);
        assert(s.skip(1) =~= rest);
    } else {
        vstd::arithmetic::div_mod::lemma_div_decreases(n as int, 128);
        vstd::arithmetic::div_mod::lemma_fundamental_div_mod(n as int, 128);
        lemma_varint_roundtrip(n / 128, rest);
        assert(s[0] == (128 + n % 128) as u8);
        assert(s.skip(1) =~= enc_varint(n / 128) + rest);
        assert((s[0] - 128) + 128 * (n / 128) == n as int);
    }
}

/// Undoing the zigzag mapping gives back the original signed integer,
/// for every integer, the boundary values included.
pub proof fn lemma_zigzag_roundtrip(x: int)
    ensures
        unzigzag(zigzag(x)) == x,
{
    if x >= 0 {
        assert((2 * x) % 2 == 0 && (2 * x) / 2 == x) by {
            vstd::arithmetic::div_mod::lemma_fundamental_div_mod_converse(2 * x, 2, x, 0);
        }
    } else {
        assert((-2 * x - 1) % 2 == 1 && (-2 * x - 1) / 2 == -x - 1) by {
            vstd::arithmetic::div_mod::lemma_fundamental_div_mod_converse(-2 * x - 1, 2, -x - 1, 1);
        }
    }
}

/// The zigzag image of a 64-bit signed integer fits 64 unsigned bits.
pub proof fn lemma_zigzag_range(x: int)
    requires
        -0x8000_0000_0000_0000 <= x <= 0x7FFF_FFFF_FFFF_FFFF,
    ensures
        0 <= zigzag(x) < 0x1_0000_0000_0000_0000,
{
}

/// Decoding the canonical zigzag varint encoding of a 64-bit signed
/// integer gives back that integer, whatever follows it.
pub proof fn lemma_i64_roundtrip(x: i64, rest: Seq<u8>)
    ensures
        spec_zigzag_i64(enc_zigzag(x as int) + rest) == Ok::<(i64, nat), crate::error::DecodeError>(
            (x, enc_zigzag(x as int).len()),
        ),
{
    lemma_zigzag_range(x as int);
    lemma_varint_roundtrip(zigzag(x as int) as nat, rest);
    lemma_zigzag_roundtrip(x as int);
}

/// The same, for a 32-bit signed integer.
pub proof fn lemma_i32_roundtrip(x: i32, rest: Seq<u8>)
    ensures
        spec_zigzag_i32(enc_zigzag(x as int) + rest) == Ok::<(i32, nat), crate::error::DecodeError>(
            (x, enc_zigzag(x as int).len()),
        ),
{
    lemma_varint_roundtrip(zigzag(x as int) as nat, rest);
    lemma_zigzag_roundtrip(x as int);
}

/// The same, for a 16-bit signed integer.
pub proof fn lemma_i16_roundtrip(x: i16, rest: Seq<u8>)
    ensures
        spec_zigzag_i16(enc_zigzag(x as int) + rest) == Ok::<(i16, nat), crate::error::DecodeError>(
            (x, enc_zigzag(x as int).len()),
        ),
{
    lemma_varint_roundtrip(zigzag(x as int) as nat, rest);
    lemma_zigzag_roundtrip(x as int);
}

/// Field-id delta correctness: for a field whose id lies within delta
/// reach of the previous id, the delta-form header and the absolute-form
/// header decode to the same field id and wire type — the encoder's
/// choice does not affect the decoded identity.
pub proof fn lemma_field_id_delta_independence(last: i16, id: i16, w: WireType, rest: Seq<u8>)
    requires
        1 <= id - last <= 15,
    ensures
        spec_field_header(seq![((id - last) * 16 + spec_tag_of(w)) as u8] + rest, last) == Ok::<
            (FieldHeader, nat),
            crate::error::DecodeError,
        >((FieldHeader::Field(id, w), 1nat)),
        spec_field_header(seq![spec_tag_of(w)] + enc_zigzag(id as int) + rest, last) == Ok::<
            (FieldHeader, nat),
            crate::error::DecodeError,
        >((FieldHeader::Field(id, w), (1 + enc_zigzag(id as int).len()) as nat)),
{
    let d = id - last;
    let hb = (d * 16 + spec_tag_of(w)) as u8;
    let s1 = seq![hb] + rest;
    assert(s1[0] == hb);
    assert(1 <= spec_tag_of(w) <= 12);
    assert(hb / 16 == d && hb % 16 == spec_tag_of(w)) by {
        vstd::arithmetic::div_mod::lemma_fundamental_div_mod_converse(
            d * 16 + spec_tag_of(w),
            16,
            d,
            spec_tag_of(w) as int,
        );
    }
    assert(spec_wire_of(spec_tag_of(w)) == Some(w));
    let s2 = seq![spec_tag_of(w)] + enc_zigzag(id as int) + rest;
    assert(s2[0] == spec_tag_of(w));
    assert(s2[0] / 16 == 0 && s2[0] % 16 == spec_tag_of(w)) by {
        vstd::arithmetic::div_mod::lemma_fundamental_div_mod_converse(
            spec_tag_of(w) as int,
            16,
            0,
            spec_tag_of(w) as int,
        );
    }
    assert(s2.skip(1) =~= enc_zigzag(id as int) + rest);
    lemma_i16_roundtrip(id, rest);
}

/// The canonical little-endian byte encoding of a 64-bit value.
pub open spec fn enc_le_u64(d: u64) -> Seq<u8> {
    seq![
        (d % 256) as u8,
        ((d / 256) % 256) as u8,
        ((d / 65536) % 256) as u8,
        ((d / 16777216) % 256) as u8,
        ((d / 4294967296) % 256) as u8,
        ((d / 1099511627776) % 256) as u8,
        ((d / 281474976710656) % 256) as u8,
        ((d / 72057594037927936) % 256) as u8,
    ]
}

/// Decoding eight canonical little-endian bytes gives back the encoded
/// bit pattern, whatever follows them.
pub proof fn lemma_double_roundtrip(d: u64, rest: Seq<u8>)
    ensures
        spec_double_bits(enc_le_u64(d) + rest) == Ok::<(u64, nat), crate::error::DecodeError>(
            (d, 8nat),
        ),
{
    let s = enc_le_u64(d) + rest;
    assert(s[0] == enc_le_u64(d)[0] && s[1] == enc_le_u64(d)[1] && s[2] == enc_le_u64(d)[2] && s[3]
        == enc_le_u64(d)[3] && s[4] == enc_le_u64(d)[4] && s[5] == enc_le_u64(d)[5] && s[6]
        == enc_le_u64(d)[6] && s[7] == enc_le_u64(d)[7]);
    let d0 = d as int;
    let d1 = d0 / 256;
    let d2 = d1 / 256;
    let d3 = d2 / 256;
    let d4 = d3 / 256;
    let d5 = d4 / 256;
    let d6 = d5 / 256;
    let d7 = d6 / 256;
    assert(d0 / 65536 == d2 && d0 / 16777216 == d3 && d0 / 4294967296 == d4 && d0
        / 1099511627776 == d5 && d0 / 281474976710656 == d6 && d0 / 72057594037927936 == d7) by {
        vstd::arithmetic::div_mod::lemma_div_denominator(d0, 256, 256);
        vstd::arithmetic::div_mod::lemma_div_denominator(d0, 65536, 256);
        vstd::arithmetic::div_mod::lemma_div_denominator(d0, 16777216, 256);
        vstd::arithmetic::div_mod::lemma_div_denominator(d0, 4294967296, 256);
        vstd::arithmetic::div_mod::lemma_div_denominator(d0, 1099511627776, 256);
        vstd::arithmetic::div_mod::lemma_div_denominator(d0, 281474976710656, 256);
    }
    assert(0 <= d7 < 256) by {
        vstd::arithmetic::div_mod::lemma_div_is_ordered(d0, 0xFFFF_FFFF_FFFF_FFFF, 72057594037927936);
    }
    assert(d7 % 256 == d7) by {
        vstd::arithmetic::div_mod::lemma_small_mod(d7 as nat, 256);
    }
    vstd::arithmetic::div_mod::lemma_fundamental_div_mod(d0, 256);
    vstd::arithmetic::div_mod::lemma_fundamental_div_mod(d1, 256);
    vstd::arithmetic::div_mod::lemma_fundamental_div_mod(d2, 256);
    vstd::arithmetic::div_mod::lemma_fundamental_div_mod(d3, 256);
    vstd::arithmetic::div_mod::lemma_fundamental_div_mod(d4, 256);
    vstd::arithmetic::div_mod::lemma_fundamental_div_mod(d5, 256);
    vstd::arithmetic::div_mod::lemma_fundamental_div_mod(d6, 256);
    assert(spec_le_u64(s) == d as nat);
}

/// Decoding one canonical byte gives back the encoded 8-bit value.
pub proof fn lemma_i8_roundtrip(x: i8, rest: Seq<u8>)
    ensures
        spec_i8(seq![x as u8] + rest) == Ok::<(i8, nat), crate::error::DecodeError>((x, 1nat)),
{
    let s = seq![x as u8] + rest;
    assert(s[0] == x as u8);
    assert((x as u8) as i8 == x) by (bit_vector);
}

/// Decoding a canonical boolean element byte gives back the value.
pub proof fn lemma_bool_roundtrip(b: bool, rest: Seq<u8>)
    ensures
        spec_bool_value(seq![if b { 1u8 } else { 0u8 }] + rest) == Ok::<
            (bool, nat),
            crate::error::DecodeError,
        >((b, 1nat)),
{
    let s = seq![if b { 1u8 } else { 0u8 }] + rest;
    assert(s[0] == if b { 1u8 } else { 0u8 });
}

/// Decoding a canonical length-prefixed byte string gives back its
/// bytes, whatever follows them.
pub proof fn lemma_binary_roundtrip(b: Seq<u8>, rest: Seq<u8>)
    requires
        b.len() < 0x1_0000_0000_0000_0000,
    ensures
        spec_binary(enc_varint(b.len()) + b + rest) == Ok::<(Seq<u8>, nat), crate::error::DecodeError>(
            (b, (enc_varint(b.len()).len() + b.len()) as nat),
        ),
{
    let l = enc_varint(b.len());
    let s = l + b + rest;
    lemma_varint_roundtrip(b.len(), b + rest);
    assert(l + (b + rest) =~= s);
    assert(s.subrange(l.len() as int, (l.len() + b.len()) as int) =~= b);
}

/// The wire type under which a value is encoded; for a boolean the tag
/// carries the value itself.
pub open spec fn tag_for(v: GValue) -> WireType {
    match v {
        GValue::Bool(b) => if b {
            WireType::BoolTrue
        } else {
            WireType::BoolFalse
        },
        GValue::I8(_) => WireType::I8,
        GValue::I16(_) => WireType::I16,
        GValue::I32(_) => WireType::I32,
        GValue::I64(_) => WireType::I64,
        GValue::DoubleBits(_) => WireType::Double,
        GValue::Binary(_) => WireType::Binary,
        GValue::List(_, _) => WireType::List,
        GValue::SetOf(_, _) => WireType::SetOf,
        GValue::MapOf(_) => WireType::MapOf,
        GValue::Struct(_) => WireType::Struct,
    }
}

/// A value may stand in a collection slot of declared element type `t`:
/// either of the two boolean tags admits any boolean.
pub open spec fn elem_ok(t: WireType, v: GValue) -> bool {
    if t == WireType::BoolTrue || t == WireType::BoolFalse {
        v matches GValue::Bool(_)
    } else {
        tag_for(v) == t
    }
}

/// An encodable value: collection sizes fit the machine, and every
/// element matches its collection's declared element type.
pub open spec fn wf_value(v: GValue) -> bool
    decreases v,
{
    match v {
        GValue::Bool(_) => true,
        GValue::I8(_) => true,
        GValue::I16(_) => true,
        GValue::I32(_) => true,
        GValue::I64(_) => true,
        GValue::DoubleBits(_) => true,
        GValue::Binary(b) => b.len() < 0x1_0000_0000_0000_0000,
        GValue::List(t, xs) => xs.len() <= usize::MAX && wf_elems(t, xs),
        GValue::SetOf(t, xs) => xs.len() <= usize::MAX && wf_elems(t, xs),
        GValue::MapOf(ps) => ps.len() <= usize::MAX && (ps.len() == 0 || wf_pairs(
            tag_for(ps[0].0),
            tag_for(ps[0].1),
            ps,
        )),
        GValue::Struct(fs) => wf_fields(fs),
    }
}

/// Every element is well formed and matches the declared type `t`.
pub open spec fn wf_elems(t: WireType, xs: Seq<GValue>) -> bool
    decreases xs,
{
    xs.len() == 0 || (elem_ok(t, xs[0]) && wf_value(xs[0]) && wf_elems(
        t,
        xs.subrange(1, xs.len() as int),
    ))
}

/// Every key and value is well formed and matches its declared type.
pub open spec fn wf_pairs(kt: WireType, vt: WireType, ps: Seq<(GValue, GValue)>) -> bool
    decreases ps,
{
    ps.len() == 0 || (elem_ok(kt, ps[0].0) && elem_ok(vt, ps[0].1) && wf_value(ps[0].0) && wf_value(
        ps[0].1,
    ) && wf_pairs(kt, vt, ps.subrange(1, ps.len() as int)))
}

/// Every field value is well formed.
pub open spec fn wf_fields(fs: Seq<(i16, GValue)>) -> bool
    decreases fs,
{
    fs.len() == 0 || (wf_value(fs[0].1) && wf_fields(fs.subrange(1, fs.len() as int)))
}

/// The canonical list or set header: inline count below fifteen, else
/// the extension nibble and a varint count.
pub open spec fn enc_list_header(t: WireType, n: nat) -> Seq<u8> {
    if n < 15 {
        seq![(n * 16 + spec_tag_of(t)) as u8]
    } else {
        seq![(0xF0 + spec_tag_of(t)) as u8] + enc_varint(n)
    }
}

/// The canonical encoding of one value, in its collection-element form:
/// booleans one byte, field ids always in the absolute zigzag form.
pub open spec fn enc_value(v: GValue) -> Seq<u8>
    decreases v,
{
    match v {
        GValue::Bool(b) => seq![if b { 1u8 } else { 0u8 }],
        GValue::I8(x) => seq![x as u8],
        GValue::I16(x) => enc_zigzag(x as int),
        GValue::I32(x) => enc_zigzag(x as int),
        GValue::I64(x) => enc_zigzag(x as int),
        GValue::DoubleBits(d) => enc_le_u64(d),
        GValue::Binary(b) => enc_varint(b.len()) + b,
        GValue::List(t, xs) => enc_list_header(t, xs.len()) + enc_elems(xs),
        GValue::SetOf(t, xs) => enc_list_header(t, xs.len()) + enc_elems(xs),
        GValue::MapOf(ps) => enc_varint(ps.len()) + if ps.len() == 0 {
            Seq::empty()
        } else {
            seq![(spec_tag_of(tag_for(ps[0].0)) * 16 + spec_tag_of(tag_for(ps[0].1))) as u8]
                + enc_pairs(ps)
        },
        GValue::Struct(fs) => enc_fields(fs) + seq![0u8],
    }
}

/// The canonical encodings of the elements, back to back.
pub open spec fn enc_elems(xs: Seq<GValue>) -> Seq<u8>
    decreases xs,
{
    if xs.len() == 0 {
        Seq::empty()
    } else {
        enc_value(xs[0]) + enc_elems(xs.subrange(1, xs.len() as int))
    }
}

/// The canonical encodings of the key/value pairs, back to back.
pub open spec fn enc_pairs(ps: Seq<(GValue, GValue)>) -> Seq<u8>
    decreases ps,
{
    if ps.len() == 0 {
        Seq::empty()
    } else {
        enc_value(ps[0].0) + enc_value(ps[0].1) + enc_pairs(ps.subrange(1, ps.len() as int))
    }
}

/// The canonical encodings of the fields, each header in the absolute
/// form, a boolean's value in its header tag; without the stop byte.
pub open spec fn enc_fields(fs: Seq<(i16, GValue)>) -> Seq<u8>
    decreases fs,
{
    if fs.len() == 0 {
        Seq::empty()
    } else {
        let id = fs[0].0;
        let v = fs[0].1;
        let tagb = match v {
            GValue::Bool(b) => if b { 1u8 } else { 2u8 },
            _ => spec_tag_of(tag_for(v)),
        };
        let body = match v {
            GValue::Bool(_) => Seq::<u8>::empty(),
            _ => enc_value(v),
        };
        seq![tagb] + enc_zigzag(id as int) + body + enc_fields(fs.subrange(1, fs.len() as int))
    }
}

/// Decoding a canonical list or set header gives back the element type
/// and count, whatever follows.
pub proof fn lemma_list_header_roundtrip(t: WireType, n: nat, rest: Seq<u8>)
    requires
        n <= usize::MAX,
    ensures
        spec_list_header(enc_list_header(t, n) + rest) == Ok::<
            ((WireType, nat), nat),
            crate::error::DecodeError,
        >(((t, n), enc_list_header(t, n).len())),
{
    assert(1 <= spec_tag_of(t) <= 12);
    let s = enc_list_header(t, n) + rest;
    if n < 15 {
        assert(s[0] == (n * 16 + spec_tag_of(t)) as u8);
        assert(s[0] / 16 == n && s[0] % 16 == spec_tag_of(t)) by {
            vstd::arithmetic::div_mod::lemma_fundamental_div_mod_converse(
                n * 16 + spec_tag_of(t),
                16,
                n as int,
                spec_tag_of(t) as int,
            );
        }
        assert(spec_wire_of(spec_tag_of(t)) == Some(t));
    } else {
        assert(s[0] == (0xF0 + spec_tag_of(t)) as u8);
        assert(s[0] / 16 == 15 && s[0] % 16 == spec_tag_of(t)) by {
            vstd::arithmetic::div_mod::lemma_fundamental_div_mod_converse(
                0xF0 + spec_tag_of(t),
                16,
                15,
                spec_tag_of(t) as int,
            );
        }
        assert(spec_wire_of(spec_tag_of(t)) == Some(t));
        assert(s.skip(1) =~= enc_varint(n) + rest);
        lemma_varint_roundtrip(n, rest);
    }
}

/// Decoding the canonical encoding of a well-formed value, under any
/// element type it may stand for, gives back that value, whatever
/// follows it.
#[verifier::rlimit(100)]
#[verifier::spinoff_prover]
pub proof fn lemma_value_roundtrip(v: GValue, t: WireType, rest: Seq<u8>)
    requires
        wf_value(v),
        elem_ok(t, v),
    ensures
        spec_value(enc_value(v) + rest, t) == Ok::<(GValue, nat), crate::error::DecodeError>(
            (v, enc_value(v).len()),
        ),
    decreases v, 3nat,
{
    let s = enc_value(v) + rest;
    match v {
        GValue::Bool(b) => {
            lemma_bool_roundtrip(b, rest);
        },
        GValue::I8(x) => {
            lemma_i8_roundtrip(x, rest);
        },
        GValue::I16(x) => {
            lemma_i16_roundtrip(x, rest);
        },
        GValue::I32(x) => {
            lemma_i32_roundtrip(x, rest);
        },
        GValue::I64(x) => {
            lemma_i64_roundtrip(x, rest);
        },
        GValue::DoubleBits(d) => {
            lemma_double_roundtrip(d, rest);
        },
        GValue::Binary(b) => {
            lemma_binary_roundtrip(b, rest);
            assert(enc_varint(b.len()) + b + rest =~= s);
        },
        GValue::List(et, xs) => {
            lemma_list_roundtrip(et, xs, rest);
        },
        GValue::SetOf(et, xs) => {
            lemma_set_roundtrip(et, xs, rest);
        },
        GValue::MapOf(ps) => {
            lemma_map_roundtrip(ps, rest);
        },
        GValue::Struct(fs) => {
            assert(enc_fields(fs) + seq![0u8] + rest =~= s);
            lemma_fields_roundtrip(fs, 0, rest);
        },
    }
}

/// The list case of the round trip: header then elements.
#[verifier::rlimit(100)]
#[verifier::spinoff_prover]
proof fn lemma_list_roundtrip(et: WireType, xs: Seq<GValue>, rest: Seq<u8>)
    requires
        wf_value(GValue::List(et, xs)),
    ensures
        spec_value(enc_value(GValue::List(et, xs)) + rest, WireType::List) == Ok::<
            (GValue, nat),
            crate::error::DecodeError,
        >((GValue::List(et, xs), enc_value(GValue::List(et, xs)).len())),
    decreases GValue::List(et, xs), 1nat,
{
    let s = enc_value(GValue::List(et, xs)) + rest;
    let hdr = enc_list_header(et, xs.len());
    lemma_list_header_roundtrip(et, xs.len(), enc_elems(xs) + rest);
    assert(hdr + (enc_elems(xs) + rest) =~= s);
    assert(s.skip(hdr.len() as int) =~= enc_elems(xs) + rest);
    lemma_elems_roundtrip(xs, et, rest);
}

/// The set case of the round trip: header then elements.
#[verifier::rlimit(100)]
#[verifier::spinoff_prover]
proof fn lemma_set_roundtrip(et: WireType, xs: Seq<GValue>, rest: Seq<u8>)
    requires
        wf_value(GValue::SetOf(et, xs)),
    ensures
        spec_value(enc_value(GValue::SetOf(et, xs)) + rest, WireType::SetOf) == Ok::<
            (GValue, nat),
            crate::error::DecodeError,
        >((GValue::SetOf(et, xs), enc_value(GValue::SetOf(et, xs)).len())),
    decreases GValue::SetOf(et, xs), 1nat,
{
    let s = enc_value(GValue::SetOf(et, xs)) + rest;
    let hdr = enc_list_header(et, xs.len());
    lemma_list_header_roundtrip(et, xs.len(), enc_elems(xs) + rest);
    assert(hdr + (enc_elems(xs) + rest) =~= s);
    assert(s.skip(hdr.len() as int) =~= enc_elems(xs) + rest);
    lemma_elems_roundtrip(xs, et, rest);
}

/// The map case of the round trip: size, type byte, pairs.
#[verifier::rlimit(100)]
#[verifier::spinoff_prover]
proof fn lemma_map_roundtrip(ps: Seq<(GValue, GValue)>, rest: Seq<u8>)
    requires
        wf_value(GValue::MapOf(ps)),
    ensures
        spec_value(enc_value(GValue::MapOf(ps)) + rest, WireType::MapOf) == Ok::<
            (GValue, nat),
            crate::error::DecodeError,
        >((GValue::MapOf(ps), enc_value(GValue::MapOf(ps)).len())),
    decreases GValue::MapOf(ps), 1nat,
{
    let s = enc_value(GValue::MapOf(ps)) + rest;
    let n = ps.len();
    let sz = enc_varint(n);
    if n == 0 {
        lemma_varint_roundtrip(0, rest);
        assert(ps =~= Seq::<(GValue, GValue)>::empty());
        assert(enc_value(GValue::MapOf(ps)) =~= sz);
        assert(sz + rest =~= s);
        assert(spec_map_header(s) == Ok::<
            ((nat, Option<(WireType, WireType)>), nat),
            crate::error::DecodeError,
        >(((0nat, None), sz.len())));
    } else {
        let kt = tag_for(ps[0].0);
        let vt = tag_for(ps[0].1);
        let tb = (spec_tag_of(kt) * 16 + spec_tag_of(vt)) as u8;
        let tail = seq![tb] + enc_pairs(ps);
        lemma_varint_roundtrip(n, tail + rest);
        assert(sz + (tail + rest) =~= s);
        assert(s[sz.len() as int] == tb);
        assert(1 <= spec_tag_of(kt) <= 12 && 1 <= spec_tag_of(vt) <= 12);
        assert(tb / 16 == spec_tag_of(kt) && tb % 16 == spec_tag_of(vt)) by {
            vstd::arithmetic::div_mod::lemma_fundamental_div_mod_converse(
                spec_tag_of(kt) * 16 + spec_tag_of(vt),
                16,
                spec_tag_of(kt) as int,
                spec_tag_of(vt) as int,
            );
        }
        assert(spec_wire_of(spec_tag_of(kt)) == Some(kt));
        assert(spec_wire_of(spec_tag_of(vt)) == Some(vt));
        assert(s.skip(sz.len() + 1 as int) =~= enc_pairs(ps) + rest);
        lemma_pairs_roundtrip(ps, kt, vt, rest);
    }
}

/// Decoding the canonical encodings of `xs.len()` well-formed elements
/// gives back the elements, whatever follows.
#[verifier::rlimit(100)]
#[verifier::spinoff_prover]
pub proof fn lemma_elems_roundtrip(xs: Seq<GValue>, t: WireType, rest: Seq<u8>)
    requires
        wf_elems(t, xs),
    ensures
        spec_elems(enc_elems(xs) + rest, t, xs.len()) == Ok::<
            (Seq<GValue>, nat),
            crate::error::DecodeError,
        >((xs, enc_elems(xs).len())),
    decreases xs, 2nat,
{
    let s = enc_elems(xs) + rest;
    if xs.len() == 0 {
        assert(xs =~= Seq::<GValue>::empty());
    } else {
        let tail = xs.subrange(1, xs.len() as int);
        lemma_value_roundtrip(xs[0], t, enc_elems(tail) + rest);
        assert(enc_value(xs[0]) + (enc_elems(tail) + rest) =~= s);
        assert(s.skip(enc_value(xs[0]).len() as int) =~= enc_elems(tail) + rest);
        lemma_elems_roundtrip(tail, t, rest);
        assert(seq![xs[0]] + tail =~= xs);
    }
}

/// Concatenation and skip algebra for four byte sequences.
proof fn lemma_concat4(a: Seq<u8>, b: Seq<u8>, c: Seq<u8>, d: Seq<u8>)
    ensures
        a + b + c + d == a + (b + (c + d)),
        (a + (b + (c + d))).skip(a.len() as int) == b + (c + d),
        (a + (b + (c + d))).skip((a.len() + b.len()) as int) == c + d,
{
    assert(a + b + c + d =~= a + (b + (c + d)));
    assert((a + (b + (c + d))).skip(a.len() as int) =~= b + (c + d));
    assert((a + (b + (c + d))).skip((a.len() + b.len()) as int) =~= c + d);
}

/// Decoding the head pair of a canonical pair encoding: the key and
/// value at the front, and what remains after them.
#[verifier::rlimit(100)]
#[verifier::spinoff_prover]
proof fn lemma_pair_head(ps: Seq<(GValue, GValue)>, kt: WireType, vt: WireType, rest: Seq<u8>)
    requires
        ps.len() >= 1,
        elem_ok(kt, ps[0].0),
        elem_ok(vt, ps[0].1),
        wf_value(ps[0].0),
        wf_value(ps[0].1),
    ensures
        ({
            let s = enc_pairs(ps) + rest;
            let ek = enc_value(ps[0].0);
            let ev = enc_value(ps[0].1);
            let tail = ps.subrange(1, ps.len() as int);
            &&& spec_value(s, kt) == Ok::<(GValue, nat), crate::error::DecodeError>(
                (ps[0].0, ek.len()),
            )
            &&& ek.len() <= s.len()
            &&& spec_value(s.skip(ek.len() as int), vt) == Ok::<
                (GValue, nat),
                crate::error::DecodeError,
            >((ps[0].1, ev.len()))
            &&& ek.len() + ev.len() <= s.len()
            &&& s.skip((ek.len() + ev.len()) as int) == enc_pairs(tail) + rest
            &&& enc_pairs(ps).len() == ek.len() + ev.len() + enc_pairs(tail).len()
        }),
    decreases ps, 1nat,
{
    let s = enc_pairs(ps) + rest;
    let tail = ps.subrange(1, ps.len() as int);
    let ek = enc_value(ps[0].0);
    let ev = enc_value(ps[0].1);
    let ep = enc_pairs(tail);
    assert(enc_pairs(ps) == ek + ev + ep);
    lemma_concat4(ek, ev, ep, rest);
    assert(s == ek + (ev + (ep + rest)));
    lemma_value_roundtrip(ps[0].0, kt, ev + (ep + rest));
    lemma_value_roundtrip(ps[0].1, vt, ep + rest);
    assert(ep + rest =~= enc_pairs(tail) + rest);
}

/// One unfolding step of `spec_pairs`: given the decoded key, value and
/// remaining pairs, the whole sequence decodes to their cons.
proof fn lemma_pairs_cons(
    s: Seq<u8>,
    kt: WireType,
    vt: WireType,
    n: nat,
    k: GValue,
    v: GValue,
    ck: nat,
    cv: nat,
    rest_pairs: Seq<(GValue, GValue)>,
    crest: nat,
)
    requires
        n >= 1,
        spec_value(s, kt) == Ok::<(GValue, nat), crate::error::DecodeError>((k, ck)),
        ck <= s.len(),
        spec_value(s.skip(ck as int), vt) == Ok::<(GValue, nat), crate::error::DecodeError>(
            (v, cv),
        ),
        ck + cv <= s.len(),
        spec_pairs(s.skip((ck + cv) as int), kt, vt, (n - 1) as nat) == Ok::<
            (Seq<(GValue, GValue)>, nat),
            crate::error::DecodeError,
        >((rest_pairs, crest)),
    ensures
        spec_pairs(s, kt, vt, n) == Ok::<(Seq<(GValue, GValue)>, nat), crate::error::DecodeError>(
            (seq![(k, v)] + rest_pairs, (ck + cv + crest) as nat),
        ),
{
}

/// Decoding the canonical encodings of `ps.len()` well-formed pairs
/// gives back the pairs, whatever follows.
#[verifier::rlimit(100)]
#[verifier::spinoff_prover]
pub proof fn lemma_pairs_roundtrip(ps: Seq<(GValue, GValue)>, kt: WireType, vt: WireType, rest: Seq<u8>)
    requires
        wf_pairs(kt, vt, ps),
    ensures
        spec_pairs(enc_pairs(ps) + rest, kt, vt, ps.len()) == Ok::<
            (Seq<(GValue, GValue)>, nat),
            crate::error::DecodeError,
        >((ps, enc_pairs(ps).len())),
    decreases ps, 2nat,
{
    let s = enc_pairs(ps) + rest;
    if ps.len() == 0 {
        assert(ps =~= Seq::<(GValue, GValue)>::empty());
    } else {
        let tail = ps.subrange(1, ps.len() as int);
        let ek = enc_value(ps[0].0);
        let ev = enc_value(ps[0].1);
        lemma_pair_head(ps, kt, vt, rest);
        lemma_pairs_roundtrip(tail, kt, vt, rest);
        lemma_pairs_cons(
            s,
            kt,
            vt,
            ps.len(),
            ps[0].0,
            ps[0].1,
            ek.len(),
            ev.len(),
            tail,
            enc_pairs(tail).len(),
        );
        assert(seq![(ps[0].0, ps[0].1)] + tail =~= ps);
        assert(enc_pairs(ps).len() == ek.len() + ev.len() + enc_pairs(tail).len());
    }
}

/// Decoding the canonical field encodings up to the stop byte gives
/// back the fields, from any previous field id: the absolute id form
/// does not depend on it.
#[verifier::rlimit(100)]
#[verifier::spinoff_prover]
pub proof fn lemma_fields_roundtrip(fs: Seq<(i16, GValue)>, last: i16, rest: Seq<u8>)
    requires
        wf_fields(fs),
    ensures
        spec_struct_fields(enc_fields(fs) + seq![0u8] + rest, last) == Ok::<
            (Seq<(i16, GValue)>, nat),
            crate::error::DecodeError,
        >((fs, (enc_fields(fs).len() + 1) as nat)),
    decreases fs, 2nat,
{
    let s = enc_fields(fs) + seq![0u8] + rest;
    if fs.len() == 0 {
        assert(s[0] == 0);
        assert(fs =~= Seq::<(i16, GValue)>::empty());
    } else {
        let id = fs[0].0;
        let v = fs[0].1;
        let tail = fs.subrange(1, fs.len() as int);
        let tagb = match v {
            GValue::Bool(b) => if b { 1u8 } else { 2u8 },
            _ => spec_tag_of(tag_for(v)),
        };
        let body = match v {
            GValue::Bool(_) => Seq::<u8>::empty(),
            _ => enc_value(v),
        };
        let zid = enc_zigzag(id as int);
        let after = enc_fields(tail) + seq![0u8] + rest;
        assert(seq![tagb] + zid + body + after =~= s);
        assert(s[0] == tagb);
        assert(1 <= tagb <= 12);
        assert(s[0] / 16 == 0 && s[0] % 16 == tagb) by {
            vstd::arithmetic::div_mod::lemma_fundamental_div_mod_converse(
                tagb as int,
                16,
                0,
                tagb as int,
            );
        }
        assert(s.skip(1) =~= zid + (body + after));
        lemma_i16_roundtrip(id, body + after);
        let hn = 1 + zid.len();
        assert(s.skip(hn as int) =~= body + after);
        match v {
            GValue::Bool(b) => {
                assert(spec_wire_of(tagb) == Some(
                    if b {
                        WireType::BoolTrue
                    } else {
                        WireType::BoolFalse
                    },
                ));
                assert(s.skip(hn as int) =~= after);
                lemma_fields_roundtrip(tail, id, rest);
                assert(seq![(id, v)] + tail =~= fs);
            },
            _ => {
                assert(spec_wire_of(tagb) == Some(tag_for(v)));
                assert(!(tag_for(v) == WireType::BoolTrue || tag_for(v) == WireType::BoolFalse));
                assert(elem_ok(tag_for(v), v));
                lemma_value_roundtrip(v, tag_for(v), after);
                assert((body + after).skip(body.len() as int) =~= after);
                assert(s.skip((hn + body.len()) as int) =~= after);
                lemma_fields_roundtrip(tail, id, rest);
                assert(seq![(id, v)] + tail =~= fs);
            },
        }
    }
}

/// Round trip: decoding the canonical encoding of any well-formed value
/// — nested structs, lists, sets, maps and primitives alike — under its
/// own wire type gives back an equal value.
pub proof fn lemma_decode_encode_roundtrip(v: GValue, rest: Seq<u8>)
    requires
        wf_value(v),
    ensures
        spec_value(enc_value(v) + rest, tag_for(v)) == Ok::<
            (GValue, nat),
            crate::error::DecodeError,
        >((v, enc_value(v).len())),
{
    lemma_value_roundtrip(v, tag_for(v), rest);
}

} // verus!
