//! The generic value tree: a tagged union over every decodable shape,
//! built bottom-up in one decode pass without prior schema knowledge,
//! and its ghost mirror used by the contracts.

use vstd::prelude::*;

use crate::decoder::{
    spec_binary, spec_bool_value, spec_double_bits, spec_field_header, spec_i8, spec_list_header,
    spec_map_header, CompactReader, FieldHeader,
};
use crate::error::DecodeError;
use crate::varint::{spec_zigzag_i16, spec_zigzag_i32, spec_zigzag_i64};
use crate::wire::WireType;

verus! {

/// Ghost mirror of `ValueNode`: the mathematical shape the contracts
/// speak of. A double is carried as its raw IEEE-754 bit pattern.
pub enum GValue {
    Bool(bool),
    I8(i8),
    I16(i16),
    I32(i32),
    I64(i64),
    DoubleBits(u64),
    Binary(Seq<u8>),
    List(WireType, Seq<GValue>),
    SetOf(WireType, Seq<GValue>),
    MapOf(Seq<(GValue, GValue)>),
    Struct(Seq<(i16, GValue)>),
}

/// A decoded value: primitive, collection, or struct. Doubles keep their
/// raw bit pattern; binaries and names stay raw byte sequences.
#[derive(Debug, PartialEq, Eq)]
pub enum ValueNode {
    Bool(bool),
    I8(i8),
    I16(i16),
    I32(i32),
    I64(i64),
    DoubleBits(u64),
    Binary(Vec<u8>),
    List(WireType, Vec<ValueNode>),
    SetOf(WireType, Vec<ValueNode>),
    MapOf(Vec<(ValueNode, ValueNode)>),
    Struct(Vec<(i16, ValueNode)>),
}

impl ValueNode {
    /// The ghost mirror of this value: same shape, with sequences for
    /// vectors.
    pub open spec fn dv(self) -> GValue
        decreases self,
    {
        match self {
            ValueNode::Bool(b) => GValue::Bool(b),
            ValueNode::I8(v) => GValue::I8(v),
            ValueNode::I16(v) => GValue::I16(v),
            ValueNode::I32(v) => GValue::I32(v),
            ValueNode::I64(v) => GValue::I64(v),
            ValueNode::DoubleBits(v) => GValue::DoubleBits(v),
            ValueNode::Binary(v) => GValue::Binary(v@),
            ValueNode::List(t, xs) => GValue::List(t, dv_seq(xs@)),
            ValueNode::SetOf(t, xs) => GValue::SetOf(t, dv_seq(xs@)),
            ValueNode::MapOf(ps) => GValue::MapOf(dv_pairs(ps@)),
            ValueNode::Struct(fs) => GValue::Struct(dv_fields(fs@)),
        }
    }
}

/// The ghost mirrors of a sequence of values, in order.
pub open spec fn dv_seq(xs: Seq<ValueNode>) -> Seq<GValue>
    decreases xs,
{
    if xs.len() == 0 {
        Seq::empty()
    } else {
        seq![xs[0].dv()] + dv_seq(xs.subrange(1, xs.len() as int))
    }
}

/// The ghost mirrors of a sequence of key/value pairs, in order.
pub open spec fn dv_pairs(ps: Seq<(ValueNode, ValueNode)>) -> Seq<(GValue, GValue)>
    decreases ps,
{
    if ps.len() == 0 {
        Seq::empty()
    } else {
        seq![(ps[0].0.dv(), ps[0].1.dv())] + dv_pairs(ps.subrange(1, ps.len() as int))
    }
}

/// The ghost mirrors of a sequence of struct fields, in order.
pub open spec fn dv_fields(fs: Seq<(i16, ValueNode)>) -> Seq<(i16, GValue)>
    decreases fs,
{
    if fs.len() == 0 {
        Seq::empty()
    } else {
        seq![(fs[0].0, fs[0].1.dv())] + dv_fields(fs.subrange(1, fs.len() as int))
    }
}

/// `dv_seq` maps each element to its mirror.
pub proof fn lemma_dv_seq(xs: Seq<ValueNode>)
    ensures
        dv_seq(xs).len() == xs.len(),
        forall|i: int| 0 <= i < xs.len() ==> dv_seq(xs)[i] == #[trigger] xs[i].dv(),
    decreases xs.len(),
{
    if xs.len() > 0 {
        let tail = xs.subrange(1, xs.len() as int);
        lemma_dv_seq(tail);
        assert forall|i: int| 0 <= i < xs.len() implies dv_seq(xs)[i] == #[trigger] xs[i].dv() by {
            if i > 0 {
                assert(tail[i - 1] == xs[i]);
                assert(dv_seq(xs)[i] == dv_seq(tail)[i - 1]);
            }
        }
    }
}

/// `dv_pairs` maps each pair to its mirrors.
pub proof fn lemma_dv_pairs(ps: Seq<(ValueNode, ValueNode)>)
    ensures
        dv_pairs(ps).len() == ps.len(),
        forall|i: int| 0 <= i < ps.len() ==> #[trigger] dv_pairs(ps)[i] == (
            ps[i].0.dv(),
            ps[i].1.dv(),
        ),
    decreases ps.len(),
{
    if ps.len() > 0 {
        let tail = ps.subrange(1, ps.len() as int);
        lemma_dv_pairs(tail);
        assert forall|i: int| 0 <= i < ps.len() implies #[trigger] dv_pairs(ps)[i] == (
            ps[i].0.dv(),
            ps[i].1.dv(),
        ) by {
            if i > 0 {
                assert(tail[i - 1] == ps[i]);
                assert(dv_pairs(ps)[i] == dv_pairs(tail)[i - 1]);
            }
        }
    }
}

/// `dv_fields` keeps each field id and mirrors its value.
pub proof fn lemma_dv_fields(fs: Seq<(i16, ValueNode)>)
    ensures
        dv_fields(fs).len() == fs.len(),
        forall|i: int| 0 <= i < fs.len() ==> #[trigger] dv_fields(fs)[i] == (
            fs[i].0,
            fs[i].1.dv(),
        ),
    decreases fs.len(),
{
    if fs.len() > 0 {
        let tail = fs.subrange(1, fs.len() as int);
        lemma_dv_fields(tail);
        assert forall|i: int| 0 <= i < fs.len() implies #[trigger] dv_fields(fs)[i] == (
            fs[i].0,
            fs[i].1.dv(),
        ) by {
            if i > 0 {
                assert(tail[i - 1] == fs[i]);
                assert(dv_fields(fs)[i] == dv_fields(tail)[i - 1]);
            }
        }
    }
}

/// The value of wire type `t` at the front of `s`, with the number of
/// bytes it occupies: the meaning of one complete compact-protocol
/// value, driven without schema knowledge.
pub open spec fn spec_value(s: Seq<u8>, t: WireType) -> Result<(GValue, nat), DecodeError>
    decreases s.len(), 0nat, 1nat,
{
    match t {
        WireType::BoolTrue => match spec_bool_value(s) {
            Err(e) => Err(e),
            Ok(p) => Ok((GValue::Bool(p.0), p.1)),
        },
        WireType::BoolFalse => match spec_bool_value(s) {
            Err(e) => Err(e),
            Ok(p) => Ok((GValue::Bool(p.0), p.1)),
        },
        WireType::I8 => match spec_i8(s) {
            Err(e) => Err(e),
            Ok(p) => Ok((GValue::I8(p.0), p.1)),
        },
        WireType::I16 => match spec_zigzag_i16(s) {
            Err(e) => Err(e),
            Ok(p) => Ok((GValue::I16(p.0), p.1)),
        },
        WireType::I32 => match spec_zigzag_i32(s) {
            Err(e) => Err(e),
            Ok(p) => Ok((GValue::I32(p.0), p.1)),
        },
        WireType::I64 => match spec_zigzag_i64(s) {
            Err(e) => Err(e),
            Ok(p) => Ok((GValue::I64(p.0), p.1)),
        },
        WireType::Double => match spec_double_bits(s) {
            Err(e) => Err(e),
            Ok(p) => Ok((GValue::DoubleBits(p.0), p.1)),
        },
        WireType::Binary => match spec_binary(s) {
            Err(e) => Err(e),
            Ok(p) => Ok((GValue::Binary(p.0), p.1)),
        },
        WireType::List => match spec_list_header(s) {
            Err(e) => Err(e),
            Ok(h) => if h.1 > s.len() {
                Err(DecodeError::UnexpectedEof)
            } else {
                match spec_elems(s.skip(h.1 as int), h.0.0, h.0.1) {
                    Err(e) => Err(e),
                    Ok(q) => Ok((GValue::List(h.0.0, q.0), (h.1 + q.1) as nat)),
                }
            },
        },
        WireType::SetOf => match spec_list_header(s) {
            Err(e) => Err(e),
            Ok(h) => if h.1 > s.len() {
                Err(DecodeError::UnexpectedEof)
            } else {
                match spec_elems(s.skip(h.1 as int), h.0.0, h.0.1) {
                    Err(e) => Err(e),
                    Ok(q) => Ok((GValue::SetOf(h.0.0, q.0), (h.1 + q.1) as nat)),
                }
            },
        },
        WireType::MapOf => match spec_map_header(s) {
            Err(e) => Err(e),
            Ok(h) => if h.1 > s.len() {
                Err(DecodeError::UnexpectedEof)
            } else {
                match h.0.1 {
                    None => Ok((GValue::MapOf(Seq::empty()), h.1)),
                    Some(tys) => match spec_pairs(s.skip(h.1 as int), tys.0, tys.1, h.0.0) {
                        Err(e) => Err(e),
                        Ok(q) => Ok((GValue::MapOf(q.0), (h.1 + q.1) as nat)),
                    },
                }
            },
        },
        WireType::Struct => match spec_struct_fields(s, 0) {
            Err(e) => Err(e),
            Ok(q) => Ok((GValue::Struct(q.0), q.1)),
        },
    }
}

/// `n` back-to-back values of wire type `t` at the front of `s`, with
/// the number of bytes they occupy.
pub open spec fn spec_elems(s: Seq<u8>, t: WireType, n: nat) -> Result<
    (Seq<GValue>, nat),
    DecodeError,
>
    decreases s.len(), n, 2nat,
{
    if n == 0 {
        Ok((Seq::empty(), 0nat))
    } else {
        match spec_value(s, t) {
            Err(e) => Err(e),
            Ok(p) => if p.1 > s.len() {
                Err(DecodeError::UnexpectedEof)
            } else {
                match spec_elems(s.skip(p.1 as int), t, (n - 1) as nat) {
                    Err(e) => Err(e),
                    Ok(q) => Ok((seq![p.0] + q.0, (p.1 + q.1) as nat)),
                }
            },
        }
    }
}

/// `n` back-to-back key/value pairs at the front of `s`, with the number
/// of bytes they occupy.
pub open spec fn spec_pairs(s: Seq<u8>, kt: WireType, vt: WireType, n: nat) -> Result<
    (Seq<(GValue, GValue)>, nat),
    DecodeError,
>
    decreases s.len(), n, 2nat,
{
    if n == 0 {
        Ok((Seq::empty(), 0nat))
    } else {
        match spec_value(s, kt) {
            Err(e) => Err(e),
            Ok(kp) => if kp.1 > s.len() {
                Err(DecodeError::UnexpectedEof)
            } else {
                match spec_value(s.skip(kp.1 as int), vt) {
                    Err(e) => Err(e),
                    Ok(vp) => if kp.1 + vp.1 > s.len() {
                        Err(DecodeError::UnexpectedEof)
                    } else {
                        match spec_pairs(s.skip(kp.1 + vp.1 as int), kt, vt, (n - 1) as nat) {
                            Err(e) => Err(e),
                            Ok(q) => Ok((seq![(kp.0, vp.0)] + q.0, (kp.1 + vp.1 + q.1) as nat)),
                        }
                    },
                }
            },
        }
    }
}

/// The field list of a struct at the front of `s`, up to and including
/// its stop byte, threading the delta-relative field id from `last`: the
/// decoded `(id, value)` pairs in order and the bytes they occupy. A
/// boolean field consumes no value bytes: its value stands in the
/// header's wire type.
pub open spec fn spec_struct_fields(s: Seq<u8>, last: i16) -> Result<
    (Seq<(i16, GValue)>, nat),
    DecodeError,
>
    decreases s.len(), 0nat, 0nat,
{
    match spec_field_header(s, last) {
        Err(e) => Err(e),
        Ok(p) => if p.1 > s.len() {
            Err(DecodeError::UnexpectedEof)
        } else {
            match p.0 {
                FieldHeader::Stop => Ok((Seq::empty(), p.1)),
                FieldHeader::Field(id, w) => if w == WireType::BoolTrue || w
                    == WireType::BoolFalse {
                    match spec_struct_fields(s.skip(p.1 as int), id) {
                        Err(e) => Err(e),
                        Ok(q) => Ok((
                            seq![(id, GValue::Bool(w == WireType::BoolTrue))] + q.0,
                            (p.1 + q.1) as nat,
                        )),
                    }
                } else {
                    match spec_value(s.skip(p.1 as int), w) {
                        Err(e) => Err(e),
                        Ok(vp) => if p.1 + vp.1 > s.len() {
                            Err(DecodeError::UnexpectedEof)
                        } else {
                            match spec_struct_fields(s.skip(p.1 + vp.1 as int), id) {
                                Err(e) => Err(e),
                                Ok(q) => Ok((
                                    seq![(id, vp.0)] + q.0,
                                    (p.1 + vp.1 + q.1) as nat,
                                )),
                            }
                        },
                    }
                },
            }
        },
    }
}

impl CompactReader {
    /// Reads one complete value of wire type `t`, recursing through
    /// nested structs and collections, as `spec_value` says of the
    /// remaining bytes.
    #[verifier::rlimit(80)]
    #[verifier::spinoff_prover]
    pub fn read_value(&mut self, t: WireType) -> (r: Result<ValueNode, DecodeError>)
        requires
            old(self).wf(),
        ensures
            final(self).wf(),
            final(self).bytes() == old(self).bytes(),
            final(self).position() >= old(self).position(),
            (match r {
                Ok(v) => (spec_value(old(self).remaining(), t) matches Ok(p) && p.0 == v.dv()
                    && final(self).position() == old(self).position() + p.1) && final(self).last_id() == old(self).last_id() && final(self).saved() == old(self).saved(),
                Err(e) => spec_value(old(self).remaining(), t) == Err::<
                    (GValue, nat),
                    DecodeError,
                >(e),
            }),
        decreases old(self).bytes().len() - old(self).position(), 0nat, 3nat,
    {
        match t {
            WireType::BoolTrue => match self.read_bool_element() {
                Ok(b) => Ok(ValueNode::Bool(b)),
                Err(e) => Err(e),
            },
            WireType::BoolFalse => match self.read_bool_element() {
                Ok(b) => Ok(ValueNode::Bool(b)),
                Err(e) => Err(e),
            },
            WireType::I8 => match self.read_i8() {
                Ok(v) => Ok(ValueNode::I8(v)),
                Err(e) => Err(e),
            },
            WireType::I16 => match self.read_i16() {
                Ok(v) => Ok(ValueNode::I16(v)),
                Err(e) => Err(e),
            },
            WireType::I32 => match self.read_i32() {
                Ok(v) => Ok(ValueNode::I32(v)),
                Err(e) => Err(e),
            },
            WireType::I64 => match self.read_i64() {
                Ok(v) => Ok(ValueNode::I64(v)),
                Err(e) => Err(e),
            },
            WireType::Double => match self.read_double_bits() {
                Ok(v) => Ok(ValueNode::DoubleBits(v)),
                Err(e) => Err(e),
            },
            WireType::Binary => match self.read_binary() {
                Ok(v) => Ok(ValueNode::Binary(v)),
                Err(e) => Err(e),
            },
            WireType::List => self.read_list_value(),
            WireType::SetOf => self.read_set_value(),
            WireType::MapOf => self.read_map_value(),
            WireType::Struct => self.read_struct_value(),
        }
    }

    /// Reads a list value: header then elements.
    #[verifier::rlimit(80)]
    #[verifier::spinoff_prover]
    fn read_list_value(&mut self) -> (r: Result<ValueNode, DecodeError>)
        requires
            old(self).wf(),
        ensures
            final(self).wf(),
            final(self).bytes() == old(self).bytes(),
            final(self).position() >= old(self).position(),
            (match r {
                Ok(v) => (spec_value(old(self).remaining(), WireType::List) matches Ok(p) && p.0
                    == v.dv() && final(self).position() == old(self).position() + p.1) && final(self).last_id() == old(self).last_id() && final(self).saved() == old(self).saved(),
                Err(e) => spec_value(old(self).remaining(), WireType::List) == Err::<
                    (GValue, nat),
                    DecodeError,
                >(e),
            }),
        decreases old(self).bytes().len() - old(self).position(), 0nat, 1nat,
    {
        let h = match self.read_list_begin() {
            Ok(h) => h,
            Err(e) => {
                return Err(e);
            },
        };
        proof {
            assert(self.position() > old(self).position());
            assert(self.remaining() =~= old(self).remaining().skip(
                self.position() - old(self).position(),
            ));
        }
        match self.read_elems(h.0, h.1) {
            Ok(vs) => Ok(ValueNode::List(h.0, vs)),
            Err(e) => Err(e),
        }
    }

    /// Reads a set value: header then elements.
    #[verifier::rlimit(80)]
    #[verifier::spinoff_prover]
    fn read_set_value(&mut self) -> (r: Result<ValueNode, DecodeError>)
        requires
            old(self).wf(),
        ensures
            final(self).wf(),
            final(self).bytes() == old(self).bytes(),
            final(self).position() >= old(self).position(),
            (match r {
                Ok(v) => (spec_value(old(self).remaining(), WireType::SetOf) matches Ok(p) && p.0
                    == v.dv() && final(self).position() == old(self).position() + p.1) && final(self).last_id() == old(self).last_id() && final(self).saved() == old(self).saved(),
                Err(e) => spec_value(old(self).remaining(), WireType::SetOf) == Err::<
                    (GValue, nat),
                    DecodeError,
                >(e),
            }),
        decreases old(self).bytes().len() - old(self).position(), 0nat, 1nat,
    {
        let h = match self.read_list_begin() {
            Ok(h) => h,
            Err(e) => {
                return Err(e);
            },
        };
        proof {
            assert(self.position() > old(self).position());
            assert(self.remaining() =~= old(self).remaining().skip(
                self.position() - old(self).position(),
            ));
        }
        match self.read_elems(h.0, h.1) {
            Ok(vs) => Ok(ValueNode::SetOf(h.0, vs)),
            Err(e) => Err(e),
        }
    }

    /// Reads a map value: header then key/value pairs.
    #[verifier::rlimit(80)]
    #[verifier::spinoff_prover]
    fn read_map_value(&mut self) -> (r: Result<ValueNode, DecodeError>)
        requires
            old(self).wf(),
        ensures
            final(self).wf(),
            final(self).bytes() == old(self).bytes(),
            final(self).position() >= old(self).position(),
            (match r {
                Ok(v) => (spec_value(old(self).remaining(), WireType::MapOf) matches Ok(p) && p.0
                    == v.dv() && final(self).position() == old(self).position() + p.1) && final(self).last_id() == old(self).last_id() && final(self).saved() == old(self).saved(),
                Err(e) => spec_value(old(self).remaining(), WireType::MapOf) == Err::<
                    (GValue, nat),
                    DecodeError,
                >(e),
            }),
        decreases old(self).bytes().len() - old(self).position(), 0nat, 1nat,
    {
        let h = match self.read_map_begin() {
            Ok(h) => h,
            Err(e) => {
                return Err(e);
            },
        };
        match h.1 {
            None => {
                proof {
                    assert(dv_pairs(Seq::<(ValueNode, ValueNode)>::empty()) =~= Seq::<
                        (GValue, GValue),
                    >::empty());
                }
                Ok(ValueNode::MapOf(Vec::new()))
            },
            Some(tys) => {
                proof {
                    assert(self.position() > old(self).position());
                    assert(self.remaining() =~= old(self).remaining().skip(
                        self.position() - old(self).position(),
                    ));
                }
                match self.read_pairs(tys.0, tys.1, h.0) {
                    Ok(ps) => Ok(ValueNode::MapOf(ps)),
                    Err(e) => Err(e),
                }
            },
        }
    }

    /// Reads a struct value: a fresh field-id context, the field list,
    /// and the stop byte that restores the enclosing context.
    #[verifier::rlimit(80)]
    #[verifier::spinoff_prover]
    fn read_struct_value(&mut self) -> (r: Result<ValueNode, DecodeError>)
        requires
            old(self).wf(),
        ensures
            final(self).wf(),
            final(self).bytes() == old(self).bytes(),
            final(self).position() >= old(self).position(),
            (match r {
                Ok(v) => (spec_value(old(self).remaining(), WireType::Struct) matches Ok(p) && p.0
                    == v.dv() && final(self).position() == old(self).position() + p.1) && final(self).last_id() == old(self).last_id() && final(self).saved() == old(self).saved(),
                Err(e) => spec_value(old(self).remaining(), WireType::Struct) == Err::<
                    (GValue, nat),
                    DecodeError,
                >(e),
            }),
        decreases old(self).bytes().len() - old(self).position(), 0nat, 1nat,
    {
        self.read_struct_begin();
        let ghost saved0 = old(self).saved();
        let ghost last0 = old(self).last_id();
        match self.read_fields() {
            Ok(fs) => {
                proof {
                    assert(saved0.push(last0).drop_last() =~= saved0);
                    assert(saved0.push(last0).last() == last0);
                }
                Ok(ValueNode::Struct(fs))
            },
            Err(e) => Err(e),
        }
    }

    /// Reads `n` back-to-back values of wire type `t`, as `spec_elems`
    /// says.
    #[verifier::rlimit(80)]
    #[verifier::spinoff_prover]
    pub fn read_elems(&mut self, t: WireType, n: usize) -> (r: Result<Vec<ValueNode>, DecodeError>)
        requires
            old(self).wf(),
        ensures
            final(self).wf(),
            final(self).bytes() == old(self).bytes(),
            final(self).position() >= old(self).position(),
            (match r {
                Ok(vs) => (spec_elems(old(self).remaining(), t, n as nat) matches Ok(p) && p.0
                    == dv_seq(vs@) && final(self).position() == old(self).position() + p.1)
                    && final(self).last_id() == old(self).last_id() && final(self).saved() == old(self).saved(),
                Err(e) => spec_elems(old(self).remaining(), t, n as nat) == Err::<
                    (Seq<GValue>, nat),
                    DecodeError,
                >(e),
            }),
        decreases old(self).bytes().len() - old(self).position(), n, 2nat,
    {
        if n == 0 {
            proof {
                assert(dv_seq(Seq::<ValueNode>::empty()) =~= Seq::<GValue>::empty());
            }
            Ok(Vec::new())
        } else {
            let v = match self.read_value(t) {
                Ok(v) => v,
                Err(e) => {
                    return Err(e);
                },
            };
            proof {
                assert(self.remaining() =~= old(self).remaining().skip(
                    self.position() - old(self).position(),
                ));
            }
            let mut rest = match self.read_elems(t, n - 1) {
                Ok(vs) => vs,
                Err(e) => {
                    return Err(e);
                },
            };
            let ghost rest0 = rest@;
            rest.insert(0, v);
            proof {
                assert(rest@ =~= seq![v] + rest0);
                assert(rest@.subrange(1, rest@.len() as int) =~= rest0);
                assert(dv_seq(rest@) =~= seq![v.dv()] + dv_seq(rest0));
            }
            Ok(rest)
        }
    }

    /// Reads `n` back-to-back key/value pairs, as `spec_pairs` says.
    #[verifier::rlimit(80)]
    #[verifier::spinoff_prover]
    pub fn read_pairs(&mut self, kt: WireType, vt: WireType, n: usize) -> (r: Result<
        Vec<(ValueNode, ValueNode)>,
        DecodeError,
    >)
        requires
            old(self).wf(),
        ensures
            final(self).wf(),
            final(self).bytes() == old(self).bytes(),
            final(self).position() >= old(self).position(),
            (match r {
                Ok(ps) => (spec_pairs(old(self).remaining(), kt, vt, n as nat) matches Ok(p) && p.0
                    == dv_pairs(ps@) && final(self).position() == old(self).position() + p.1)
                    && final(self).last_id() == old(self).last_id() && final(self).saved() == old(self).saved(),
                Err(e) => spec_pairs(old(self).remaining(), kt, vt, n as nat) == Err::<
                    (Seq<(GValue, GValue)>, nat),
                    DecodeError,
                >(e),
            }),
        decreases old(self).bytes().len() - old(self).position(), n, 2nat,
    {
        if n == 0 {
            proof {
                assert(dv_pairs(Seq::<(ValueNode, ValueNode)>::empty()) =~= Seq::<
                    (GValue, GValue),
                >::empty());
            }
            Ok(Vec::new())
        } else {
            let k = match self.read_value(kt) {
                Ok(v) => v,
                Err(e) => {
                    return Err(e);
                },
            };
            proof {
                assert(self.remaining() =~= old(self).remaining().skip(
                    self.position() - old(self).position(),
                ));
            }
            let v = match self.read_value(vt) {
                Ok(v) => v,
                Err(e) => {
                    return Err(e);
                },
            };
            proof {
                assert(self.remaining() =~= old(self).remaining().skip(
                    self.position() - old(self).position(),
                ));
            }
            let mut rest = match self.read_pairs(kt, vt, n - 1) {
                Ok(ps) => ps,
                Err(e) => {
                    return Err(e);
                },
            };
            let ghost rest0 = rest@;
            rest.insert(0, (k, v));
            proof {
                assert(rest@ =~= seq![(k, v)] + rest0);
                assert(rest@.subrange(1, rest@.len() as int) =~= rest0);
                assert(dv_pairs(rest@) =~= seq![(k.dv(), v.dv())] + dv_pairs(rest0));
            }
            Ok(rest)
        }
    }

    /// Reads a struct's field list up to and including its stop byte, as
    /// `spec_struct_fields` says; the stop pops the field-id context.
    pub fn read_fields(&mut self) -> (r: Result<Vec<(i16, ValueNode)>, DecodeError>)
        requires
            old(self).wf(),
            old(self).saved().len() >= 1,
        ensures
            final(self).wf(),
            final(self).bytes() == old(self).bytes(),
            final(self).position() >= old(self).position(),
            (match r {
                Ok(fs) => (spec_struct_fields(old(self).remaining(), old(self).last_id()) matches
                    Ok(p) && p.0 == dv_fields(fs@) && final(self).position() == old(self).position() + p.1) && final(self).last_id() == old(self).saved().last() && final(self).saved() == old(self).saved().drop_last(),
                Err(e) => spec_struct_fields(old(self).remaining(), old(self).last_id()) == Err::<
                    (Seq<(i16, GValue)>, nat),
                    DecodeError,
                >(e),
            }),
        decreases old(self).bytes().len() - old(self).position(), 0nat, 0nat,
    {
        let h = match self.read_field_begin() {
            Ok(h) => h,
            Err(e) => {
                return Err(e);
            },
        };
        match h {
            FieldHeader::Stop => {
                proof {
                    assert(dv_fields(Seq::<(i16, ValueNode)>::empty()) =~= Seq::<
                        (i16, GValue),
                    >::empty());
                }
                Ok(Vec::new())
            },
            FieldHeader::Field(id, w) => {
                proof {
                    assert(self.position() > old(self).position());
                    assert(self.remaining() =~= old(self).remaining().skip(
                        self.position() - old(self).position(),
                    ));
                }
                let is_bool_true = matches!(w, WireType::BoolTrue);
                let is_bool_false = matches!(w, WireType::BoolFalse);
                let v: ValueNode;
                if is_bool_true {
                    v = ValueNode::Bool(true);
                } else if is_bool_false {
                    v = ValueNode::Bool(false);
                } else {
                    v = match self.read_value(w) {
                        Ok(v) => v,
                        Err(e) => {
                            return Err(e);
                        },
                    };
                }
                proof {
                    assert(self.remaining() =~= old(self).remaining().skip(
                        self.position() - old(self).position(),
                    ));
                }
                let mut rest = match self.read_fields() {
                    Ok(fs) => fs,
                    Err(e) => {
                        return Err(e);
                    },
                };
                let ghost rest0 = rest@;
                rest.insert(0, (id, v));
                proof {
                    assert(rest@ =~= seq![(id, v)] + rest0);
                    assert(rest@.subrange(1, rest@.len() as int) =~= rest0);
                    assert(dv_fields(rest@) =~= seq![(id, v.dv())] + dv_fields(rest0));
                }
                Ok(rest)
            },
        }
    }
}

} // verus!
