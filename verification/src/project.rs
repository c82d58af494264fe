//! The metadata projector: consumes a decoded value tree and populates
//! the typed metadata — format version, ordered schema element names,
//! row count — enforcing the expected field identifiers and types.

use vstd::prelude::*;

use crate::decoder::CompactReader;
use crate::error::{DecodeError, MetadataError, ProjectionError};
use crate::footer::{metadata_slice, spec_locate};
use crate::value::{dv_fields, dv_seq, lemma_dv_fields, lemma_dv_seq, spec_value, GValue, ValueNode};
use crate::wire::WireType;

verus! {

/// One schema element: its name, kept as the raw byte sequence it was
/// decoded from.
#[derive(Debug, PartialEq, Eq)]
pub struct SchemaElement {
    pub name: Vec<u8>,
}

impl SchemaElement {
    /// A copy of the element's name bytes.
    pub fn name(&self) -> (r: Vec<u8>)
        ensures
            r@ == self.name@,
    {
        clone_bytes(&self.name)
    }
}

/// The projected metadata: format version, schema elements in
/// declaration order (the synthetic root element first), and row count.
#[derive(Debug, PartialEq, Eq)]
pub struct FileMetadata {
    pub version: i32,
    pub schema: Vec<SchemaElement>,
    pub row_count: i64,
}

/// The name bytes of each schema element, in order.
pub open spec fn spec_schema_names(schema: Seq<SchemaElement>) -> Seq<Seq<u8>> {
    Seq::new(schema.len(), |i: int| schema[i].name@)
}

/// The reserved name of the synthetic root schema element.
pub open spec fn spec_root_marker() -> Seq<u8> {
    seq![0x73u8, 0x63u8, 0x68u8, 0x65u8, 0x6du8, 0x61u8]
}

/// The value of the first field with the name field id, if any.
pub open spec fn spec_find_name(fs: Seq<(i16, GValue)>) -> Option<GValue>
    decreases fs.len(),
{
    if fs.len() == 0 {
        None
    } else if fs[0].0 == 4 {
        Some(fs[0].1)
    } else {
        spec_find_name(fs.subrange(1, fs.len() as int))
    }
}

/// The name of a column schema element: the byte-sequence field with the
/// name field id; anything else is an unexpected field.
pub open spec fn spec_column_name(g: GValue) -> Result<Seq<u8>, ProjectionError> {
    match g {
        GValue::Struct(fs) => match spec_find_name(fs) {
            Some(GValue::Binary(b)) => Ok(b),
            Some(_) => Err(ProjectionError::UnexpectedField),
            None => Err(ProjectionError::UnexpectedField),
        },
        _ => Err(ProjectionError::UnexpectedField),
    }
}

/// The root schema element's name: it must be present and equal the
/// reserved root marker, else the root schema is missing.
pub open spec fn spec_project_root(g: GValue) -> Result<Seq<u8>, ProjectionError> {
    match g {
        GValue::Struct(fs) => match spec_find_name(fs) {
            Some(GValue::Binary(b)) => if b == spec_root_marker() {
                Ok(b)
            } else {
                Err(ProjectionError::MissingRootSchema)
            },
            Some(_) => Err(ProjectionError::UnexpectedField),
            None => Err(ProjectionError::MissingRootSchema),
        },
        _ => Err(ProjectionError::UnexpectedField),
    }
}

/// The names of the column elements, in order, or the first error.
pub open spec fn spec_column_names(elems: Seq<GValue>) -> Result<Seq<Seq<u8>>, ProjectionError>
    decreases elems.len(),
{
    if elems.len() == 0 {
        Ok(Seq::empty())
    } else {
        match spec_column_name(elems[0]) {
            Err(e) => Err(e),
            Ok(b) => match spec_column_names(elems.subrange(1, elems.len() as int)) {
                Err(e) => Err(e),
                Ok(rest) => Ok(seq![b] + rest),
            },
        }
    }
}

/// The first 64-bit integer field among `fs`, if any: the row count is
/// taken from the first sibling field of that type after the schema
/// list, whatever its id.
pub open spec fn spec_find_row_count(fs: Seq<(i16, GValue)>) -> Option<i64>
    decreases fs.len(),
{
    if fs.len() == 0 {
        None
    } else {
        match fs[0].1 {
            GValue::I64(v) => Some(v),
            _ => spec_find_row_count(fs.subrange(1, fs.len() as int)),
        }
    }
}

/// Projecting the decoded top-level struct: field 1 must be the i32
/// version, field 2 the list of schema element structs whose first
/// element carries the reserved root marker, and a later sibling i64
/// field the row count. A struct that ends before the version, schema or
/// row-count field is a premature stop.
pub open spec fn spec_project(g: GValue) -> Result<(i32, Seq<Seq<u8>>, i64), MetadataError> {
    match g {
        GValue::Struct(fs) => if fs.len() == 0 {
            Err(MetadataError::Decode(DecodeError::UnexpectedStop))
        } else if fs[0].0 != 1 {
            Err(MetadataError::Projection(ProjectionError::UnexpectedField))
        } else {
            match fs[0].1 {
                GValue::I32(ver) => if fs.len() < 2 {
                    Err(MetadataError::Decode(DecodeError::UnexpectedStop))
                } else if fs[1].0 != 2 {
                    Err(MetadataError::Projection(ProjectionError::UnexpectedField))
                } else {
                    match fs[1].1 {
                        GValue::List(et, elems) => if et != WireType::Struct {
                            Err(MetadataError::Projection(ProjectionError::UnexpectedField))
                        } else if elems.len() == 0 {
                            Err(MetadataError::Projection(ProjectionError::MissingRootSchema))
                        } else {
                            match spec_project_root(elems[0]) {
                                Err(pe) => Err(MetadataError::Projection(pe)),
                                Ok(root) => match spec_column_names(
                                    elems.subrange(1, elems.len() as int),
                                ) {
                                    Err(pe) => Err(MetadataError::Projection(pe)),
                                    Ok(cols) => match spec_find_row_count(
                                        fs.subrange(2, fs.len() as int),
                                    ) {
                                        None => Err(
                                            MetadataError::Decode(DecodeError::UnexpectedStop),
                                        ),
                                        Some(rc) => Ok((ver, seq![root] + cols, rc)),
                                    },
                                },
                            }
                        },
                        _ => Err(MetadataError::Projection(ProjectionError::UnexpectedField)),
                    }
                },
                _ => Err(MetadataError::Projection(ProjectionError::UnexpectedField)),
            }
        },
        _ => Err(MetadataError::Projection(ProjectionError::UnexpectedField)),
    }
}

/// Decoding a whole metadata block: one top-level struct read from the
/// front of `s`, then projected; bytes after the struct are ignored.
pub open spec fn spec_parse(s: Seq<u8>) -> Result<(i32, Seq<Seq<u8>>, i64), MetadataError> {
    match spec_value(s, WireType::Struct) {
        Err(e) => Err(MetadataError::Decode(e)),
        Ok(p) => spec_project(p.0),
    }
}

/// The whole pipeline on a full file buffer: locate the metadata block
/// between the magic markers, then decode and project it.
pub open spec fn spec_read_file(s: Seq<u8>) -> Result<(i32, Seq<Seq<u8>>, i64), MetadataError> {
    match spec_locate(s) {
        Err(f) => Err(MetadataError::Format(f)),
        Ok(p) => spec_parse(s.subrange(p.0, p.0 + p.1)),
    }
}

/// Copies a byte vector.
fn clone_bytes(src: &Vec<u8>) -> (r: Vec<u8>)
    ensures
        r@ == src@,
{
    let mut out: Vec<u8> = Vec::new();
    let mut i: usize = 0;
    while i < src.len()
        invariant
            0 <= i <= src@.len(),
            out@ == src@.subrange(0, i as int),
        decreases src@.len() - i,
    {
        out.push(src[i]);
        assert(out@ == src@.subrange(0, i + 1));
        i = i + 1;
    }
    assert(out@ =~= src@);
    out
}

/// Finds, from index `i` on, the first field with the name field id.
fn find_field4_from(fs: &Vec<(i16, ValueNode)>, i: usize) -> (r: Option<usize>)
    requires
        i <= fs@.len(),
    ensures
        (match r {
            Some(j) => i <= j < fs@.len() && spec_find_name(
                dv_fields(fs@).subrange(i as int, fs@.len() as int),
            ) == Some(fs@[j as int].1.dv()),
            None => spec_find_name(dv_fields(fs@).subrange(i as int, fs@.len() as int)) is None,
        }),
    decreases fs@.len() - i,
{
    proof {
        lemma_dv_fields(fs@);
    }
    if i == fs.len() {
        proof {
            assert(dv_fields(fs@).subrange(i as int, fs@.len() as int) =~= Seq::<
                (i16, GValue),
            >::empty());
        }
        None
    } else {
        let ghost d = dv_fields(fs@);
        proof {
            assert(d.subrange(i as int, d.len() as int)[0] == d[i as int]);
            assert(d.subrange(i as int, d.len() as int).subrange(
                1,
                d.subrange(i as int, d.len() as int).len() as int,
            ) =~= d.subrange(i + 1, d.len() as int));
        }
        if fs[i].0 == 4 {
            Some(i)
        } else {
            find_field4_from(fs, i + 1)
        }
    }
}

/// Finds, from index `i` on, the first 64-bit integer field.
fn find_row_count_from(fs: &Vec<(i16, ValueNode)>, i: usize) -> (r: Option<i64>)
    requires
        i <= fs@.len(),
    ensures
        r == spec_find_row_count(dv_fields(fs@).subrange(i as int, fs@.len() as int)),
    decreases fs@.len() - i,
{
    proof {
        lemma_dv_fields(fs@);
    }
    if i == fs.len() {
        proof {
            assert(dv_fields(fs@).subrange(i as int, fs@.len() as int) =~= Seq::<
                (i16, GValue),
            >::empty());
        }
        None
    } else {
        let ghost d = dv_fields(fs@);
        proof {
            assert(d.subrange(i as int, d.len() as int)[0] == d[i as int]);
            assert(d.subrange(i as int, d.len() as int).subrange(
                1,
                d.subrange(i as int, d.len() as int).len() as int,
            ) =~= d.subrange(i + 1, d.len() as int));
        }
        match &fs[i].1 {
            ValueNode::I64(v) => Some(*v),
            _ => find_row_count_from(fs, i + 1),
        }
    }
}

/// The name bytes of one column schema element, as `spec_column_name`
/// says of its mirror.
fn column_name(v: &ValueNode) -> (r: Result<Vec<u8>, ProjectionError>)
    ensures
        (match r {
            Ok(b) => spec_column_name(v.dv()) == Ok::<Seq<u8>, ProjectionError>(b@),
            Err(e) => spec_column_name(v.dv()) == Err::<Seq<u8>, ProjectionError>(e),
        }),
{
    match v {
        ValueNode::Struct(fs) => {
            proof {
                lemma_dv_fields(fs@);
                assert(dv_fields(fs@).subrange(0, fs@.len() as int) =~= dv_fields(fs@));
            }
            match find_field4_from(fs, 0) {
                Some(j) => match &fs[j].1 {
                    ValueNode::Binary(b) => Ok(clone_bytes(b)),
                    _ => Err(ProjectionError::UnexpectedField),
                },
                None => Err(ProjectionError::UnexpectedField),
            }
        },
        _ => Err(ProjectionError::UnexpectedField),
    }
}

/// The root element's name, as `spec_project_root` says of its mirror.
fn root_name(v: &ValueNode) -> (r: Result<Vec<u8>, ProjectionError>)
    ensures
        (match r {
            Ok(b) => spec_project_root(v.dv()) == Ok::<Seq<u8>, ProjectionError>(b@),
            Err(e) => spec_project_root(v.dv()) == Err::<Seq<u8>, ProjectionError>(e),
        }),
{
    match v {
        ValueNode::Struct(fs) => {
            proof {
                lemma_dv_fields(fs@);
                assert(dv_fields(fs@).subrange(0, fs@.len() as int) =~= dv_fields(fs@));
            }
            match find_field4_from(fs, 0) {
                Some(j) => match &fs[j].1 {
                    ValueNode::Binary(b) => {
                        if b.len() == 6 && b[0] == 0x73 && b[1] == 0x63 && b[2] == 0x68 && b[3]
                            == 0x65 && b[4] == 0x6d && b[5] == 0x61 {
                            proof {
                                assert(b@ =~= spec_root_marker());
                            }
                            Ok(clone_bytes(b))
                        } else {
                            proof {
                                assert(b@ != spec_root_marker());
                            }
                            Err(ProjectionError::MissingRootSchema)
                        }
                    },
                    _ => Err(ProjectionError::UnexpectedField),
                },
                None => Err(ProjectionError::MissingRootSchema),
            }
        },
        _ => Err(ProjectionError::UnexpectedField),
    }
}

/// The column elements from index `i` on, projected to schema elements.
fn project_columns(elems: &Vec<ValueNode>, i: usize) -> (r: Result<
    Vec<SchemaElement>,
    ProjectionError,
>)
    requires
        i <= elems@.len(),
    ensures
        (match r {
            Ok(v) => spec_column_names(dv_seq(elems@).subrange(i as int, elems@.len() as int))
                == Ok::<Seq<Seq<u8>>, ProjectionError>(spec_schema_names(v@)),
            Err(e) => spec_column_names(dv_seq(elems@).subrange(i as int, elems@.len() as int))
                == Err::<Seq<Seq<u8>>, ProjectionError>(e),
        }),
    decreases elems@.len() - i,
{
    proof {
        lemma_dv_seq(elems@);
    }
    if i == elems.len() {
        proof {
            assert(dv_seq(elems@).subrange(i as int, elems@.len() as int) =~= Seq::<
                GValue,
            >::empty());
            assert(spec_schema_names(Seq::<SchemaElement>::empty()) =~= Seq::<Seq<u8>>::empty());
        }
        Ok(Vec::new())
    } else {
        let ghost d = dv_seq(elems@);
        proof {
            assert(d.subrange(i as int, d.len() as int)[0] == d[i as int]);
            assert(d.subrange(i as int, d.len() as int).subrange(
                1,
                d.subrange(i as int, d.len() as int).len() as int,
            ) =~= d.subrange(i + 1, d.len() as int));
        }
        let name = match column_name(&elems[i]) {
            Ok(b) => b,
            Err(e) => {
                return Err(e);
            },
        };
        let mut rest = match project_columns(elems, i + 1) {
            Ok(v) => v,
            Err(e) => {
                return Err(e);
            },
        };
        let ghost rest0 = rest@;
        rest.insert(0, SchemaElement { name });
        proof {
            assert(spec_schema_names(rest@) =~= seq![name@] + spec_schema_names(rest0));
        }
        Ok(rest)
    }
}

/// Projects a decoded value tree to the typed metadata, as
/// `spec_project` says of its mirror.
pub fn project(v: &ValueNode) -> (r: Result<FileMetadata, MetadataError>)
    ensures
        (match r {
            Ok(m) => spec_project(v.dv()) matches Ok(t) && t.0 == m.version && t.1
                == spec_schema_names(m.schema@) && t.2 == m.row_count,
            Err(e) => spec_project(v.dv()) == Err::<(i32, Seq<Seq<u8>>, i64), MetadataError>(e),
        }),
{
    let fs = match v {
        ValueNode::Struct(fs) => fs,
        _ => {
            return Err(MetadataError::Projection(ProjectionError::UnexpectedField));
        },
    };
    proof {
        lemma_dv_fields(fs@);
    }
    if fs.len() == 0 {
        return Err(MetadataError::Decode(DecodeError::UnexpectedStop));
    }
    if fs[0].0 != 1 {
        return Err(MetadataError::Projection(ProjectionError::UnexpectedField));
    }
    let version: i32 = match &fs[0].1 {
        ValueNode::I32(ver) => *ver,
        _ => {
            return Err(MetadataError::Projection(ProjectionError::UnexpectedField));
        },
    };
    if fs.len() < 2 {
        return Err(MetadataError::Decode(DecodeError::UnexpectedStop));
    }
    if fs[1].0 != 2 {
        return Err(MetadataError::Projection(ProjectionError::UnexpectedField));
    }
    let elems = match &fs[1].1 {
        ValueNode::List(et, elems) => {
            if !matches!(et, WireType::Struct) {
                return Err(MetadataError::Projection(ProjectionError::UnexpectedField));
            }
            elems
        },
        _ => {
            return Err(MetadataError::Projection(ProjectionError::UnexpectedField));
        },
    };
    proof {
        lemma_dv_seq(elems@);
    }
    if elems.len() == 0 {
        return Err(MetadataError::Projection(ProjectionError::MissingRootSchema));
    }
    let root = match root_name(&elems[0]) {
        Ok(b) => b,
        Err(e) => {
            return Err(MetadataError::Projection(e));
        },
    };
    let cols = match project_columns(elems, 1) {
        Ok(v) => v,
        Err(e) => {
            return Err(MetadataError::Projection(e));
        },
    };
    let row_count = match find_row_count_from(fs, 2) {
        Some(rc) => rc,
        None => {
            return Err(MetadataError::Decode(DecodeError::UnexpectedStop));
        },
    };
    let mut schema = cols;
    let ghost cols0 = schema@;
    schema.insert(0, SchemaElement { name: root });
    proof {
        assert(spec_schema_names(schema@) =~= seq![root@] + spec_schema_names(cols0));
    }
    Ok(FileMetadata { version, schema, row_count })
}

/// Decodes one metadata block — a single top-level struct — and projects
/// it, as `spec_parse` says.
pub fn parse_metadata(bytes: Vec<u8>) -> (r: Result<FileMetadata, MetadataError>)
    ensures
        (match r {
            Ok(m) => spec_parse(bytes@) matches Ok(t) && t.0 == m.version && t.1
                == spec_schema_names(m.schema@) && t.2 == m.row_count,
            Err(e) => spec_parse(bytes@) == Err::<(i32, Seq<Seq<u8>>, i64), MetadataError>(e),
        }),
{
    let mut cr = CompactReader::new(bytes);
    proof {
        assert(cr.remaining() =~= bytes@);
    }
    let v = match cr.read_value(WireType::Struct) {
        Ok(v) => v,
        Err(e) => {
            return Err(MetadataError::Decode(e));
        },
    };
    project(&v)
}

/// The whole pipeline on a full file buffer, as `spec_read_file` says:
/// locate the metadata block, decode it, project it.
pub fn read_file_metadata(buf: &Vec<u8>) -> (r: Result<FileMetadata, MetadataError>)
    ensures
        (match r {
            Ok(m) => spec_read_file(buf@) matches Ok(t) && t.0 == m.version && t.1
                == spec_schema_names(m.schema@) && t.2 == m.row_count,
            Err(e) => spec_read_file(buf@) == Err::<(i32, Seq<Seq<u8>>, i64), MetadataError>(e),
        }),
{
    let block = match metadata_slice(buf) {
        Ok(v) => v,
        Err(f) => {
            return Err(MetadataError::Format(f));
        },
    };
    parse_metadata(block)
}

} // verus!
