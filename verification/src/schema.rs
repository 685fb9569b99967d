//! Columnar types, field descriptors and the schema compiler.
//!
//! The compiler expands a registered record type into an ordered list of
//! field descriptors, in one of two projections: nested mode preserves the
//! record's structural shape (one descriptor per declared field, records
//! becoming struct columns), flattened mode inlines nested records into
//! underscore-joined leaf columns, except across array boundaries. An
//! optional trailing `message_struct` descriptor carries the nested-mode
//! compilation of the whole record, whatever the outer mode.

use vstd::prelude::*;
use vstd::string::StringExecFns;
use crate::types::{
    FieldType, PrimType, RecordDefModel, TypeRegistry, def_fields_ok, field_ty_ok, registry_wf,
};

verus! {

/// Columnar scalar types.
#[derive(Clone, Copy, PartialEq, Eq, Structural, Debug)]
pub enum ScalarType {
    Boolean,
    Utf8,
    Int8,
    Int16,
    Int32,
    Int64,
    UInt8,
    UInt16,
    UInt32,
    UInt64,
    Float32,
    Float64,
}

/// Columnar data type of one field descriptor.
#[derive(Debug, PartialEq, Eq)]
pub enum ColumnType {
    /// A scalar column.
    Scalar(ScalarType),
    /// A null-typed column (placeholder fields of unit type).
    Null,
    /// A byte-blob column; distinct from `LargeList(UInt8)`.
    LargeBinary,
    /// A variable-length list of scalars.
    LargeList(ScalarType),
    /// A struct column with the given child schema.
    Struct(Vec<FieldDescriptor>),
    /// A variable-length list of structs with the given element schema.
    LargeListStruct(Vec<FieldDescriptor>),
}

/// One compiled output column: output name, dotted logical path (for
/// diagnostics), the positional path of the source value inside a record
/// instance (empty for the whole-record column), the columnar type, and
/// nullability (always nullable in this design).
#[derive(Debug, PartialEq, Eq)]
pub struct FieldDescriptor {
    pub name: String,
    pub logical_path: String,
    pub index_path: Vec<usize>,
    pub column_type: ColumnType,
    pub nullable: bool,
}

/// Projection mode of a compiled schema.
#[derive(Clone, Copy, PartialEq, Eq, Structural, Debug)]
pub enum SchemaMode {
    /// Structure-preserving: one descriptor per declared field.
    Nested,
    /// Analytics-friendly: nested records spliced into the parent's list.
    Flattened,
}

/// Mathematical model of a [`ColumnType`].
#[verifier::ext_equal]
pub ghost enum ColTypeModel {
    Scalar(ScalarType),
    Null,
    LargeBinary,
    LargeList(ScalarType),
    Struct(Seq<DescModel>),
    LargeListStruct(Seq<DescModel>),
}

/// Mathematical model of a [`FieldDescriptor`].
#[verifier::ext_equal]
pub ghost struct DescModel {
    pub name: Seq<char>,
    pub logical_path: Seq<char>,
    pub index_path: Seq<usize>,
    pub column_type: ColTypeModel,
    pub nullable: bool,
}

pub open spec fn col_type_model(t: ColumnType) -> ColTypeModel
    decreases t,
{
    match t {
        ColumnType::Scalar(s) => ColTypeModel::Scalar(s),
        ColumnType::Null => ColTypeModel::Null,
        ColumnType::LargeBinary => ColTypeModel::LargeBinary,
        ColumnType::LargeList(s) => ColTypeModel::LargeList(s),
        ColumnType::Struct(fs) => ColTypeModel::Struct(schema_model(fs@)),
        ColumnType::LargeListStruct(fs) => ColTypeModel::LargeListStruct(schema_model(fs@)),
    }
}

pub open spec fn desc_model(d: FieldDescriptor) -> DescModel
    decreases d,
{
    DescModel {
        name: d.name@,
        logical_path: d.logical_path@,
        index_path: d.index_path@,
        column_type: col_type_model(d.column_type),
        nullable: d.nullable,
    }
}

pub open spec fn schema_model(s: Seq<FieldDescriptor>) -> Seq<DescModel>
    decreases s,
{
    Seq::new(
        s.len(),
        |i: int|
            if 0 <= i < s.len() {
                desc_model(s[i])
            } else {
                arbitrary()
            },
    )
}

/// The scalar columnar type of a primitive semantic type other than unit.
///
/// 128-bit and pointer-sized integers narrow to the 64-bit columnar type:
/// a documented lossy conversion, not an error.
pub open spec fn spec_map_scalar(p: PrimType) -> ScalarType
    recommends
        p != PrimType::Unit,
{
    match p {
        PrimType::Bool => ScalarType::Boolean,
        PrimType::Str => ScalarType::Utf8,
        PrimType::Unit => arbitrary(),
        PrimType::I8 => ScalarType::Int8,
        PrimType::I16 => ScalarType::Int16,
        PrimType::I32 => ScalarType::Int32,
        PrimType::I64 => ScalarType::Int64,
        PrimType::I128 => ScalarType::Int64,
        PrimType::ISize => ScalarType::Int64,
        PrimType::U8 => ScalarType::UInt8,
        PrimType::U16 => ScalarType::UInt16,
        PrimType::U32 => ScalarType::UInt32,
        PrimType::U64 => ScalarType::UInt64,
        PrimType::U128 => ScalarType::UInt64,
        PrimType::USize => ScalarType::UInt64,
        PrimType::F32 => ScalarType::Float32,
        PrimType::F64 => ScalarType::Float64,
    }
}

/// The columnar type of a single primitive field: unit becomes a null-typed
/// column, everything else the matching scalar column.
pub open spec fn spec_prim_col_type(p: PrimType) -> ColTypeModel {
    if p == PrimType::Unit {
        ColTypeModel::Null
    } else {
        ColTypeModel::Scalar(spec_map_scalar(p))
    }
}

/// The columnar type of an array-of-primitive field: a byte blob becomes the
/// dedicated large-binary column, every other element type a large list of
/// the matching scalar.
pub open spec fn spec_array_col_type(e: PrimType) -> ColTypeModel
    recommends
        e != PrimType::Unit,
{
    if e == PrimType::U8 {
        ColTypeModel::LargeBinary
    } else {
        ColTypeModel::LargeList(spec_map_scalar(e))
    }
}

/// Maps a primitive semantic type other than unit to its scalar columnar
/// type.
pub fn map_scalar(p: PrimType) -> (r: ScalarType)
    requires
        p != PrimType::Unit,
    ensures
        r == spec_map_scalar(p),
{
    match p {
        PrimType::Bool => ScalarType::Boolean,
        PrimType::Str => ScalarType::Utf8,
        PrimType::Unit => ScalarType::Boolean,
        PrimType::I8 => ScalarType::Int8,
        PrimType::I16 => ScalarType::Int16,
        PrimType::I32 => ScalarType::Int32,
        PrimType::I64 => ScalarType::Int64,
        PrimType::I128 => ScalarType::Int64,
        PrimType::ISize => ScalarType::Int64,
        PrimType::U8 => ScalarType::UInt8,
        PrimType::U16 => ScalarType::UInt16,
        PrimType::U32 => ScalarType::UInt32,
        PrimType::U64 => ScalarType::UInt64,
        PrimType::U128 => ScalarType::UInt64,
        PrimType::USize => ScalarType::UInt64,
        PrimType::F32 => ScalarType::Float32,
        PrimType::F64 => ScalarType::Float64,
    }
}

/// Maps a single primitive field type to its columnar type.
pub fn map_prim_type(p: PrimType) -> (r: ColumnType)
    ensures
        col_type_model(r) == spec_prim_col_type(p),
{
    if matches!(p, PrimType::Unit) {
        ColumnType::Null
    } else {
        ColumnType::Scalar(map_scalar(p))
    }
}

/// Maps an array-of-primitive field type to its columnar type.
pub fn map_array_type(e: PrimType) -> (r: ColumnType)
    requires
        e != PrimType::Unit,
    ensures
        col_type_model(r) == spec_array_col_type(e),
{
    if matches!(e, PrimType::U8) {
        ColumnType::LargeBinary
    } else {
        ColumnType::LargeList(map_scalar(e))
    }
}

/// A spliced child descriptor: output name underscore-joined under the
/// parent field's name, logical path dot-joined, index path extended at the
/// front with the parent field's position.
pub open spec fn prefixed_desc(d: DescModel, fname: Seq<char>, fi: usize) -> DescModel {
    DescModel {
        name: fname + "_"@ + d.name,
        logical_path: fname + "."@ + d.logical_path,
        index_path: seq![fi] + d.index_path,
        column_type: d.column_type,
        nullable: d.nullable,
    }
}

/// The descriptors contributed by field `fi` of record type `tid`.
///
/// A primitive or array-of-primitive field contributes one leaf descriptor.
/// A record field contributes one struct descriptor (nested mode) or the
/// spliced, prefixed compilation of the referenced type (flattened mode).
/// An array-of-record field contributes one list-of-struct descriptor in
/// both modes, its element schema compiled in the same mode: the array
/// boundary is the flattening limit.
pub open spec fn spec_field_descs(
    reg: Seq<RecordDefModel>,
    tid: int,
    mode: SchemaMode,
    fi: int,
) -> Seq<DescModel>
    decreases tid, 0int, 0int,
{
    let f = reg[tid].fields[fi];
    match f.ty {
        FieldType::Prim(p) => seq![
            DescModel {
                name: f.name,
                logical_path: f.name,
                index_path: seq![fi as usize],
                column_type: spec_prim_col_type(p),
                nullable: true,
            },
        ],
        FieldType::Array(e) => seq![
            DescModel {
                name: f.name,
                logical_path: f.name,
                index_path: seq![fi as usize],
                column_type: spec_array_col_type(e),
                nullable: true,
            },
        ],
        FieldType::Record(t) => if (t as int) < tid {
            if mode == SchemaMode::Nested {
                seq![
                    DescModel {
                        name: f.name,
                        logical_path: f.name,
                        index_path: seq![fi as usize],
                        column_type: ColTypeModel::Struct(
                            spec_compiled(reg, t as int, SchemaMode::Nested),
                        ),
                        nullable: true,
                    },
                ]
            } else {
                spec_compiled(reg, t as int, SchemaMode::Flattened).map_values(
                    |d: DescModel| prefixed_desc(d, f.name, fi as usize),
                )
            }
        } else {
            Seq::empty()
        },
        FieldType::RecordArray(t) => if (t as int) < tid {
            seq![
                DescModel {
                    name: f.name,
                    logical_path: f.name,
                    index_path: seq![fi as usize],
                    column_type: ColTypeModel::LargeListStruct(spec_compiled(reg, t as int, mode)),
                    nullable: true,
                },
            ]
        } else {
            Seq::empty()
        },
    }
}

/// The descriptors contributed by the first `n` fields of record type `tid`.
pub open spec fn spec_compiled_prefix(
    reg: Seq<RecordDefModel>,
    tid: int,
    mode: SchemaMode,
    n: int,
) -> Seq<DescModel>
    decreases tid, 0int, n,
{
    if n <= 0 {
        Seq::empty()
    } else {
        spec_compiled_prefix(reg, tid, mode, n - 1) + spec_field_descs(reg, tid, mode, n - 1)
    }
}

/// The compiled schema of record type `tid` under `mode`, without the
/// optional whole-record column.
pub open spec fn spec_compiled(reg: Seq<RecordDefModel>, tid: int, mode: SchemaMode) -> Seq<
    DescModel,
>
    decreases tid, 1int, 0int,
{
    spec_compiled_prefix(reg, tid, mode, reg[tid].fields.len() as int)
}

/// The trailing whole-record descriptor: a struct column named
/// `message_struct` carrying the nested-mode compilation of the record type,
/// whatever the outer mode.
pub open spec fn spec_whole_record_desc(reg: Seq<RecordDefModel>, tid: int) -> DescModel {
    DescModel {
        name: "message_struct"@,
        logical_path: "message_struct"@,
        index_path: Seq::empty(),
        column_type: ColTypeModel::Struct(spec_compiled(reg, tid, SchemaMode::Nested)),
        nullable: true,
    }
}

/// The full compiled schema of record type `tid`: the mode's descriptors,
/// followed by the whole-record descriptor when requested.
pub open spec fn spec_compile(
    reg: Seq<RecordDefModel>,
    tid: int,
    mode: SchemaMode,
    include_whole_record: bool,
) -> Seq<DescModel> {
    if include_whole_record {
        spec_compiled(reg, tid, mode).push(spec_whole_record_desc(reg, tid))
    } else {
        spec_compiled(reg, tid, mode)
    }
}

/// A byte-blob field compiles to the large-binary column type, never to a
/// list-of-integer column, even though both originate from a vector of small
/// integers; every other primitive array compiles to a large list of its
/// scalar type.
pub proof fn lemma_byte_blob_distinct()
    ensures
        spec_array_col_type(PrimType::U8) == ColTypeModel::LargeBinary,
        forall|e: PrimType|
            e != PrimType::U8 ==> #[trigger] spec_array_col_type(e) == ColTypeModel::LargeList(
                spec_map_scalar(e),
            ),
        forall|e: PrimType|
            e != PrimType::Unit ==> #[trigger] spec_array_col_type(e) != ColTypeModel::LargeList(
                ScalarType::UInt8,
            ),
{
    assert forall|e: PrimType|
        e != PrimType::Unit implies #[trigger] spec_array_col_type(e) != ColTypeModel::LargeList(
        ScalarType::UInt8,
    ) by {
        if e != PrimType::U8 {
            assert(spec_map_scalar(e) != ScalarType::UInt8);
        }
    }
}

/// A structurally equal copy of an index path.
fn copy_index_path(p: &Vec<usize>) -> (r: Vec<usize>)
    ensures
        r@ == p@,
{
    let mut r: Vec<usize> = Vec::new();
    let mut i: usize = 0;
    while i < p.len()
        invariant
            i <= p.len(),
            r@ == p@.take(i as int),
        decreases p.len() - i,
    {
        r.push(p[i]);
        proof {
            assert(r@ =~= p@.take(i + 1));
        }
        i = i + 1;
    }
    proof {
        assert(p@.take(p@.len() as int) =~= p@);
    }
    r
}

/// A copy of a columnar type with the same model.
pub fn copy_column_type(t: &ColumnType) -> (r: ColumnType)
    ensures
        col_type_model(r) == col_type_model(*t),
    decreases *t,
{
    match t {
        ColumnType::Scalar(s) => ColumnType::Scalar(*s),
        ColumnType::Null => ColumnType::Null,
        ColumnType::LargeBinary => ColumnType::LargeBinary,
        ColumnType::LargeList(s) => ColumnType::LargeList(*s),
        ColumnType::Struct(fs) => ColumnType::Struct(copy_schema(fs)),
        ColumnType::LargeListStruct(fs) => ColumnType::LargeListStruct(copy_schema(fs)),
    }
}

/// A copy of a field descriptor with the same model.
pub fn copy_desc(d: &FieldDescriptor) -> (r: FieldDescriptor)
    ensures
        desc_model(r) == desc_model(*d),
    decreases *d,
{
    FieldDescriptor {
        name: d.name.clone(),
        logical_path: d.logical_path.clone(),
        index_path: copy_index_path(&d.index_path),
        column_type: copy_column_type(&d.column_type),
        nullable: d.nullable,
    }
}

/// A copy of a schema with the same model.
pub fn copy_schema(s: &Vec<FieldDescriptor>) -> (r: Vec<FieldDescriptor>)
    ensures
        schema_model(r@) == schema_model(s@),
    decreases *s,
{
    let mut r: Vec<FieldDescriptor> = Vec::new();
    let mut i: usize = 0;
    while i < s.len()
        invariant
            i <= s.len(),
            r@.len() == i,
            forall|k: int| 0 <= k < i ==> desc_model(#[trigger] r@[k]) == desc_model(s@[k]),
        decreases s.len() - i,
    {
        r.push(copy_desc(&s[i]));
        i = i + 1;
    }
    proof {
        assert(schema_model(r@) =~= schema_model(s@));
    }
    r
}

/// A spliced copy of a child descriptor under a parent field.
fn prefix_desc(d: &FieldDescriptor, parent: &String, fi: usize) -> (r: FieldDescriptor)
    ensures
        desc_model(r) == prefixed_desc(desc_model(*d), parent@, fi),
{
    let mut ip: Vec<usize> = Vec::new();
    ip.push(fi);
    let mut i: usize = 0;
    while i < d.index_path.len()
        invariant
            i <= d.index_path.len(),
            ip@ == seq![fi] + d.index_path@.take(i as int),
        decreases d.index_path.len() - i,
    {
        ip.push(d.index_path[i]);
        proof {
            assert(ip@ =~= seq![fi] + d.index_path@.take(i + 1));
        }
        i = i + 1;
    }
    proof {
        assert(d.index_path@.take(d.index_path@.len() as int) =~= d.index_path@);
    }
    let name = parent.clone().concat("_").concat(d.name.as_str());
    let logical_path = parent.clone().concat(".").concat(d.logical_path.as_str());
    FieldDescriptor {
        name,
        logical_path,
        index_path: ip,
        column_type: copy_column_type(&d.column_type),
        nullable: d.nullable,
    }
}

/// A leaf descriptor for field position `fi`: output name and logical path
/// both the field's own name, the given columnar type, nullable.
fn leaf_desc(name: &String, fi: usize, column_type: ColumnType) -> (r: FieldDescriptor)
    ensures
        desc_model(r) == (DescModel {
            name: name@,
            logical_path: name@,
            index_path: seq![fi],
            column_type: col_type_model(column_type),
            nullable: true,
        }),
{
    let ghost ct = col_type_model(column_type);
    let mut ip: Vec<usize> = Vec::new();
    ip.push(fi);
    proof {
        assert(ip@ =~= seq![fi]);
    }
    FieldDescriptor {
        name: name.clone(),
        logical_path: name.clone(),
        index_path: ip,
        column_type,
        nullable: true,
    }
}

/// Compiles record type `tid` under `mode`, without the optional
/// whole-record column.
pub fn compile_type(reg: &TypeRegistry, tid: usize, mode: SchemaMode) -> (r: Vec<FieldDescriptor>)
    requires
        reg.wf(),
        tid < reg.model().len(),
    ensures
        schema_model(r@) == spec_compiled(reg.model(), tid as int, mode),
    decreases tid,
{
    let def = reg.def_at(tid);
    let mut out: Vec<FieldDescriptor> = Vec::new();
    let mut fi: usize = 0;
    while fi < def.fields.len()
        invariant
            fi <= def.fields.len(),
            def.model() == reg.model()[tid as int],
            schema_model(out@) == spec_compiled_prefix(reg.model(), tid as int, mode, fi as int),
        decreases def.fields.len() - fi,
    {
        let ghost prev = schema_model(out@);
        let f = &def.fields[fi];
        proof {
            assert(def.model().fields[fi as int] == f.model());
            assert(def_fields_ok(reg.model()[tid as int], tid as int));
            assert(field_ty_ok(reg.model()[tid as int].fields[fi as int].ty, tid as int));
            assert(f.ty == reg.model()[tid as int].fields[fi as int].ty);
        }
        match f.ty {
            FieldType::Prim(p) => {
                let d = leaf_desc(&f.name, fi, map_prim_type(p));
                out.push(d);
            },
            FieldType::Array(e) => {
                let d = leaf_desc(&f.name, fi, map_array_type(e));
                out.push(d);
            },
            FieldType::Record(t) => {
                match mode {
                    SchemaMode::Nested => {
                        let child = compile_type(reg, t, SchemaMode::Nested);
                        let d = leaf_desc(&f.name, fi, ColumnType::Struct(child));
                        out.push(d);
                    },
                    SchemaMode::Flattened => {
                        let child = compile_type(reg, t, SchemaMode::Flattened);
                        let ghost spliced = spec_compiled(
                            reg.model(),
                            t as int,
                            SchemaMode::Flattened,
                        ).map_values(|d: DescModel| prefixed_desc(d, f.model().name, fi));
                        let mut k: usize = 0;
                        while k < child.len()
                            invariant
                                k <= child.len(),
                                child@.len() == spliced.len(),
                                schema_model(child@) == spec_compiled(
                                    reg.model(),
                                    t as int,
                                    SchemaMode::Flattened,
                                ),
                                schema_model(out@) == prev + spliced.take(k as int),
                            decreases child.len() - k,
                        {
                            let d = prefix_desc(&child[k], &f.name, fi);
                            proof {
                                assert(desc_model(child@[k as int]) == schema_model(
                                    child@,
                                )[k as int]);
                                assert(desc_model(d) == spliced[k as int]);
                            }
                            let ghost before = out@;
                            out.push(d);
                            proof {
                                assert(out@ == before.push(d));
                                assert(schema_model(out@).len() == (prev + spliced.take(
                                    k + 1,
                                )).len());
                                assert forall|i: int|
                                    0 <= i < out@.len() implies schema_model(out@)[i] == (prev
                                    + spliced.take(k + 1))[i] by {
                                    assert(schema_model(out@)[i] == desc_model(out@[i]));
                                    if i < before.len() {
                                        assert(out@[i] == before[i]);
                                        assert(desc_model(before[i]) == schema_model(before)[i]);
                                        assert(schema_model(before)[i] == (prev + spliced.take(
                                            k as int,
                                        ))[i]);
                                    } else {
                                        assert(out@[i] == d);
                                        assert((prev + spliced.take(k + 1))[i] == spliced[k as int]);
                                    }
                                }
                                assert(schema_model(out@) =~= prev + spliced.take(k + 1));
                            }
                            k = k + 1;
                        }
                        proof {
                            assert(spliced.take(spliced.len() as int) =~= spliced);
                        }
                    },
                }
            },
            FieldType::RecordArray(t) => {
                let child = compile_type(reg, t, mode);
                let d = leaf_desc(&f.name, fi, ColumnType::LargeListStruct(child));
                out.push(d);
            },
        }
        proof {
            assert(schema_model(out@) =~= prev + spec_field_descs(
                reg.model(),
                tid as int,
                mode,
                fi as int,
            ));
            assert(spec_compiled_prefix(reg.model(), tid as int, mode, fi + 1)
                == spec_compiled_prefix(reg.model(), tid as int, mode, fi as int)
                + spec_field_descs(reg.model(), tid as int, mode, fi as int));
        }
        fi = fi + 1;
    }
    out
}

/// Compiles record type `tid` under `mode`, appending the trailing
/// `message_struct` whole-record descriptor when `include_whole_record` is
/// set.
pub fn compile(
    reg: &TypeRegistry,
    tid: usize,
    mode: SchemaMode,
    include_whole_record: bool,
) -> (r: Vec<FieldDescriptor>)
    requires
        reg.wf(),
        tid < reg.model().len(),
    ensures
        schema_model(r@) == spec_compile(reg.model(), tid as int, mode, include_whole_record),
{
    let mut out = compile_type(reg, tid, mode);
    if include_whole_record {
        let ghost prev = schema_model(out@);
        let nested = compile_type(reg, tid, SchemaMode::Nested);
        let mut ip: Vec<usize> = Vec::new();
        proof {
            assert(ip@ =~= Seq::<usize>::empty());
        }
        out.push(FieldDescriptor {
            name: "message_struct".to_owned(),
            logical_path: "message_struct".to_owned(),
            index_path: ip,
            column_type: ColumnType::Struct(nested),
            nullable: true,
        });
        proof {
            assert(schema_model(out@) =~= prev.push(spec_whole_record_desc(reg.model(), tid as int)));
        }
    }
    out
}

/// Determinism: compiling the same record type under the same mode and
/// whole-record flag twice yields identical ordered field lists — names,
/// types and nullability. The compiled schema is a function of the registry
/// contents and the three arguments alone.
pub proof fn lemma_compile_deterministic(
    reg: Seq<RecordDefModel>,
    tid: int,
    mode: SchemaMode,
    include_whole_record: bool,
    s1: Seq<DescModel>,
    s2: Seq<DescModel>,
)
    requires
        s1 == spec_compile(reg, tid, mode, include_whole_record),
        s2 == spec_compile(reg, tid, mode, include_whole_record),
    ensures
        s1 == s2,
{
}

proof fn lemma_nested_prefix_count(reg: Seq<RecordDefModel>, tid: int, n: int)
    requires
        registry_wf(reg),
        0 <= tid < reg.len(),
        0 <= n <= reg[tid].fields.len(),
    ensures
        spec_compiled_prefix(reg, tid, SchemaMode::Nested, n).len() == n,
    decreases n,
{
    if n > 0 {
        lemma_nested_prefix_count(reg, tid, n - 1);
        assert(def_fields_ok(reg[tid], tid));
        assert(field_ty_ok(reg[tid].fields[n - 1].ty, tid));
        assert(spec_field_descs(reg, tid, SchemaMode::Nested, n - 1).len() == 1);
    }
}

/// Field-count law, nested mode: compiling a record type with N declared
/// fields yields exactly N top-level descriptors, regardless of the nesting
/// depth inside struct-typed descriptors.
pub proof fn lemma_nested_descriptor_count(reg: Seq<RecordDefModel>, tid: int)
    requires
        registry_wf(reg),
        0 <= tid < reg.len(),
    ensures
        spec_compiled(reg, tid, SchemaMode::Nested).len() == reg[tid].fields.len(),
{
    lemma_nested_prefix_count(reg, tid, reg[tid].fields.len() as int);
}

/// The number of descriptors field `fi` of type `tid` contributes in
/// flattened mode: one for a primitive, array-of-primitive or
/// array-of-record field, the flattened count of the referenced type for a
/// record field.
pub open spec fn spec_flat_field_count(reg: Seq<RecordDefModel>, tid: int, fi: int) -> nat
    decreases tid, 0int, 0int,
{
    match reg[tid].fields[fi].ty {
        FieldType::Prim(_) => 1,
        FieldType::Array(_) => 1,
        FieldType::Record(t) => if (t as int) < tid {
            spec_flat_count(reg, t as int)
        } else {
            0
        },
        FieldType::RecordArray(_) => 1,
    }
}

/// The flattened descriptor count contributed by the first `n` fields.
pub open spec fn spec_flat_count_prefix(reg: Seq<RecordDefModel>, tid: int, n: int) -> nat
    decreases tid, 0int, n,
{
    if n <= 0 {
        0
    } else {
        spec_flat_count_prefix(reg, tid, n - 1) + spec_flat_field_count(reg, tid, n - 1)
    }
}

/// The flattened descriptor count of record type `tid`: the sum over its
/// fields of each field's flattened contribution.
pub open spec fn spec_flat_count(reg: Seq<RecordDefModel>, tid: int) -> nat
    decreases tid, 1int, 0int,
{
    spec_flat_count_prefix(reg, tid, reg[tid].fields.len() as int)
}

proof fn lemma_flat_prefix_count(reg: Seq<RecordDefModel>, tid: int, n: int)
    requires
        registry_wf(reg),
        0 <= tid < reg.len(),
        0 <= n <= reg[tid].fields.len(),
    ensures
        spec_compiled_prefix(reg, tid, SchemaMode::Flattened, n).len() == spec_flat_count_prefix(
            reg,
            tid,
            n,
        ),
    decreases tid, 0int, n,
{
    if n > 0 {
        lemma_flat_prefix_count(reg, tid, n - 1);
        assert(def_fields_ok(reg[tid], tid));
        assert(field_ty_ok(reg[tid].fields[n - 1].ty, tid));
        match reg[tid].fields[n - 1].ty {
            FieldType::Record(t) => {
                lemma_flattened_descriptor_count(reg, t as int);
                assert((t as int) < tid);
                assert(spec_field_descs(reg, tid, SchemaMode::Flattened, n - 1)
                    == spec_compiled(reg, t as int, SchemaMode::Flattened).map_values(
                    |d: DescModel| prefixed_desc(d, reg[tid].fields[n - 1].name, (n - 1) as usize),
                ));
                assert(spec_field_descs(reg, tid, SchemaMode::Flattened, n - 1).len()
                    == spec_flat_count(reg, t as int));
            },
            _ => {
                assert(spec_field_descs(reg, tid, SchemaMode::Flattened, n - 1).len() == 1);
            },
        }
        assert(spec_compiled_prefix(reg, tid, SchemaMode::Flattened, n) == spec_compiled_prefix(
            reg,
            tid,
            SchemaMode::Flattened,
            n - 1,
        ) + spec_field_descs(reg, tid, SchemaMode::Flattened, n - 1));
        assert(spec_flat_count_prefix(reg, tid, n) == spec_flat_count_prefix(reg, tid, n - 1)
            + spec_flat_field_count(reg, tid, n - 1));
        assert(spec_field_descs(reg, tid, SchemaMode::Flattened, n - 1).len()
            == spec_flat_field_count(reg, tid, n - 1));
    }
}

/// Field-count law, flattened mode, exact form: the number of compiled
/// descriptors equals the sum over the declared fields of each field's
/// flattened contribution ([`spec_flat_field_count`]).
pub proof fn lemma_flattened_descriptor_count(reg: Seq<RecordDefModel>, tid: int)
    requires
        registry_wf(reg),
        0 <= tid < reg.len(),
    ensures
        spec_compiled(reg, tid, SchemaMode::Flattened).len() == spec_flat_count(reg, tid),
    decreases tid, 1int, 0int,
{
    lemma_flat_prefix_count(reg, tid, reg[tid].fields.len() as int);
}

proof fn lemma_flat_count_prefix_at_least(reg: Seq<RecordDefModel>, tid: int, n: int)
    requires
        registry_wf(reg),
        0 <= tid < reg.len(),
        0 <= n <= reg[tid].fields.len(),
        forall|i: int| 0 <= i < reg.len() ==> (#[trigger] reg[i].fields).len() >= 1,
    ensures
        spec_flat_count_prefix(reg, tid, n) >= n,
    decreases tid, 0int, n,
{
    if n > 0 {
        lemma_flat_count_prefix_at_least(reg, tid, n - 1);
        assert(def_fields_ok(reg[tid], tid));
        assert(field_ty_ok(reg[tid].fields[n - 1].ty, tid));
        match reg[tid].fields[n - 1].ty {
            FieldType::Record(t) => {
                lemma_flat_count_at_least_declared(reg, t as int);
                assert(reg[t as int].fields.len() >= 1);
                assert(spec_flat_field_count(reg, tid, n - 1) >= 1);
            },
            _ => {
                assert(spec_flat_field_count(reg, tid, n - 1) == 1);
            },
        }
        assert(spec_flat_count_prefix(reg, tid, n) == spec_flat_count_prefix(reg, tid, n - 1)
            + spec_flat_field_count(reg, tid, n - 1));
    }
}

/// Field-count law, flattened mode, lower bound: when every registered type
/// declares at least one field, flattening a record type yields at least as
/// many descriptors as the type declares. (A record field referencing a
/// fieldless type splices in nothing, which is why fieldless types are
/// excluded here.)
pub proof fn lemma_flat_count_at_least_declared(reg: Seq<RecordDefModel>, tid: int)
    requires
        registry_wf(reg),
        0 <= tid < reg.len(),
        forall|i: int| 0 <= i < reg.len() ==> (#[trigger] reg[i].fields).len() >= 1,
    ensures
        spec_flat_count(reg, tid) >= reg[tid].fields.len(),
    decreases tid, 1int, 0int,
{
    lemma_flat_count_prefix_at_least(reg, tid, reg[tid].fields.len() as int);
}

/// Why a schema compilation by identifier was refused.
#[derive(Clone, Copy, PartialEq, Eq, Structural, Debug)]
pub enum CompileError {
    /// No registered type carries the requested schema identifier.
    UnknownSchemaId,
}

/// Compiles the record type registered under `schema_id`.
///
/// Fails — producing no schema at all — exactly when no registered type
/// carries that identifier.
pub fn compile_by_id(
    reg: &TypeRegistry,
    schema_id: &String,
    mode: SchemaMode,
    include_whole_record: bool,
) -> (r: Result<Vec<FieldDescriptor>, CompileError>)
    requires
        reg.wf(),
    ensures
        match r {
            Ok(s) => exists|tid: int|
                0 <= tid < reg.model().len() && (#[trigger] reg.model()[tid].schema_id)
                    == schema_id@ && schema_model(s@) == spec_compile(
                    reg.model(),
                    tid,
                    mode,
                    include_whole_record,
                ),
            Err(e) => e == CompileError::UnknownSchemaId && crate::types::id_fresh(
                reg.model(),
                schema_id@,
            ),
        },
{
    match reg.lookup(schema_id) {
        Some(tid) => Ok(compile(reg, tid, mode, include_whole_record)),
        None => Err(CompileError::UnknownSchemaId),
    }
}

} // verus!
