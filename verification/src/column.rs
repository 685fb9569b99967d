//! Typed column accumulators.
//!
//! A column accumulates one value per appended row. Scalar, binary and
//! list columns store their rows directly; a struct column holds one child
//! column per field of its schema plus a validity mark per completed row (the
//! completion marker is appended even when the struct has no children); a
//! list-of-struct column holds a shared element store plus a per-row element
//! count. An append first checks the value against the column — the check
//! depends only on the column's shape, never on its contents — and a checked
//! append always succeeds, leaving the column unchanged on a mismatch.

use vstd::prelude::*;
use vstd::pervasive::VecAdditionalExecFns;
use crate::schema::{
    ColTypeModel, ColumnType, DescModel, FieldDescriptor, ScalarType, col_type_model, copy_schema,
    desc_model, schema_model,
};
use crate::value::{
    PrimValue, PrimValueModel, RecordModel, RecordValue, Value, ValueModel, copy_prim,
    lemma_rec_extract_decreases, prim_value_model, prims_model, rec_extract, record_model,
    resolve_path, value_model,
};

verus! {

/// A struct column: the child schema (with index paths relative to the
/// struct's record value), one child column per schema field, and one
/// validity mark per completed row.
#[derive(Debug, PartialEq, Eq)]
pub struct StructColumn {
    pub fields: Vec<FieldDescriptor>,
    pub children: Vec<Column>,
    pub valid: Vec<bool>,
}

/// One column accumulator.
#[derive(Debug, PartialEq, Eq)]
pub enum Column {
    /// A scalar column: its stored values.
    Scalar(ScalarType, Vec<PrimValue>),
    /// A null-typed column: one mark per appended row, every row null.
    Null(Vec<bool>),
    /// A byte-blob column: one byte string per row.
    LargeBinary(Vec<Vec<u8>>),
    /// A list-of-scalar column: one list of stored values per row.
    LargeList(ScalarType, Vec<Vec<PrimValue>>),
    /// A struct column.
    Struct(StructColumn),
    /// A list-of-struct column: the element store and one element count per
    /// row.
    LargeListStruct(StructColumn, Vec<usize>),
}

/// Mathematical model of a [`StructColumn`].
#[verifier::ext_equal]
pub ghost struct StructColModel {
    pub fields: Seq<DescModel>,
    pub children: Seq<ColModel>,
    pub valid: Seq<bool>,
}

/// Mathematical model of a [`Column`].
#[verifier::ext_equal]
pub ghost enum ColModel {
    Scalar(ScalarType, Seq<PrimValueModel>),
    Null(Seq<bool>),
    LargeBinary(Seq<Seq<u8>>),
    LargeList(ScalarType, Seq<Seq<PrimValueModel>>),
    Struct(StructColModel),
    LargeListStruct(StructColModel, Seq<nat>),
}

pub open spec fn col_model(c: Column) -> ColModel
    decreases c,
{
    match c {
        Column::Scalar(s, data) => ColModel::Scalar(s, prims_model(data@)),
        Column::Null(marks) => ColModel::Null(marks@),
        Column::LargeBinary(rows) => ColModel::LargeBinary(rows@.map_values(|r: Vec<u8>| r@)),
        Column::LargeList(s, rows) => ColModel::LargeList(
            s,
            rows@.map_values(|r: Vec<PrimValue>| prims_model(r@)),
        ),
        Column::Struct(sc) => ColModel::Struct(struct_col_model(sc)),
        Column::LargeListStruct(sc, lens) => ColModel::LargeListStruct(
            struct_col_model(sc),
            lens@.map_values(|n: usize| n as nat),
        ),
    }
}

pub open spec fn struct_col_model(sc: StructColumn) -> StructColModel
    decreases sc,
{
    StructColModel {
        fields: schema_model(sc.fields@),
        children: Seq::new(
            sc.children@.len(),
            |i: int|
                if 0 <= i < sc.children@.len() {
                    col_model(sc.children@[i])
                } else {
                    arbitrary()
                },
        ),
        valid: sc.valid@,
    }
}

/// Number of completed rows in a column.
pub open spec fn col_len(c: ColModel) -> nat {
    match c {
        ColModel::Scalar(_, data) => data.len(),
        ColModel::Null(marks) => marks.len(),
        ColModel::LargeBinary(rows) => rows.len(),
        ColModel::LargeList(_, rows) => rows.len(),
        ColModel::Struct(sc) => sc.valid.len(),
        ColModel::LargeListStruct(_, lens) => lens.len(),
    }
}

/// Number of null entries in a column: every row of a null-typed column,
/// none anywhere else — appended values are never null in this design.
pub open spec fn col_null_count(c: ColModel) -> nat {
    match c {
        ColModel::Null(marks) => marks.len(),
        _ => 0,
    }
}

/// True when the column's shape is the one the columnar type calls for.
pub open spec fn col_matches(c: ColModel, t: ColTypeModel) -> bool {
    match c {
        ColModel::Scalar(s, _) => t == ColTypeModel::Scalar(s),
        ColModel::Null(_) => t == ColTypeModel::Null,
        ColModel::LargeBinary(_) => t == ColTypeModel::LargeBinary,
        ColModel::LargeList(s, _) => t == ColTypeModel::LargeList(s),
        ColModel::Struct(sc) => t == ColTypeModel::Struct(sc.fields),
        ColModel::LargeListStruct(sc, _) => t == ColTypeModel::LargeListStruct(sc.fields),
    }
}

/// True when `p` is in the stored form of scalar type `s`: wide integers
/// are narrowed before storage, so a 64-bit column stores 64-bit values
/// only.
pub open spec fn prim_stored(s: ScalarType, p: PrimValueModel) -> bool {
    match s {
        ScalarType::Boolean => p is Bool,
        ScalarType::Utf8 => p is Str,
        ScalarType::Int8 => p is I8,
        ScalarType::Int16 => p is I16,
        ScalarType::Int32 => p is I32,
        ScalarType::Int64 => p is I64,
        ScalarType::UInt8 => p is U8,
        ScalarType::UInt16 => p is U16,
        ScalarType::UInt32 => p is U32,
        ScalarType::UInt64 => p is U64,
        ScalarType::Float32 => p is F32Bits,
        ScalarType::Float64 => p is F64Bits,
    }
}

/// True when scalar type `s` takes `p`: the matching stored form, or a
/// wider integer that narrows lossily into a 64-bit column.
pub open spec fn scalar_accepts(s: ScalarType, p: PrimValueModel) -> bool {
    match s {
        ScalarType::Int64 => p is I64 || p is I128 || p is ISize,
        ScalarType::UInt64 => p is U64 || p is U128 || p is USize,
        _ => prim_stored(s, p),
    }
}

/// The stored form of `p`: 128-bit and pointer-sized integers truncate to
/// 64 bits, everything else is stored as given.
pub open spec fn narrowed(p: PrimValueModel) -> PrimValueModel {
    match p {
        PrimValueModel::I128(x) => PrimValueModel::I64(x as i64),
        PrimValueModel::ISize(x) => PrimValueModel::I64(x as i64),
        PrimValueModel::U128(x) => PrimValueModel::U64(x as u64),
        PrimValueModel::USize(x) => PrimValueModel::U64(x as u64),
        _ => p,
    }
}

/// Sum of a sequence of element counts.
pub open spec fn sum_counts(s: Seq<nat>) -> nat
    decreases s.len(),
{
    if s.len() == 0 {
        0
    } else {
        s[0] + sum_counts(s.drop_first())
    }
}

/// Column invariant: stored values are in stored form; null and validity
/// marks are set; a struct column has one child per schema field, each
/// well-formed, of its field's type, and holding exactly one value per
/// completed row; a list-of-struct column's element counts sum to its
/// element store's row count.
pub open spec fn col_wf(c: ColModel) -> bool
    decreases c,
{
    match c {
        ColModel::Scalar(s, data) => forall|i: int|
            0 <= i < data.len() ==> prim_stored(s, #[trigger] data[i]),
        ColModel::Null(marks) => forall|i: int| 0 <= i < marks.len() ==> #[trigger] marks[i] == true,
        ColModel::LargeBinary(_) => true,
        ColModel::LargeList(s, rows) => forall|i: int, j: int|
            0 <= i < rows.len() && 0 <= j < rows[i].len() ==> prim_stored(
                s,
                #[trigger] rows[i][j],
            ),
        ColModel::Struct(sc) => struct_col_wf(sc),
        ColModel::LargeListStruct(sc, lens) => struct_col_wf(sc) && sum_counts(lens)
            == sc.valid.len(),
    }
}

pub open spec fn struct_col_wf(sc: StructColModel) -> bool
    decreases sc,
{
    &&& sc.children.len() == sc.fields.len()
    &&& forall|i: int| 0 <= i < sc.valid.len() ==> #[trigger] sc.valid[i] == true
    &&& forall|i: int|
        0 <= i < sc.children.len() ==> {
            &&& col_wf(#[trigger] sc.children[i])
            &&& col_matches(sc.children[i], sc.fields[i].column_type)
            &&& col_len(sc.children[i]) == sc.valid.len()
        }
}

/// True when the column takes the value: the check depends on the column's
/// shape and schema alone, never on its accumulated contents.
pub open spec fn col_accepts(c: ColModel, v: ValueModel) -> bool
    decreases v, 2int,
{
    match c {
        ColModel::Scalar(s, _) => match v {
            ValueModel::Prim(p) => scalar_accepts(s, p),
            _ => false,
        },
        ColModel::Null(_) => v == ValueModel::Prim(PrimValueModel::Unit),
        ColModel::LargeBinary(_) => match v {
            ValueModel::Array(es) => forall|i: int| 0 <= i < es.len() ==> (#[trigger] es[i]) is U8,
            _ => false,
        },
        ColModel::LargeList(s, _) => match v {
            ValueModel::Array(es) => forall|i: int|
                0 <= i < es.len() ==> scalar_accepts(s, #[trigger] es[i]),
            _ => false,
        },
        ColModel::Struct(sc) => match v {
            ValueModel::Record(rv) => rec_accepts(sc.fields, sc.children, rv),
            _ => false,
        },
        ColModel::LargeListStruct(sc, _) => match v {
            ValueModel::RecordArray(es) => forall|k: int|
                0 <= k < es.len() ==> rec_accepts(sc.fields, sc.children, #[trigger] es[k]),
            _ => false,
        },
    }
}

/// True when one child column takes the value resolved at its field's index
/// path within the record: the path resolves, and the child accepts what it
/// names.
pub open spec fn child_accepts(c: ColModel, rv: RecordModel, path: Seq<usize>) -> bool
    decreases rv, 0int,
    via child_accepts_decreases
{
    rec_extract(rv, path) is Some && col_accepts(c, rec_extract(rv, path)->0)
}

#[via_fn]
proof fn child_accepts_decreases(c: ColModel, rv: RecordModel, path: Seq<usize>) {
    if rec_extract(rv, path) is Some {
        lemma_rec_extract_decreases(rv, path);
    }
}

/// True when a record instance fits a struct column's children: each child
/// field's index path resolves within the record, and every child column
/// takes the resolved value.
pub open spec fn rec_accepts(
    fields: Seq<DescModel>,
    children: Seq<ColModel>,
    rv: RecordModel,
) -> bool
    decreases rv, 1int,
{
    &&& children.len() == fields.len()
    &&& forall|i: int|
        0 <= i < children.len() ==> child_accepts(#[trigger] children[i], rv, fields[i].index_path)
}

/// The byte string carried by a sequence of byte values.
pub open spec fn bytes_of(es: Seq<PrimValueModel>) -> Seq<u8> {
    Seq::new(
        es.len(),
        |i: int|
            if 0 <= i < es.len() && es[i] is U8 {
                es[i]->U8_0
            } else {
                arbitrary()
            },
    )
}

/// The column after appending one value. Meaningful under
/// [`col_accepts`]; on a mismatched value the column is unchanged.
pub open spec fn col_append(c: ColModel, v: ValueModel) -> ColModel
    decreases v, 2int,
{
    match c {
        ColModel::Scalar(s, data) => match v {
            ValueModel::Prim(p) => ColModel::Scalar(s, data.push(narrowed(p))),
            _ => c,
        },
        ColModel::Null(marks) => match v {
            ValueModel::Prim(PrimValueModel::Unit) => ColModel::Null(marks.push(true)),
            _ => c,
        },
        ColModel::LargeBinary(rows) => match v {
            ValueModel::Array(es) => ColModel::LargeBinary(rows.push(bytes_of(es))),
            _ => c,
        },
        ColModel::LargeList(s, rows) => match v {
            ValueModel::Array(es) => ColModel::LargeList(
                s,
                rows.push(es.map_values(|p: PrimValueModel| narrowed(p))),
            ),
            _ => c,
        },
        ColModel::Struct(sc) => match v {
            ValueModel::Record(rv) => ColModel::Struct(struct_append(sc, rv)),
            _ => c,
        },
        ColModel::LargeListStruct(sc, lens) => match v {
            ValueModel::RecordArray(es) => ColModel::LargeListStruct(
                elems_append(sc, es),
                lens.push(es.len()),
            ),
            _ => c,
        },
    }
}

/// One child column after receiving the value resolved at its field's index
/// path within the record; unchanged when the path resolves to nothing.
pub open spec fn child_append(c: ColModel, rv: RecordModel, path: Seq<usize>) -> ColModel
    decreases rv, 0int,
    via child_append_decreases
{
    if rec_extract(rv, path) is Some {
        col_append(c, rec_extract(rv, path)->0)
    } else {
        c
    }
}

#[via_fn]
proof fn child_append_decreases(c: ColModel, rv: RecordModel, path: Seq<usize>) {
    if rec_extract(rv, path) is Some {
        lemma_rec_extract_decreases(rv, path);
    }
}

/// The struct column after appending one record: each child receives the
/// value resolved at its field's index path, then the completion marker is
/// appended — always, even when the children are trivial.
pub open spec fn struct_append(sc: StructColModel, rv: RecordModel) -> StructColModel
    decreases rv, 1int,
{
    StructColModel {
        fields: sc.fields,
        children: Seq::new(
            sc.children.len(),
            |i: int|
                if 0 <= i < sc.children.len() {
                    child_append(sc.children[i], rv, sc.fields[i].index_path)
                } else {
                    arbitrary()
                },
        ),
        valid: sc.valid.push(true),
    }
}

/// The struct column after appending each record of a sequence in order.
pub open spec fn elems_append(sc: StructColModel, es: Seq<RecordModel>) -> StructColModel
    decreases es, 3int,
{
    if es.len() == 0 {
        sc
    } else {
        elems_append(struct_append(sc, es[0]), es.drop_first())
    }
}

/// Establishes [`rec_accepts`] from its per-child conditions.
pub proof fn lemma_rec_accepts_intro(
    fields: Seq<DescModel>,
    children: Seq<ColModel>,
    rv: RecordModel,
)
    requires
        children.len() == fields.len(),
        forall|i: int|
            0 <= i < children.len() ==> child_accepts(
                #[trigger] children[i],
                rv,
                fields[i].index_path,
            ),
    ensures
        rec_accepts(fields, children, rv),
{
}

/// Instantiates [`rec_accepts`] at one child position.
pub proof fn lemma_rec_accepts_index(
    fields: Seq<DescModel>,
    children: Seq<ColModel>,
    rv: RecordModel,
    i: int,
)
    requires
        rec_accepts(fields, children, rv),
        0 <= i < children.len(),
    ensures
        child_accepts(children[i], rv, fields[i].index_path),
        rec_extract(rv, fields[i].index_path) is Some,
        col_accepts(children[i], rec_extract(rv, fields[i].index_path)->0),
{
}

proof fn lemma_sum_counts_push(s: Seq<nat>, x: nat)
    ensures
        sum_counts(s.push(x)) == sum_counts(s) + x,
    decreases s.len(),
{
    if s.len() == 0 {
        assert(s.push(x)[0] == x);
        assert(s.push(x).drop_first() =~= Seq::<nat>::empty());
        assert(sum_counts(Seq::<nat>::empty()) == 0);
    } else {
        lemma_sum_counts_push(s.drop_first(), x);
        assert(s.push(x)[0] == s[0]);
        assert(s.push(x).drop_first() =~= s.drop_first().push(x));
    }
}

/// Row-count step: an accepted append adds exactly one row to the column,
/// and adds a null entry only to a null-typed column.
pub proof fn lemma_col_append_len(c: ColModel, v: ValueModel)
    requires
        col_accepts(c, v),
    ensures
        col_len(col_append(c, v)) == col_len(c) + 1,
        col_null_count(col_append(c, v)) == col_null_count(c) + (if c is Null {
            1nat
        } else {
            0nat
        }),
{
}

proof fn lemma_elems_append_shape(sc: StructColModel, es: Seq<RecordModel>)
    ensures
        elems_append(sc, es).fields == sc.fields,
        elems_append(sc, es).children.len() == sc.children.len(),
        elems_append(sc, es).valid.len() == sc.valid.len() + es.len(),
    decreases es,
{
    if es.len() > 0 {
        lemma_elems_append_shape(struct_append(sc, es[0]), es.drop_first());
    }
}

/// An append never changes a column's shape: the column still matches the
/// columnar type it was built for.
pub proof fn lemma_col_append_matches(c: ColModel, v: ValueModel, t: ColTypeModel)
    requires
        col_matches(c, t),
    ensures
        col_matches(col_append(c, v), t),
{
    match c {
        ColModel::LargeListStruct(sc, _) => match v {
            ValueModel::RecordArray(es) => lemma_elems_append_shape(sc, es),
            _ => {
            },
        },
        _ => {
        },
    }
}

proof fn lemma_struct_append_preserves_rec(sc: StructColModel, rv1: RecordModel, rv2: RecordModel)
    ensures
        rec_accepts(sc.fields, struct_append(sc, rv1).children, rv2) == rec_accepts(
            sc.fields,
            sc.children,
            rv2,
        ),
    decreases rv2, 0int,
{
    let children2 = struct_append(sc, rv1).children;
    assert(children2.len() == sc.children.len());
    assert forall|i: int| 0 <= i < sc.children.len() implies child_accepts(
        #[trigger] children2[i],
        rv2,
        sc.fields[i].index_path,
    ) == child_accepts(sc.children[i], rv2, sc.fields[i].index_path) by {
        let ev1 = rec_extract(rv1, sc.fields[i].index_path);
        let ev2 = rec_extract(rv2, sc.fields[i].index_path);
        assert(children2[i] == child_append(sc.children[i], rv1, sc.fields[i].index_path));
        if ev2 is Some {
            lemma_rec_extract_decreases(rv2, sc.fields[i].index_path);
            if ev1 is Some {
                assert(children2[i] == col_append(sc.children[i], ev1->0));
                lemma_col_append_preserves_accepts(sc.children[i], ev1->0, ev2->0);
            } else {
                assert(children2[i] == sc.children[i]);
            }
        }
    }
    if rec_accepts(sc.fields, sc.children, rv2) {
        assert forall|i: int| 0 <= i < children2.len() implies child_accepts(
            #[trigger] children2[i],
            rv2,
            sc.fields[i].index_path,
        ) by {
            lemma_rec_accepts_index(sc.fields, sc.children, rv2, i);
        }
        lemma_rec_accepts_intro(sc.fields, children2, rv2);
    }
    if rec_accepts(sc.fields, children2, rv2) {
        assert forall|i: int| 0 <= i < sc.children.len() implies child_accepts(
            #[trigger] sc.children[i],
            rv2,
            sc.fields[i].index_path,
        ) by {
            lemma_rec_accepts_index(sc.fields, children2, rv2, i);
        }
        lemma_rec_accepts_intro(sc.fields, sc.children, rv2);
    }
}

proof fn lemma_elems_append_preserves_rec(
    sc: StructColModel,
    es1: Seq<RecordModel>,
    rv2: RecordModel,
)
    ensures
        rec_accepts(sc.fields, elems_append(sc, es1).children, rv2) == rec_accepts(
            sc.fields,
            sc.children,
            rv2,
        ),
    decreases rv2, es1.len() + 1,
{
    if es1.len() > 0 {
        let sc1 = struct_append(sc, es1[0]);
        lemma_struct_append_preserves_rec(sc, es1[0], rv2);
        assert(sc1.fields == sc.fields);
        lemma_elems_append_preserves_rec(sc1, es1.drop_first(), rv2);
    }
}

/// Whether a column takes a value does not depend on what the column has
/// already accumulated: appending one value never changes which values the
/// column takes.
pub proof fn lemma_col_append_preserves_accepts(c: ColModel, v1: ValueModel, v2: ValueModel)
    ensures
        col_accepts(col_append(c, v1), v2) == col_accepts(c, v2),
    decreases v2, 0int,
{
    match c {
        ColModel::Struct(sc) => match v1 {
            ValueModel::Record(rv1) => {
                match v2 {
                    ValueModel::Record(rv2) => {
                        lemma_struct_append_preserves_rec(sc, rv1, rv2);
                    },
                    _ => {
                    },
                }
            },
            _ => {
            },
        },
        ColModel::LargeListStruct(sc, _) => match v1 {
            ValueModel::RecordArray(es1) => {
                match v2 {
                    ValueModel::RecordArray(es2) => {
                        let sc1 = elems_append(sc, es1);
                        lemma_elems_append_shape(sc, es1);
                        assert forall|k: int| 0 <= k < es2.len() implies rec_accepts(
                            sc1.fields,
                            sc1.children,
                            #[trigger] es2[k],
                        ) == rec_accepts(sc.fields, sc.children, es2[k]) by {
                            lemma_elems_append_preserves_rec(sc, es1, es2[k]);
                        }
                        assert(col_accepts(col_append(c, v1), v2) == col_accepts(c, v2)) by {
                            if col_accepts(c, v2) {
                                assert forall|k: int| 0 <= k < es2.len() implies rec_accepts(
                                    sc1.fields,
                                    sc1.children,
                                    #[trigger] es2[k],
                                ) by {
                                    assert(rec_accepts(sc.fields, sc.children, es2[k]));
                                }
                            }
                            if col_accepts(col_append(c, v1), v2) {
                                assert forall|k: int| 0 <= k < es2.len() implies rec_accepts(
                                    sc.fields,
                                    sc.children,
                                    #[trigger] es2[k],
                                ) by {
                                    assert(rec_accepts(sc1.fields, sc1.children, es2[k]));
                                }
                            }
                        }
                    },
                    _ => {
                    },
                }
            },
            _ => {
            },
        },
        _ => {
        },
    }
}

proof fn lemma_struct_append_wf(sc: StructColModel, rv: RecordModel)
    requires
        struct_col_wf(sc),
        rec_accepts(sc.fields, sc.children, rv),
    ensures
        struct_col_wf(struct_append(sc, rv)),
    decreases rv, 0int,
{
    let sc2 = struct_append(sc, rv);
    assert forall|i: int| 0 <= i < sc2.children.len() implies {
        &&& col_wf(#[trigger] sc2.children[i])
        &&& col_matches(sc2.children[i], sc2.fields[i].column_type)
        &&& col_len(sc2.children[i]) == sc2.valid.len()
    } by {
        lemma_rec_accepts_index(sc.fields, sc.children, rv, i);
        let ev = rec_extract(rv, sc.fields[i].index_path);
        lemma_rec_extract_decreases(rv, sc.fields[i].index_path);
        assert(sc2.children[i] == child_append(sc.children[i], rv, sc.fields[i].index_path));
        assert(sc2.children[i] == col_append(sc.children[i], ev->0));
        lemma_col_append_wf(sc.children[i], ev->0);
        lemma_col_append_matches(sc.children[i], ev->0, sc.fields[i].column_type);
        lemma_col_append_len(sc.children[i], ev->0);
    }
}

proof fn lemma_elems_append_wf(sc: StructColModel, es: Seq<RecordModel>)
    requires
        struct_col_wf(sc),
        forall|k: int| 0 <= k < es.len() ==> rec_accepts(sc.fields, sc.children, #[trigger] es[k]),
    ensures
        struct_col_wf(elems_append(sc, es)),
    decreases es, 1int,
{
    if es.len() > 0 {
        let sc1 = struct_append(sc, es[0]);
        assert(rec_accepts(sc.fields, sc.children, es[0]));
        lemma_struct_append_wf(sc, es[0]);
        assert forall|k: int| 0 <= k < es.drop_first().len() implies rec_accepts(
            sc1.fields,
            sc1.children,
            #[trigger] es.drop_first()[k],
        ) by {
            assert(es.drop_first()[k] == es[k + 1]);
            assert(rec_accepts(sc.fields, sc.children, es[k + 1]));
            lemma_struct_append_preserves_rec(sc, es[0], es[k + 1]);
        }
        lemma_elems_append_wf(sc1, es.drop_first());
    }
}

/// An accepted append preserves the column invariant.
pub proof fn lemma_col_append_wf(c: ColModel, v: ValueModel)
    requires
        col_wf(c),
        col_accepts(c, v),
    ensures
        col_wf(col_append(c, v)),
    decreases v, 0int,
{
    match c {
        ColModel::Scalar(s, data) => {
            let p = v->Prim_0;
            let stored = data.push(narrowed(p));
            assert forall|i: int| 0 <= i < stored.len() implies prim_stored(
                s,
                #[trigger] stored[i],
            ) by {
                if i < data.len() {
                    assert(prim_stored(s, data[i]));
                } else {
                    assert(stored[i] == narrowed(p));
                }
            }
            assert(col_append(c, v) == ColModel::Scalar(s, stored));
            assert(col_wf(ColModel::Scalar(s, stored)));
        },
        ColModel::LargeList(s, rows) => {
            let es = v->Array_0;
            let stored = es.map_values(|p: PrimValueModel| narrowed(p));
            assert forall|j: int| 0 <= j < stored.len() implies prim_stored(
                s,
                #[trigger] stored[j],
            ) by {
                assert(scalar_accepts(s, es[j]));
            }
            assert forall|i: int, j: int|
                0 <= i < rows.push(stored).len() && 0 <= j < rows.push(stored)[i].len() implies prim_stored(
                s,
                #[trigger] rows.push(stored)[i][j],
            ) by {
                if i < rows.len() {
                    assert(prim_stored(s, rows[i][j]));
                } else {
                    assert(rows.push(stored)[i] == stored);
                }
            }
        },
        ColModel::Struct(sc) => {
            let rv = v->Record_0;
            lemma_struct_append_wf(sc, rv);
        },
        ColModel::LargeListStruct(sc, lens) => {
            let es = v->RecordArray_0;
            lemma_elems_append_wf(sc, es);
            lemma_elems_append_shape(sc, es);
            lemma_sum_counts_push(lens, es.len());
        },
        ColModel::Null(marks) => {
            let marks2 = marks.push(true);
            assert forall|i: int| 0 <= i < marks2.len() implies #[trigger] marks2[i] == true by {
                if i < marks.len() {
                    assert(marks[i] == true);
                } else {
                    assert(marks2[i] == true);
                }
            }
        },
        _ => {
        },
    }
}

/// Struct completeness: appending a record to a struct column appends the
/// completion marker — always, even when the record's values are all
/// defaults or the struct has no children — so the new row is valid and the
/// struct column holds no null entry.
pub proof fn lemma_struct_completion(sc: StructColModel, rv: RecordModel)
    ensures
        struct_append(sc, rv).valid.len() == sc.valid.len() + 1,
        struct_append(sc, rv).valid[sc.valid.len() as int] == true,
        col_null_count(ColModel::Struct(struct_append(sc, rv))) == 0,
{
}

/// An empty struct column for the given child schema.
pub fn new_struct_column(fs: &Vec<FieldDescriptor>) -> (r: StructColumn)
    ensures
        struct_col_wf(struct_col_model(r)),
        struct_col_model(r).fields == schema_model(fs@),
        struct_col_model(r).valid.len() == 0,
    decreases *fs,
{
    let fields = copy_schema(fs);
    proof {
        assert(schema_model(fields@).len() == fields@.len());
        assert(schema_model(fs@).len() == fs@.len());
    }
    let mut children: Vec<Column> = Vec::new();
    let mut i: usize = 0;
    while i < fs.len()
        invariant
            i <= fs.len(),
            schema_model(fields@) == schema_model(fs@),
            fields@.len() == fs@.len(),
            children@.len() == i,
            forall|k: int|
                0 <= k < i ==> {
                    &&& col_wf(col_model(#[trigger] children@[k]))
                    &&& col_matches(col_model(children@[k]), col_type_model(fs@[k].column_type))
                    &&& col_len(col_model(children@[k])) == 0
                },
        decreases fs.len() - i,
    {
        let child = new_column(&fs[i].column_type);
        children.push(child);
        i = i + 1;
    }
    let r = StructColumn { fields, children, valid: Vec::new() };
    proof {
        assert forall|k: int| 0 <= k < struct_col_model(r).children.len() implies {
            &&& col_wf(#[trigger] struct_col_model(r).children[k])
            &&& col_matches(
                struct_col_model(r).children[k],
                struct_col_model(r).fields[k].column_type,
            )
            &&& col_len(struct_col_model(r).children[k]) == struct_col_model(r).valid.len()
        } by {
            assert(struct_col_model(r).children[k] == col_model(r.children@[k]));
            assert(struct_col_model(r).fields[k] == schema_model(fs@)[k]);
            assert(schema_model(fs@)[k] == desc_model(fs@[k]));
        }
    }
    r
}

/// An empty column of the given columnar type.
pub fn new_column(t: &ColumnType) -> (r: Column)
    ensures
        col_wf(col_model(r)),
        col_matches(col_model(r), col_type_model(*t)),
        col_len(col_model(r)) == 0,
    decreases *t,
{
    match t {
        ColumnType::Scalar(s) => {
            let r = Column::Scalar(*s, Vec::new());
            proof {
                assert(prims_model(Seq::<PrimValue>::empty()) =~= Seq::<PrimValueModel>::empty());
            }
            r
        },
        ColumnType::Null => Column::Null(Vec::new()),
        ColumnType::LargeBinary => Column::LargeBinary(Vec::new()),
        ColumnType::LargeList(s) => Column::LargeList(*s, Vec::new()),
        ColumnType::Struct(fs) => Column::Struct(new_struct_column(fs)),
        ColumnType::LargeListStruct(fs) => Column::LargeListStruct(
            new_struct_column(fs),
            Vec::new(),
        ),
    }
}

/// Number of completed rows in the column.
pub fn column_len(c: &Column) -> (n: usize)
    ensures
        n == col_len(col_model(*c)),
{
    match c {
        Column::Scalar(_, data) => data.len(),
        Column::Null(marks) => marks.len(),
        Column::LargeBinary(rows) => rows.len(),
        Column::LargeList(_, rows) => rows.len(),
        Column::Struct(sc) => sc.valid.len(),
        Column::LargeListStruct(_, lens) => lens.len(),
    }
}

/// Number of null entries in the column.
pub fn column_null_count(c: &Column) -> (n: usize)
    ensures
        n == col_null_count(col_model(*c)),
{
    match c {
        Column::Null(marks) => marks.len(),
        _ => 0,
    }
}

/// Whether scalar type `s` takes the primitive value.
pub fn scalar_fits(s: ScalarType, p: &PrimValue) -> (r: bool)
    ensures
        r == scalar_accepts(s, prim_value_model(*p)),
{
    match s {
        ScalarType::Boolean => matches!(p, PrimValue::Bool(_)),
        ScalarType::Utf8 => matches!(p, PrimValue::Str(_)),
        ScalarType::Int8 => matches!(p, PrimValue::I8(_)),
        ScalarType::Int16 => matches!(p, PrimValue::I16(_)),
        ScalarType::Int32 => matches!(p, PrimValue::I32(_)),
        ScalarType::Int64 => matches!(p, PrimValue::I64(_) | PrimValue::I128(_) | PrimValue::ISize(_)),
        ScalarType::UInt8 => matches!(p, PrimValue::U8(_)),
        ScalarType::UInt16 => matches!(p, PrimValue::U16(_)),
        ScalarType::UInt32 => matches!(p, PrimValue::U32(_)),
        ScalarType::UInt64 => matches!(p, PrimValue::U64(_) | PrimValue::U128(_) | PrimValue::USize(_)),
        ScalarType::Float32 => matches!(p, PrimValue::F32Bits(_)),
        ScalarType::Float64 => matches!(p, PrimValue::F64Bits(_)),
    }
}

/// Whether the column takes the value: the run-time mirror of
/// [`col_accepts`].
pub fn value_fits(c: &Column, v: &Value) -> (r: bool)
    ensures
        r == col_accepts(col_model(*c), value_model(*v)),
    decreases *v, 2int,
{
    match c {
        Column::Scalar(s, _) => match v {
            Value::Prim(p) => scalar_fits(*s, p),
            _ => false,
        },
        Column::Null(_) => matches!(v, Value::Prim(PrimValue::Unit)),
        Column::LargeBinary(_) => match v {
            Value::Array(es) => {
                let mut i: usize = 0;
                while i < es.len()
                    invariant
                        i <= es.len(),
                        forall|k: int| 0 <= k < i ==> (#[trigger] prims_model(es@)[k]) is U8,
                    decreases es.len() - i,
                {
                    proof {
                        assert(prims_model(es@)[i as int] == prim_value_model(es@[i as int]));
                    }
                    if !matches!(&es[i], PrimValue::U8(_)) {
                        proof {
                            assert(!((prims_model(es@)[i as int]) is U8));
                            assert(!col_accepts(col_model(*c), value_model(*v)));
                        }
                        return false;
                    }
                    i = i + 1;
                }
                true
            },
            _ => false,
        },
        Column::LargeList(s, _) => match v {
            Value::Array(es) => {
                let mut i: usize = 0;
                while i < es.len()
                    invariant
                        i <= es.len(),
                        forall|k: int|
                            0 <= k < i ==> scalar_accepts(*s, #[trigger] prims_model(es@)[k]),
                    decreases es.len() - i,
                {
                    proof {
                        assert(prims_model(es@)[i as int] == prim_value_model(es@[i as int]));
                    }
                    if !scalar_fits(*s, &es[i]) {
                        proof {
                            assert(!scalar_accepts(*s, prims_model(es@)[i as int]));
                            assert(!col_accepts(col_model(*c), value_model(*v)));
                        }
                        return false;
                    }
                    i = i + 1;
                }
                true
            },
            _ => false,
        },
        Column::Struct(sc) => match v {
            Value::Record(rv) => record_fits(sc, rv),
            _ => false,
        },
        Column::LargeListStruct(sc, _) => match v {
            Value::RecordArray(es) => {
                let ghost em = value_model(*v)->RecordArray_0;
                let mut i: usize = 0;
                while i < es.len()
                    invariant
                        i <= es.len(),
                        em.len() == es@.len(),
                        forall|k: int| 0 <= k < em.len() ==> #[trigger] em[k] == record_model(es@[k]),
                        forall|k: int|
                            0 <= k < i ==> rec_accepts(
                                struct_col_model(*sc).fields,
                                struct_col_model(*sc).children,
                                #[trigger] em[k],
                            ),
                    decreases es.len() - i,
                {
                    if !record_fits(sc, &es[i]) {
                        proof {
                            assert(em[i as int] == record_model(es@[i as int]));
                            if col_accepts(col_model(*c), value_model(*v)) {
                                assert(rec_accepts(
                                    struct_col_model(*sc).fields,
                                    struct_col_model(*sc).children,
                                    em[i as int],
                                ));
                            }
                        }
                        return false;
                    }
                    i = i + 1;
                }
                true
            },
            _ => false,
        },
    }
}

/// Whether a record instance fits a struct column's children: the run-time
/// mirror of [`rec_accepts`].
pub fn record_fits(sc: &StructColumn, rv: &RecordValue) -> (r: bool)
    ensures
        r == rec_accepts(
            struct_col_model(*sc).fields,
            struct_col_model(*sc).children,
            record_model(*rv),
        ),
    decreases *rv, 1int,
{
    let ghost fm = struct_col_model(*sc).fields;
    let ghost cm = struct_col_model(*sc).children;
    let ghost rm = record_model(*rv);
    if sc.children.len() != sc.fields.len() {
        return false;
    }
    let mut i: usize = 0;
    while i < sc.fields.len()
        invariant
            i <= sc.fields.len(),
            sc.children@.len() == sc.fields@.len(),
            forall|k: int| 0 <= k < i ==> child_accepts(#[trigger] cm[k], rm, fm[k].index_path),
        decreases sc.fields.len() - i,
    {
        proof {
            assert(fm[i as int] == desc_model(sc.fields@[i as int]));
            assert(cm[i as int] == col_model(sc.children@[i as int]));
        }
        match resolve_path(rv, &sc.fields[i].index_path) {
            Some(x) => {
                if !value_fits(&sc.children[i], x) {
                    proof {
                        assert(!child_accepts(cm[i as int], rm, fm[i as int].index_path));
                        if rec_accepts(fm, cm, rm) {
                            lemma_rec_accepts_index(fm, cm, rm, i as int);
                        }
                    }
                    return false;
                }
                proof {
                    assert(child_accepts(cm[i as int], rm, fm[i as int].index_path));
                }
            },
            None => {
                proof {
                    assert(!child_accepts(cm[i as int], rm, fm[i as int].index_path));
                    if rec_accepts(fm, cm, rm) {
                        lemma_rec_accepts_index(fm, cm, rm, i as int);
                    }
                }
                return false;
            },
        }
        i = i + 1;
    }
    proof {
        lemma_rec_accepts_intro(fm, cm, rm);
    }
    true
}

/// Whether the column takes a whole record as one value: only a struct
/// column can.
pub fn record_value_fits(c: &Column, rv: &RecordValue) -> (r: bool)
    ensures
        r == col_accepts(col_model(*c), ValueModel::Record(record_model(*rv))),
{
    match c {
        Column::Struct(sc) => record_fits(sc, rv),
        _ => false,
    }
}

/// Appends a whole record as one value to a (struct) column.
pub fn append_record_value(c: Column, rv: &RecordValue) -> (r: Column)
    requires
        col_accepts(col_model(c), ValueModel::Record(record_model(*rv))),
    ensures
        col_model(r) == col_append(col_model(c), ValueModel::Record(record_model(*rv))),
{
    match c {
        Column::Struct(sc) => Column::Struct(append_record(sc, rv)),
        _ => c,
    }
}

/// The stored form of a primitive value: wide integers truncate to 64 bits.
fn store_prim(p: &PrimValue) -> (r: PrimValue)
    ensures
        prim_value_model(r) == narrowed(prim_value_model(*p)),
{
    match p {
        PrimValue::I128(x) => PrimValue::I64(*x as i64),
        PrimValue::ISize(x) => PrimValue::I64(*x as i64),
        PrimValue::U128(x) => PrimValue::U64(*x as u64),
        PrimValue::USize(x) => PrimValue::U64(*x as u64),
        _ => copy_prim(p),
    }
}

/// Appends one accepted value to the column: the run-time mirror of
/// [`col_append`].
pub fn append_value(c: Column, v: &Value) -> (r: Column)
    requires
        col_accepts(col_model(c), value_model(*v)),
    ensures
        col_model(r) == col_append(col_model(c), value_model(*v)),
    decreases *v, 2int,
{
    let ghost cm = col_model(c);
    let ghost vm = value_model(*v);
    match c {
        Column::Scalar(s, mut data) => {
            match v {
                Value::Prim(p) => {
                    let ghost before = data@;
                    data.push(store_prim(p));
                    proof {
                        assert(prims_model(data@) =~= prims_model(before).push(
                            narrowed(prim_value_model(*p)),
                        ));
                    }
                    Column::Scalar(s, data)
                },
                _ => Column::Scalar(s, data),
            }
        },
        Column::Null(mut marks) => {
            match v {
                Value::Prim(PrimValue::Unit) => {
                    marks.push(true);
                    Column::Null(marks)
                },
                _ => Column::Null(marks),
            }
        },
        Column::LargeBinary(mut rows) => {
            match v {
                Value::Array(es) => {
                    let ghost before = rows@;
                    let mut row: Vec<u8> = Vec::new();
                    let mut i: usize = 0;
                    while i < es.len()
                        invariant
                            i <= es.len(),
                            row@ =~= bytes_of(prims_model(es@)).take(i as int),
                        decreases es.len() - i,
                    {
                        proof {
                            assert(prims_model(es@)[i as int] == prim_value_model(es@[i as int]));
                        }
                        match &es[i] {
                            PrimValue::U8(b) => {
                                row.push(*b);
                            },
                            _ => {
                                proof {
                                    assert(false);
                                }
                            },
                        }
                        proof {
                            assert(row@ =~= bytes_of(prims_model(es@)).take(i + 1));
                        }
                        i = i + 1;
                    }
                    rows.push(row);
                    proof {
                        assert(bytes_of(prims_model(es@)).take(es@.len() as int) =~= bytes_of(
                            prims_model(es@),
                        ));
                        assert(rows@.map_values(|r2: Vec<u8>| r2@) =~= before.map_values(
                            |r2: Vec<u8>| r2@,
                        ).push(row@));
                    }
                    Column::LargeBinary(rows)
                },
                _ => Column::LargeBinary(rows),
            }
        },
        Column::LargeList(s, mut rows) => {
            match v {
                Value::Array(es) => {
                    let ghost before = rows@;
                    let mut row: Vec<PrimValue> = Vec::new();
                    let mut i: usize = 0;
                    while i < es.len()
                        invariant
                            i <= es.len(),
                            prims_model(row@) =~= prims_model(es@).map_values(
                                |p: PrimValueModel| narrowed(p),
                            ).take(i as int),
                        decreases es.len() - i,
                    {
                        proof {
                            assert(prims_model(es@)[i as int] == prim_value_model(es@[i as int]));
                        }
                        row.push(store_prim(&es[i]));
                        proof {
                            assert(prims_model(row@) =~= prims_model(es@).map_values(
                                |p: PrimValueModel| narrowed(p),
                            ).take(i + 1));
                        }
                        i = i + 1;
                    }
                    rows.push(row);
                    proof {
                        let mapped = prims_model(es@).map_values(|p: PrimValueModel| narrowed(p));
                        assert(mapped.take(es@.len() as int) =~= mapped);
                        assert(rows@.map_values(|r2: Vec<PrimValue>| prims_model(r2@)) =~= before
                            .map_values(|r2: Vec<PrimValue>| prims_model(r2@)).push(
                            prims_model(row@),
                        ));
                    }
                    Column::LargeList(s, rows)
                },
                _ => Column::LargeList(s, rows),
            }
        },
        Column::Struct(sc) => {
            match v {
                Value::Record(rv) => Column::Struct(append_record(sc, rv)),
                _ => Column::Struct(sc),
            }
        },
        Column::LargeListStruct(sc, mut lens) => {
            match v {
                Value::RecordArray(es) => {
                    let ghost sm0 = struct_col_model(sc);
                    let ghost em = value_model(*v)->RecordArray_0;
                    let mut cur = sc;
                    let mut i: usize = 0;
                    proof {
                        assert(em.skip(0) =~= em);
                    }
                    while i < es.len()
                        invariant
                            i <= es.len(),
                            em.len() == es@.len(),
                            forall|k: int|
                                0 <= k < em.len() ==> #[trigger] em[k] == record_model(es@[k]),
                            forall|k: int|
                                0 <= k < em.len() ==> rec_accepts(
                                    sm0.fields,
                                    sm0.children,
                                    #[trigger] em[k],
                                ),
                            struct_col_model(cur).fields == sm0.fields,
                            forall|k: int|
                                i <= k < em.len() ==> rec_accepts(
                                    struct_col_model(cur).fields,
                                    struct_col_model(cur).children,
                                    #[trigger] em[k],
                                ),
                            elems_append(struct_col_model(cur), em.skip(i as int)) == elems_append(
                                sm0,
                                em,
                            ),
                        decreases es.len() - i,
                    {
                        let ghost cur0 = struct_col_model(cur);
                        cur = append_record(cur, &es[i]);
                        proof {
                            assert(em.skip(i as int)[0] == em[i as int]);
                            assert(em.skip(i as int).drop_first() =~= em.skip(i + 1));
                            assert(struct_col_model(cur) == struct_append(cur0, em[i as int]));
                            assert forall|k: int|
                                i + 1 <= k < em.len() implies rec_accepts(
                                struct_col_model(cur).fields,
                                struct_col_model(cur).children,
                                #[trigger] em[k],
                            ) by {
                                lemma_struct_append_preserves_rec(cur0, em[i as int], em[k]);
                            }
                        }
                        i = i + 1;
                    }
                    proof {
                        assert(em.skip(em.len() as int) =~= Seq::<RecordModel>::empty());
                        assert(elems_append(struct_col_model(cur), em.skip(em.len() as int))
                            == struct_col_model(cur));
                    }
                    let ghost lens0 = lens@;
                    lens.push(es.len());
                    proof {
                        assert(lens@.map_values(|n: usize| n as nat) =~= lens0.map_values(
                            |n: usize| n as nat,
                        ).push(es@.len() as nat));
                    }
                    Column::LargeListStruct(cur, lens)
                },
                _ => Column::LargeListStruct(sc, lens),
            }
        },
    }
}

/// The struct sub-appender: appends one record into a struct column's
/// children — each child receives the value resolved at its field's index
/// path — then appends the completion marker. Used for the whole-record
/// column, for nested record children at any depth, and for each element of
/// a list-of-struct field.
pub fn append_record(sc: StructColumn, rv: &RecordValue) -> (r: StructColumn)
    requires
        rec_accepts(struct_col_model(sc).fields, struct_col_model(sc).children, record_model(*rv)),
    ensures
        struct_col_model(r) == struct_append(struct_col_model(sc), record_model(*rv)),
    decreases *rv, 1int,
{
    let ghost sm = struct_col_model(sc);
    let ghost rm = record_model(*rv);
    let StructColumn { fields, mut children, mut valid } = sc;
    let ghost children0 = children@;
    let mut i: usize = 0;
    while i < children.len()
        invariant
            i <= children.len(),
            children@.len() == children0.len(),
            fields@.len() == sm.fields.len(),
            children0.len() == sm.children.len(),
            sm.fields == schema_model(fields@),
            forall|k: int|
                0 <= k < children0.len() ==> #[trigger] col_model(children0[k]) == sm.children[k],
            rec_accepts(sm.fields, sm.children, rm),
            forall|k: int|
                0 <= k < i ==> #[trigger] col_model(children@[k]) == child_append(
                    sm.children[k],
                    rm,
                    sm.fields[k].index_path,
                ),
            forall|k: int| i <= k < children0.len() ==> #[trigger] children@[k] == children0[k],
        decreases children.len() - i,
    {
        proof {
            assert(sm.fields[i as int] == desc_model(fields@[i as int]));
            assert(col_model(children@[i as int]) == sm.children[i as int]);
        }
        match resolve_path(rv, &fields[i].index_path) {
            Some(x) => {
                proof {
                    lemma_rec_accepts_index(sm.fields, sm.children, rm, i as int);
                }
                let mut tmp = Column::Null(Vec::new());
                children.set_and_swap(i, &mut tmp);
                tmp = append_value(tmp, x);
                children.set_and_swap(i, &mut tmp);
                proof {
                    assert(col_model(children@[i as int]) == col_append(
                        sm.children[i as int],
                        rec_extract(rm, sm.fields[i as int].index_path)->0,
                    ));
                    assert(col_model(children@[i as int]) == child_append(
                        sm.children[i as int],
                        rm,
                        sm.fields[i as int].index_path,
                    ));
                }
            },
            None => {
                proof {
                    assert(col_model(children@[i as int]) == child_append(
                        sm.children[i as int],
                        rm,
                        sm.fields[i as int].index_path,
                    ));
                }
            },
        }
        i = i + 1;
    }
    valid.push(true);
    let r = StructColumn { fields, children, valid };
    proof {
        assert forall|k: int| 0 <= k < children@.len() implies struct_col_model(r).children[k]
            == child_append(sm.children[k], rm, sm.fields[k].index_path) by {
            assert(struct_col_model(r).children[k] == col_model(children@[k]));
        }
        assert(struct_col_model(r).children =~= struct_append(sm, rm).children);
        assert(struct_col_model(r).valid =~= struct_append(sm, rm).valid);
        assert(struct_col_model(r) =~= struct_append(sm, rm));
    }
    r
}

} // verus!
