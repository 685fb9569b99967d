//! Record instance values.
//!
//! Values are dynamically typed trees: a record instance carries its field
//! values in declaration order, and the row builder checks each value
//! against the column it is appended to. Floating-point fields carry their
//! IEEE-754 bit patterns, so the value model stays within the integers.

use vstd::prelude::*;

verus! {

/// A primitive (leaf) value.
#[derive(Debug, PartialEq, Eq)]
pub enum PrimValue {
    Bool(bool),
    Str(String),
    Unit,
    I8(i8),
    I16(i16),
    I32(i32),
    I64(i64),
    I128(i128),
    ISize(isize),
    U8(u8),
    U16(u16),
    U32(u32),
    U64(u64),
    U128(u128),
    USize(usize),
    /// Bit pattern of a 32-bit IEEE-754 value.
    F32Bits(u32),
    /// Bit pattern of a 64-bit IEEE-754 value.
    F64Bits(u64),
}

/// One field value of a record instance.
#[derive(Debug, PartialEq, Eq)]
pub enum Value {
    Prim(PrimValue),
    /// A homogeneous array of primitive values.
    Array(Vec<PrimValue>),
    /// A nested record.
    Record(RecordValue),
    /// An array of nested records.
    RecordArray(Vec<RecordValue>),
}

/// A record instance: its field values in declaration order.
#[derive(Debug, PartialEq, Eq)]
pub struct RecordValue {
    pub fields: Vec<Value>,
}

/// Mathematical model of a [`PrimValue`].
#[verifier::ext_equal]
pub ghost enum PrimValueModel {
    Bool(bool),
    Str(Seq<char>),
    Unit,
    I8(i8),
    I16(i16),
    I32(i32),
    I64(i64),
    I128(i128),
    ISize(isize),
    U8(u8),
    U16(u16),
    U32(u32),
    U64(u64),
    U128(u128),
    USize(usize),
    F32Bits(u32),
    F64Bits(u64),
}

/// Mathematical model of a [`Value`].
#[verifier::ext_equal]
pub ghost enum ValueModel {
    Prim(PrimValueModel),
    Array(Seq<PrimValueModel>),
    Record(RecordModel),
    RecordArray(Seq<RecordModel>),
}

/// Mathematical model of a [`RecordValue`].
#[verifier::ext_equal]
pub ghost struct RecordModel {
    pub fields: Seq<ValueModel>,
}

pub open spec fn prim_value_model(p: PrimValue) -> PrimValueModel {
    match p {
        PrimValue::Bool(x) => PrimValueModel::Bool(x),
        PrimValue::Str(x) => PrimValueModel::Str(x@),
        PrimValue::Unit => PrimValueModel::Unit,
        PrimValue::I8(x) => PrimValueModel::I8(x),
        PrimValue::I16(x) => PrimValueModel::I16(x),
        PrimValue::I32(x) => PrimValueModel::I32(x),
        PrimValue::I64(x) => PrimValueModel::I64(x),
        PrimValue::I128(x) => PrimValueModel::I128(x),
        PrimValue::ISize(x) => PrimValueModel::ISize(x),
        PrimValue::U8(x) => PrimValueModel::U8(x),
        PrimValue::U16(x) => PrimValueModel::U16(x),
        PrimValue::U32(x) => PrimValueModel::U32(x),
        PrimValue::U64(x) => PrimValueModel::U64(x),
        PrimValue::U128(x) => PrimValueModel::U128(x),
        PrimValue::USize(x) => PrimValueModel::USize(x),
        PrimValue::F32Bits(x) => PrimValueModel::F32Bits(x),
        PrimValue::F64Bits(x) => PrimValueModel::F64Bits(x),
    }
}

pub open spec fn prims_model(s: Seq<PrimValue>) -> Seq<PrimValueModel> {
    s.map_values(|p: PrimValue| prim_value_model(p))
}

pub open spec fn value_model(v: Value) -> ValueModel
    decreases v,
{
    match v {
        Value::Prim(p) => ValueModel::Prim(prim_value_model(p)),
        Value::Array(es) => ValueModel::Array(prims_model(es@)),
        Value::Record(rv) => ValueModel::Record(record_model(rv)),
        Value::RecordArray(es) => ValueModel::RecordArray(
            Seq::new(
                es@.len(),
                |i: int|
                    if 0 <= i < es@.len() {
                        record_model(es@[i])
                    } else {
                        arbitrary()
                    },
            ),
        ),
    }
}

pub open spec fn record_model(rv: RecordValue) -> RecordModel
    decreases rv,
{
    RecordModel {
        fields: Seq::new(
            rv.fields@.len(),
            |i: int|
                if 0 <= i < rv.fields@.len() {
                    value_model(rv.fields@[i])
                } else {
                    arbitrary()
                },
        ),
    }
}

/// Navigates a value along a positional path: each step descends into a
/// record's field at the given position. `None` when a step hits a
/// non-record value or an out-of-range position.
pub open spec fn extract_value(v: ValueModel, path: Seq<usize>) -> Option<ValueModel>
    decreases path.len(),
{
    if path.len() == 0 {
        Some(v)
    } else {
        match v {
            ValueModel::Record(rv) => if (path[0] as int) < rv.fields.len() {
                extract_value(rv.fields[path[0] as int], path.drop_first())
            } else {
                None
            },
            _ => None,
        }
    }
}

/// Navigates a record along a non-empty positional path; the empty path
/// names no value.
pub open spec fn rec_extract(rv: RecordModel, path: Seq<usize>) -> Option<ValueModel> {
    if path.len() == 0 {
        None
    } else if (path[0] as int) < rv.fields.len() {
        extract_value(rv.fields[path[0] as int], path.drop_first())
    } else {
        None
    }
}

/// A value extracted along a non-empty path sits strictly below the value
/// it was extracted from.
pub proof fn lemma_extract_decreases(v: ValueModel, path: Seq<usize>)
    requires
        path.len() > 0,
        extract_value(v, path) is Some,
    ensures
        decreases_to!(v => extract_value(v, path)->0),
    decreases path.len(),
{
    let rv = v->Record_0;
    let x0 = rv.fields[path[0] as int];
    assert(decreases_to!(v => x0));
    if path.len() > 1 {
        lemma_extract_decreases(x0, path.drop_first());
    }
}

/// A value extracted from a record sits strictly below the record.
pub proof fn lemma_rec_extract_decreases(rv: RecordModel, path: Seq<usize>)
    requires
        rec_extract(rv, path) is Some,
    ensures
        decreases_to!(rv => rec_extract(rv, path)->0),
{
    let x0 = rv.fields[path[0] as int];
    assert(decreases_to!(rv => x0));
    if path.len() > 1 {
        lemma_extract_decreases(x0, path.drop_first());
    }
}

/// A copy of a primitive value with the same model.
pub fn copy_prim(p: &PrimValue) -> (r: PrimValue)
    ensures
        prim_value_model(r) == prim_value_model(*p),
{
    match p {
        PrimValue::Bool(x) => PrimValue::Bool(*x),
        PrimValue::Str(x) => PrimValue::Str(x.clone()),
        PrimValue::Unit => PrimValue::Unit,
        PrimValue::I8(x) => PrimValue::I8(*x),
        PrimValue::I16(x) => PrimValue::I16(*x),
        PrimValue::I32(x) => PrimValue::I32(*x),
        PrimValue::I64(x) => PrimValue::I64(*x),
        PrimValue::I128(x) => PrimValue::I128(*x),
        PrimValue::ISize(x) => PrimValue::ISize(*x),
        PrimValue::U8(x) => PrimValue::U8(*x),
        PrimValue::U16(x) => PrimValue::U16(*x),
        PrimValue::U32(x) => PrimValue::U32(*x),
        PrimValue::U64(x) => PrimValue::U64(*x),
        PrimValue::U128(x) => PrimValue::U128(*x),
        PrimValue::USize(x) => PrimValue::USize(*x),
        PrimValue::F32Bits(x) => PrimValue::F32Bits(*x),
        PrimValue::F64Bits(x) => PrimValue::F64Bits(*x),
    }
}

/// Resolves `path` from position `from` on within `v`; returns the value
/// reached, which sits at or strictly below `v`.
fn resolve_in_value<'a>(v: &'a Value, path: &Vec<usize>, from: usize) -> (r: Option<&'a Value>)
    requires
        from <= path@.len(),
    ensures
        match r {
            Some(x) => {
                &&& extract_value(value_model(*v), path@.skip(from as int)) == Some(
                    value_model(*x),
                )
                &&& (from < path@.len() ==> decreases_to!(*v => *x))
                &&& (from == path@.len() ==> x == v)
            },
            None => extract_value(value_model(*v), path@.skip(from as int)) is None,
        },
    decreases path@.len() - from,
{
    proof {
        assert(path@.skip(from as int).len() == path@.len() - from);
    }
    if from == path.len() {
        Some(v)
    } else {
        match v {
            Value::Record(rv) => {
                let idx = path[from];
                proof {
                    assert(path@.skip(from as int)[0] == path@[from as int]);
                }
                if idx < rv.fields.len() {
                    let next = &rv.fields[idx];
                    let r = resolve_in_value(next, path, from + 1);
                    proof {
                        assert(record_model(*rv).fields[idx as int] == value_model(*next));
                        assert(path@.skip(from as int).drop_first() =~= path@.skip(from + 1));
                        assert(decreases_to!(*v => *next));
                    }
                    r
                } else {
                    proof {
                        assert(record_model(*rv).fields.len() == rv.fields@.len());
                    }
                    None
                }
            },
            _ => None,
        }
    }
}

/// Resolves a non-empty positional path within a record instance; the empty
/// path resolves to nothing.
pub fn resolve_path<'a>(rv: &'a RecordValue, path: &Vec<usize>) -> (r: Option<&'a Value>)
    ensures
        match r {
            Some(x) => {
                &&& rec_extract(record_model(*rv), path@) == Some(value_model(*x))
                &&& decreases_to!(*rv => *x)
            },
            None => rec_extract(record_model(*rv), path@) is None,
        },
{
    if path.len() == 0 {
        None
    } else {
        let idx = path[0];
        if idx < rv.fields.len() {
            let first = &rv.fields[idx];
            proof {
                assert(record_model(*rv).fields[idx as int] == value_model(*first));
                assert(path@.drop_first() =~= path@.skip(1));
                assert(decreases_to!(*rv => *first));
            }
            resolve_in_value(first, path, 1)
        } else {
            proof {
                assert(record_model(*rv).fields.len() == rv.fields@.len());
            }
            None
        }
    }
}

} // verus!
