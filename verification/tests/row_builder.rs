use r2a::builder::{
    AppendError, DeserializeError, Deserializer, ProjectionError, RawRowError, RowBuilder,
};
use r2a::column::{Column, column_len, column_null_count};
use r2a::schema::{ColumnType, ScalarType, SchemaMode, compile};
use r2a::types::{FieldDef, FieldType, PrimType, RecordTypeDef, TypeRegistry};
use r2a::value::{PrimValue, RecordValue, Value};

fn header_registry() -> (TypeRegistry, usize, usize) {
    let mut reg = TypeRegistry::new();
    let time = RecordTypeDef {
        schema_id: "builtin_interfaces/msg/Time".to_string(),
        fields: vec![
            FieldDef { name: "sec".to_string(), ty: FieldType::Prim(PrimType::I32) },
            FieldDef { name: "nanosec".to_string(), ty: FieldType::Prim(PrimType::U32) },
        ],
    };
    let time_id = reg.add_type(time).unwrap();
    let header = RecordTypeDef {
        schema_id: "std_msgs/msg/Header".to_string(),
        fields: vec![
            FieldDef { name: "stamp".to_string(), ty: FieldType::Record(time_id) },
            FieldDef { name: "frame_id".to_string(), ty: FieldType::Prim(PrimType::Str) },
        ],
    };
    let header_id = reg.add_type(header).unwrap();
    (reg, time_id, header_id)
}

fn header_value(sec: i32, nanosec: u32) -> RecordValue {
    RecordValue {
        fields: vec![
            Value::Record(RecordValue {
                fields: vec![
                    Value::Prim(PrimValue::I32(sec)),
                    Value::Prim(PrimValue::U32(nanosec)),
                ],
            }),
            Value::Prim(PrimValue::Str("test_frame".to_string())),
        ],
    }
}

fn proj(names: &[&str]) -> Vec<String> {
    names.iter().map(|s| s.to_string()).collect()
}

#[test]
fn test_append_and_to_array() {
    let (reg, _, header_id) = header_registry();
    let schema = compile(&reg, header_id, SchemaMode::Nested, true);
    let mut row_builder = RowBuilder::new(&schema, &proj(&["stamp"]), true).unwrap();
    for _ in 0..100 {
        let msg = header_value(0, 0);
        assert!(row_builder.add_row(&msg).is_ok());
    }
    let arrays = row_builder.to_columns();
    assert_eq!(arrays.len(), 1);
    assert_eq!(column_len(&arrays[0]), 100);
    assert_eq!(column_null_count(&arrays[0]), 0);
    let is_correct_struct = match &arrays[0] {
        Column::Struct(sc) => {
            sc.fields.len() == 2
                && sc.fields[0].name == "sec"
                && sc.fields[0].column_type == ColumnType::Scalar(ScalarType::Int32)
                && sc.fields[1].name == "nanosec"
                && sc.fields[1].column_type == ColumnType::Scalar(ScalarType::UInt32)
        }
        _ => false,
    };
    assert!(is_correct_struct);
}

#[test]
fn test_append_and_to_array_flat() {
    let (reg, _, header_id) = header_registry();
    let schema = compile(&reg, header_id, SchemaMode::Flattened, true);
    let mut row_builder =
        RowBuilder::new(&schema, &proj(&["stamp_sec", "message_struct"]), true).unwrap();
    for _ in 0..100 {
        let msg = header_value(0, 0);
        assert!(row_builder.add_row(&msg).is_ok());
    }
    let arrays = row_builder.to_columns();
    assert_eq!(arrays.len(), 2);
    assert_eq!(column_len(&arrays[0]), 100);
    assert_eq!(column_null_count(&arrays[0]), 0);
    assert!(matches!(&arrays[0], Column::Scalar(ScalarType::Int32, _)));
    let is_correct_struct = match &arrays[1] {
        Column::Struct(sc) => {
            assert_eq!(sc.fields[0].name, "stamp");
            match &sc.fields[0].column_type {
                ColumnType::Struct(kids) => {
                    kids.len() == 2
                        && kids[0].name == "sec"
                        && kids[0].column_type == ColumnType::Scalar(ScalarType::Int32)
                        && kids[1].name == "nanosec"
                        && kids[1].column_type == ColumnType::Scalar(ScalarType::UInt32)
                }
                _ => false,
            }
        }
        _ => false,
    };
    assert!(is_correct_struct);
}

#[test]
fn hundred_headers_nested_stamp_projection() {
    // 100 headers with sec incrementing, projected to the stamp struct only.
    let (reg, _, header_id) = header_registry();
    let schema = compile(&reg, header_id, SchemaMode::Nested, false);
    let mut b = RowBuilder::new(&schema, &proj(&["stamp"]), true).unwrap();
    for sec in 0..100 {
        b.add_row(&header_value(sec, 0)).unwrap();
    }
    let arrays = b.to_columns();
    assert_eq!(arrays.len(), 1);
    assert_eq!(column_len(&arrays[0]), 100);
    assert_eq!(column_null_count(&arrays[0]), 0);
    match &arrays[0] {
        Column::Struct(sc) => {
            assert_eq!(sc.valid.len(), 100);
            assert!(sc.valid.iter().all(|v| *v));
            match &sc.children[0] {
                Column::Scalar(ScalarType::Int32, data) => {
                    let expected: Vec<PrimValue> = (0..100).map(PrimValue::I32).collect();
                    assert_eq!(data, &expected);
                }
                other => panic!("sec child should be an Int32 column, got {:?}", other),
            }
        }
        other => panic!("stamp should be a struct column, got {:?}", other),
    }
}

#[test]
fn hundred_headers_flat_with_whole_record() {
    // The same headers through a flattened builder projected to
    // [stamp_sec, message_struct]: an Int32 column 0..99 and a struct column
    // whose stamp child matches the nested compilation.
    let (reg, _, header_id) = header_registry();
    let schema = compile(&reg, header_id, SchemaMode::Flattened, true);
    let mut b = RowBuilder::new(&schema, &proj(&["stamp_sec", "message_struct"]), true).unwrap();
    for sec in 0..100 {
        b.add_row(&header_value(sec, 0)).unwrap();
    }
    let arrays = b.to_columns();
    assert_eq!(arrays.len(), 2);
    match &arrays[0] {
        Column::Scalar(ScalarType::Int32, data) => {
            let expected: Vec<PrimValue> = (0..100).map(PrimValue::I32).collect();
            assert_eq!(data, &expected);
        }
        other => panic!("stamp_sec should be an Int32 column, got {:?}", other),
    }
    match &arrays[1] {
        Column::Struct(sc) => {
            assert_eq!(sc.valid.len(), 100);
            match &sc.children[0] {
                Column::Struct(stamp) => {
                    assert_eq!(stamp.valid.len(), 100);
                    assert_eq!(stamp.fields.len(), 2);
                    match &stamp.children[0] {
                        Column::Scalar(ScalarType::Int32, data) => {
                            assert_eq!(data[99], PrimValue::I32(99));
                        }
                        other => panic!("sec child mismatch: {:?}", other),
                    }
                }
                other => panic!("stamp child should be a struct column, got {:?}", other),
            }
        }
        other => panic!("message_struct should be a struct column, got {:?}", other),
    }
}

#[test]
fn projection_order_is_kept() {
    let (reg, _, header_id) = header_registry();
    let schema = compile(&reg, header_id, SchemaMode::Flattened, false);
    // Reversed, partial projection: output follows the projection, not the
    // schema, and omitted fields never appear.
    let mut b = RowBuilder::new(&schema, &proj(&["frame_id", "stamp_sec"]), true).unwrap();
    b.add_row(&header_value(7, 8)).unwrap();
    let arrays = b.to_columns();
    assert_eq!(arrays.len(), 2);
    assert_eq!(
        arrays[0],
        Column::Scalar(ScalarType::Utf8, vec![PrimValue::Str("test_frame".to_string())])
    );
    assert_eq!(arrays[1], Column::Scalar(ScalarType::Int32, vec![PrimValue::I32(7)]));
}

#[test]
fn strict_projection_rejects_unknown_field() {
    let (reg, _, header_id) = header_registry();
    let schema = compile(&reg, header_id, SchemaMode::Nested, false);
    let r = RowBuilder::new(&schema, &proj(&["stamp", "bogus"]), true);
    assert_eq!(r.unwrap_err(), ProjectionError { position: 1 });
}

#[test]
fn lenient_projection_skips_unknown_field() {
    let (reg, _, header_id) = header_registry();
    let schema = compile(&reg, header_id, SchemaMode::Nested, false);
    let mut b = RowBuilder::new(&schema, &proj(&["bogus", "frame_id"]), false).unwrap();
    b.add_row(&header_value(1, 2)).unwrap();
    let arrays = b.to_columns();
    assert_eq!(arrays.len(), 1);
    assert!(matches!(&arrays[0], Column::Scalar(ScalarType::Utf8, _)));
}

#[test]
fn mismatched_value_fails_with_partial_row() {
    let (reg, _, header_id) = header_registry();
    let schema = compile(&reg, header_id, SchemaMode::Flattened, false);
    let mut b =
        RowBuilder::new(&schema, &proj(&["stamp_sec", "stamp_nanosec", "frame_id"]), true)
            .unwrap();
    // nanosec carries a string: the second column refuses it.
    let bad = RecordValue {
        fields: vec![
            Value::Record(RecordValue {
                fields: vec![
                    Value::Prim(PrimValue::I32(1)),
                    Value::Prim(PrimValue::Str("oops".to_string())),
                ],
            }),
            Value::Prim(PrimValue::Str("f".to_string())),
        ],
    };
    assert_eq!(b.add_row(&bad), Err(AppendError { slot: 1 }));
    // Partial row state: the first column kept the appended value, the
    // failing one and the one after it are unchanged.
    let arrays = b.to_columns();
    assert_eq!(column_len(&arrays[0]), 1);
    assert_eq!(column_len(&arrays[1]), 0);
    assert_eq!(column_len(&arrays[2]), 0);
}

#[test]
fn record_missing_field_fails() {
    let (reg, _, header_id) = header_registry();
    let schema = compile(&reg, header_id, SchemaMode::Nested, false);
    let mut b = RowBuilder::new(&schema, &proj(&["frame_id"]), true).unwrap();
    let short = RecordValue { fields: vec![] };
    assert_eq!(b.add_row(&short), Err(AppendError { slot: 0 }));
    assert_eq!(column_len(&b.to_columns()[0]), 0);
}

#[test]
fn builder_is_reusable_after_finalize() {
    let (reg, _, header_id) = header_registry();
    let schema = compile(&reg, header_id, SchemaMode::Nested, false);
    let mut b = RowBuilder::new(&schema, &proj(&["frame_id"]), true).unwrap();
    b.add_row(&header_value(0, 0)).unwrap();
    b.add_row(&header_value(1, 0)).unwrap();
    let first = b.to_columns();
    assert_eq!(column_len(&first[0]), 2);
    b.add_row(&header_value(2, 0)).unwrap();
    let second = b.to_columns();
    assert_eq!(column_len(&second[0]), 1);
}

#[test]
fn default_valued_struct_rows_are_not_null() {
    // Struct completeness: all-default nested records still get the
    // completion marker, so no struct row is null.
    let (reg, _, header_id) = header_registry();
    let schema = compile(&reg, header_id, SchemaMode::Nested, false);
    let mut b = RowBuilder::new(&schema, &proj(&["stamp"]), true).unwrap();
    let default_header = RecordValue {
        fields: vec![
            Value::Record(RecordValue {
                fields: vec![Value::Prim(PrimValue::I32(0)), Value::Prim(PrimValue::U32(0))],
            }),
            Value::Prim(PrimValue::Str(String::new())),
        ],
    };
    b.add_row(&default_header).unwrap();
    let arrays = b.to_columns();
    assert_eq!(column_len(&arrays[0]), 1);
    assert_eq!(column_null_count(&arrays[0]), 0);
    match &arrays[0] {
        Column::Struct(sc) => assert_eq!(sc.valid, vec![true]),
        other => panic!("expected a struct column, got {:?}", other),
    }
}

fn sensor_registry() -> (TypeRegistry, usize) {
    let mut reg = TypeRegistry::new();
    let sample = RecordTypeDef {
        schema_id: "pkg/msg/Sample".to_string(),
        fields: vec![FieldDef { name: "v".to_string(), ty: FieldType::Prim(PrimType::I64) }],
    };
    let sample_id = reg.add_type(sample).unwrap();
    let scan = RecordTypeDef {
        schema_id: "pkg/msg/Scan".to_string(),
        fields: vec![
            FieldDef { name: "blob".to_string(), ty: FieldType::Array(PrimType::U8) },
            FieldDef { name: "ranges".to_string(), ty: FieldType::Array(PrimType::F32) },
            FieldDef { name: "samples".to_string(), ty: FieldType::RecordArray(sample_id) },
            FieldDef { name: "mark".to_string(), ty: FieldType::Prim(PrimType::Unit) },
            FieldDef { name: "big".to_string(), ty: FieldType::Prim(PrimType::I128) },
        ],
    };
    let scan_id = reg.add_type(scan).unwrap();
    (reg, scan_id)
}

fn scan_value(bytes: Vec<u8>, ranges: Vec<f32>, samples: Vec<i64>, big: i128) -> RecordValue {
    RecordValue {
        fields: vec![
            Value::Array(bytes.into_iter().map(PrimValue::U8).collect()),
            Value::Array(ranges.into_iter().map(|f| PrimValue::F32Bits(f.to_bits())).collect()),
            Value::RecordArray(
                samples
                    .into_iter()
                    .map(|v| RecordValue { fields: vec![Value::Prim(PrimValue::I64(v))] })
                    .collect(),
            ),
            Value::Prim(PrimValue::Unit),
            Value::Prim(PrimValue::I128(big)),
        ],
    }
}

#[test]
fn byte_blobs_lists_and_struct_arrays_accumulate() {
    let (reg, scan_id) = sensor_registry();
    let schema = compile(&reg, scan_id, SchemaMode::Nested, false);
    let projection = proj(&["blob", "ranges", "samples", "mark", "big"]);
    let mut b = RowBuilder::new(&schema, &projection, true).unwrap();
    b.add_row(&scan_value(vec![1, 2, 3], vec![0.5, 1.5], vec![10, 20], 5)).unwrap();
    b.add_row(&scan_value(vec![], vec![2.5], vec![30], -6)).unwrap();
    let arrays = b.to_columns();
    assert_eq!(arrays.len(), 5);
    assert_eq!(arrays[0], Column::LargeBinary(vec![vec![1, 2, 3], vec![]]));
    match &arrays[1] {
        Column::LargeList(ScalarType::Float32, rows) => {
            assert_eq!(rows.len(), 2);
            assert_eq!(
                rows[0],
                vec![PrimValue::F32Bits(0.5f32.to_bits()), PrimValue::F32Bits(1.5f32.to_bits())]
            );
        }
        other => panic!("ranges should be a float list column, got {:?}", other),
    }
    match &arrays[2] {
        Column::LargeListStruct(sc, lens) => {
            assert_eq!(lens, &vec![2, 1]);
            assert_eq!(sc.valid.len(), 3);
            assert_eq!(
                sc.children[0],
                Column::Scalar(
                    ScalarType::Int64,
                    vec![PrimValue::I64(10), PrimValue::I64(20), PrimValue::I64(30)],
                )
            );
        }
        other => panic!("samples should be a list-of-struct column, got {:?}", other),
    }
    // The unit column holds only nulls.
    assert_eq!(column_len(&arrays[3]), 2);
    assert_eq!(column_null_count(&arrays[3]), 2);
    // The 128-bit value narrowed into the 64-bit column.
    assert_eq!(
        arrays[4],
        Column::Scalar(ScalarType::Int64, vec![PrimValue::I64(5), PrimValue::I64(-6)])
    );
}

struct SecDecoder;

impl Deserializer for SecDecoder {
    fn deserialize(&self, bytes: &[u8]) -> Result<RecordValue, DeserializeError> {
        match bytes.first() {
            Some(sec) => Ok(header_value(*sec as i32, 0)),
            None => Err(DeserializeError { message: "empty buffer".to_string() }),
        }
    }
}

#[test]
fn raw_rows_deserialize_then_append() {
    let (reg, _, header_id) = header_registry();
    let schema = compile(&reg, header_id, SchemaMode::Flattened, false);
    let mut b = RowBuilder::new(&schema, &proj(&["stamp_sec"]), true).unwrap();
    b.add_raw_row(&SecDecoder, &[5]).unwrap();
    b.add_raw_row(&SecDecoder, &[9]).unwrap();
    // A deserialization failure mutates no builder state.
    assert!(matches!(b.add_raw_row(&SecDecoder, &[]), Err(RawRowError::Deserialize(_))));
    let arrays = b.to_columns();
    assert_eq!(
        arrays[0],
        Column::Scalar(ScalarType::Int32, vec![PrimValue::I32(5), PrimValue::I32(9)])
    );
}

#[test]
fn narrowing_truncates_like_a_cast() {
    let (reg, scan_id) = sensor_registry();
    let schema = compile(&reg, scan_id, SchemaMode::Nested, false);
    let mut b = RowBuilder::new(&schema, &proj(&["big"]), true).unwrap();
    let wide: i128 = (1i128 << 100) + 42;
    b.add_row(&scan_value(vec![], vec![], vec![], wide)).unwrap();
    let arrays = b.to_columns();
    assert_eq!(arrays[0], Column::Scalar(ScalarType::Int64, vec![PrimValue::I64(wide as i64)]));
}
