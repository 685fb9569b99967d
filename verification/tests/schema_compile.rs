use r2a::schema::{
    ColumnType, CompileError, FieldDescriptor, ScalarType, SchemaMode, compile, compile_by_id,
    map_array_type, map_prim_type, map_scalar,
};
use r2a::types::{FieldDef, FieldType, PrimType, RecordTypeDef, RegistryError, TypeRegistry};

fn time_def() -> RecordTypeDef {
    RecordTypeDef {
        schema_id: "builtin_interfaces/msg/Time".to_string(),
        fields: vec![
            FieldDef { name: "sec".to_string(), ty: FieldType::Prim(PrimType::I32) },
            FieldDef { name: "nanosec".to_string(), ty: FieldType::Prim(PrimType::U32) },
        ],
    }
}

fn header_def(time_id: usize) -> RecordTypeDef {
    RecordTypeDef {
        schema_id: "std_msgs/msg/Header".to_string(),
        fields: vec![
            FieldDef { name: "stamp".to_string(), ty: FieldType::Record(time_id) },
            FieldDef { name: "frame_id".to_string(), ty: FieldType::Prim(PrimType::Str) },
        ],
    }
}

fn header_registry() -> (TypeRegistry, usize, usize) {
    let mut reg = TypeRegistry::new();
    let time_id = reg.add_type(time_def()).unwrap();
    let header_id = reg.add_type(header_def(time_id)).unwrap();
    (reg, time_id, header_id)
}

fn names(schema: &[FieldDescriptor]) -> Vec<&str> {
    schema.iter().map(|d| d.name.as_str()).collect()
}

#[test]
fn header_nested_schema_shape() {
    let (reg, _, header_id) = header_registry();
    let schema = compile(&reg, header_id, SchemaMode::Nested, false);
    assert_eq!(schema.len(), 2);
    assert_eq!(names(&schema), vec!["stamp", "frame_id"]);
    assert!(schema.iter().all(|d| d.nullable));
    match &schema[0].column_type {
        ColumnType::Struct(kids) => {
            assert_eq!(kids.len(), 2);
            assert_eq!(kids[0].name, "sec");
            assert_eq!(kids[0].column_type, ColumnType::Scalar(ScalarType::Int32));
            assert_eq!(kids[1].name, "nanosec");
            assert_eq!(kids[1].column_type, ColumnType::Scalar(ScalarType::UInt32));
        }
        other => panic!("stamp should be a struct column, got {:?}", other),
    }
    assert_eq!(schema[1].column_type, ColumnType::Scalar(ScalarType::Utf8));
}

#[test]
fn header_flattened_schema_shape() {
    let (reg, _, header_id) = header_registry();
    let schema = compile(&reg, header_id, SchemaMode::Flattened, false);
    assert_eq!(schema.len(), 3);
    assert_eq!(names(&schema), vec!["stamp_sec", "stamp_nanosec", "frame_id"]);
    assert_eq!(schema[0].column_type, ColumnType::Scalar(ScalarType::Int32));
    assert_eq!(schema[1].column_type, ColumnType::Scalar(ScalarType::UInt32));
    assert_eq!(schema[2].column_type, ColumnType::Scalar(ScalarType::Utf8));
    assert_eq!(schema[0].logical_path, "stamp.sec");
    assert_eq!(schema[0].index_path, vec![0, 0]);
    assert_eq!(schema[1].index_path, vec![0, 1]);
    assert_eq!(schema[2].index_path, vec![1]);
}

#[test]
fn whole_record_column_is_nested_compilation() {
    let (reg, _, header_id) = header_registry();
    let nested = compile(&reg, header_id, SchemaMode::Nested, false);
    let flat = compile(&reg, header_id, SchemaMode::Flattened, true);
    assert_eq!(flat.len(), 4);
    let last = &flat[3];
    assert_eq!(last.name, "message_struct");
    assert!(last.index_path.is_empty());
    match &last.column_type {
        ColumnType::Struct(kids) => assert_eq!(kids, &nested),
        other => panic!("message_struct should be a struct column, got {:?}", other),
    }
}

#[test]
fn compile_is_deterministic() {
    let (reg, _, header_id) = header_registry();
    for mode in [SchemaMode::Nested, SchemaMode::Flattened] {
        for whole in [false, true] {
            let a = compile(&reg, header_id, mode, whole);
            let b = compile(&reg, header_id, mode, whole);
            assert_eq!(a, b);
        }
    }
}

#[test]
fn nested_count_matches_declared_fields() {
    let mut reg = TypeRegistry::new();
    let time_id = reg.add_type(time_def()).unwrap();
    let wide = RecordTypeDef {
        schema_id: "pkg/msg/Wide".to_string(),
        fields: vec![
            FieldDef { name: "a".to_string(), ty: FieldType::Prim(PrimType::Bool) },
            FieldDef { name: "b".to_string(), ty: FieldType::Record(time_id) },
            FieldDef { name: "c".to_string(), ty: FieldType::RecordArray(time_id) },
            FieldDef { name: "d".to_string(), ty: FieldType::Array(PrimType::F32) },
            FieldDef { name: "e".to_string(), ty: FieldType::Array(PrimType::U8) },
        ],
    };
    let wide_id = reg.add_type(wide).unwrap();
    let nested = compile(&reg, wide_id, SchemaMode::Nested, false);
    assert_eq!(nested.len(), 5);
    // flattened: a=1, b=2 (spliced Time), c=1 (array boundary), d=1, e=1
    let flat = compile(&reg, wide_id, SchemaMode::Flattened, false);
    assert_eq!(flat.len(), 6);
    assert_eq!(names(&flat), vec!["a", "b_sec", "b_nanosec", "c", "d", "e"]);
}

#[test]
fn array_of_records_stays_listed_in_both_modes() {
    let mut reg = TypeRegistry::new();
    let time_id = reg.add_type(time_def()).unwrap();
    let track = RecordTypeDef {
        schema_id: "pkg/msg/Track".to_string(),
        fields: vec![
            FieldDef { name: "points".to_string(), ty: FieldType::RecordArray(time_id) },
        ],
    };
    let track_id = reg.add_type(track).unwrap();
    for mode in [SchemaMode::Nested, SchemaMode::Flattened] {
        let schema = compile(&reg, track_id, mode, false);
        assert_eq!(schema.len(), 1);
        match &schema[0].column_type {
            ColumnType::LargeListStruct(kids) => assert_eq!(kids.len(), 2),
            other => panic!("points should be a list of structs, got {:?}", other),
        }
    }
}

#[test]
fn byte_blob_is_large_binary_not_integer_list() {
    assert_eq!(map_array_type(PrimType::U8), ColumnType::LargeBinary);
    assert_eq!(map_array_type(PrimType::U16), ColumnType::LargeList(ScalarType::UInt16));
    assert_eq!(map_array_type(PrimType::I8), ColumnType::LargeList(ScalarType::Int8));
    assert_ne!(map_array_type(PrimType::U8), ColumnType::LargeList(ScalarType::UInt8));
}

#[test]
fn wide_integers_narrow_to_sixty_four_bits() {
    assert_eq!(map_scalar(PrimType::I128), ScalarType::Int64);
    assert_eq!(map_scalar(PrimType::ISize), ScalarType::Int64);
    assert_eq!(map_scalar(PrimType::U128), ScalarType::UInt64);
    assert_eq!(map_scalar(PrimType::USize), ScalarType::UInt64);
    assert_eq!(map_scalar(PrimType::F32), ScalarType::Float32);
    assert_eq!(map_scalar(PrimType::F64), ScalarType::Float64);
}

#[test]
fn unit_maps_to_null_column() {
    assert_eq!(map_prim_type(PrimType::Unit), ColumnType::Null);
    assert_eq!(map_prim_type(PrimType::Bool), ColumnType::Scalar(ScalarType::Boolean));
}

#[test]
fn compile_by_id_finds_registered_types() {
    let (reg, _, _) = header_registry();
    let id = "std_msgs/msg/Header".to_string();
    let schema = compile_by_id(&reg, &id, SchemaMode::Nested, false).unwrap();
    assert_eq!(schema.len(), 2);
}

#[test]
fn compile_by_id_rejects_unknown_schema() {
    let (reg, _, _) = header_registry();
    let id = "std_msgs/msg/Missing".to_string();
    let r = compile_by_id(&reg, &id, SchemaMode::Nested, false);
    assert_eq!(r.unwrap_err(), CompileError::UnknownSchemaId);
}

#[test]
fn registry_rejects_unknown_type_reference() {
    let mut reg = TypeRegistry::new();
    let bad = RecordTypeDef {
        schema_id: "pkg/msg/Bad".to_string(),
        fields: vec![FieldDef { name: "x".to_string(), ty: FieldType::Record(7) }],
    };
    assert_eq!(reg.add_type(bad).unwrap_err(), RegistryError::UnknownTypeRef);
    assert_eq!(reg.len(), 0);
}

#[test]
fn registry_rejects_duplicate_schema_id() {
    let mut reg = TypeRegistry::new();
    reg.add_type(time_def()).unwrap();
    assert_eq!(reg.add_type(time_def()).unwrap_err(), RegistryError::DuplicateSchemaId);
    assert_eq!(reg.len(), 1);
}

#[test]
fn registry_rejects_array_of_unit() {
    let mut reg = TypeRegistry::new();
    let bad = RecordTypeDef {
        schema_id: "pkg/msg/Units".to_string(),
        fields: vec![FieldDef { name: "u".to_string(), ty: FieldType::Array(PrimType::Unit) }],
    };
    assert_eq!(reg.add_type(bad).unwrap_err(), RegistryError::UnsupportedFieldType);
}

#[test]
fn supported_schemas_are_listed_in_order() {
    let (reg, _, _) = header_registry();
    let ids = reg.get_supported_schemas();
    assert_eq!(ids, vec!["builtin_interfaces/msg/Time", "std_msgs/msg/Header"]);
    assert_eq!(reg.lookup(&"std_msgs/msg/Header".to_string()), Some(1));
    assert_eq!(reg.lookup(&"nope".to_string()), None);
}

#[test]
fn supported_schemas_sort_regardless_of_registration_order() {
    let mut reg = TypeRegistry::new();
    for id in ["zeta/msg/Last", "alpha/msg/First", "mid/msg/Between"] {
        let def = RecordTypeDef {
            schema_id: id.to_string(),
            fields: vec![FieldDef { name: "x".to_string(), ty: FieldType::Prim(PrimType::Bool) }],
        };
        reg.add_type(def).unwrap();
    }
    let ids = reg.get_supported_schemas();
    assert_eq!(ids, vec!["alpha/msg/First", "mid/msg/Between", "zeta/msg/Last"]);
}

#[test]
fn empty_record_compiles_to_empty_schema() {
    let mut reg = TypeRegistry::new();
    let empty = RecordTypeDef { schema_id: "pkg/msg/Empty".to_string(), fields: vec![] };
    let tid = reg.add_type(empty).unwrap();
    assert_eq!(compile(&reg, tid, SchemaMode::Nested, false).len(), 0);
    assert_eq!(compile(&reg, tid, SchemaMode::Flattened, false).len(), 0);
    let with_whole = compile(&reg, tid, SchemaMode::Nested, true);
    assert_eq!(with_whole.len(), 1);
    assert_eq!(with_whole[0].name, "message_struct");
}

#[test]
fn deep_flattening_joins_paths() {
    let mut reg = TypeRegistry::new();
    let time_id = reg.add_type(time_def()).unwrap();
    let header_id = reg.add_type(header_def(time_id)).unwrap();
    let outer = RecordTypeDef {
        schema_id: "pkg/msg/Outer".to_string(),
        fields: vec![
            FieldDef { name: "header".to_string(), ty: FieldType::Record(header_id) },
            FieldDef { name: "value".to_string(), ty: FieldType::Prim(PrimType::F64) },
        ],
    };
    let outer_id = reg.add_type(outer).unwrap();
    let flat = compile(&reg, outer_id, SchemaMode::Flattened, false);
    assert_eq!(
        names(&flat),
        vec!["header_stamp_sec", "header_stamp_nanosec", "header_frame_id", "value"]
    );
    assert_eq!(flat[0].logical_path, "header.stamp.sec");
    assert_eq!(flat[0].index_path, vec![0, 0, 0]);
    assert_eq!(flat[3].index_path, vec![1]);
}
