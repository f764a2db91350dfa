use fit_frame::kinds::{distinct_sorted, get_message_types};
use fit_frame::naming::{field_label, resolve_name};
use fit_frame::table::{read_data, read_recordmesgs, Column, ColumnAccumulator, Field, Record, Table};
use fit_frame::value::{coerce, push_decimal, Cell, Value};

fn field(key: usize, value: Value) -> Field {
    Field { key, value }
}

fn record(kind: &str, fields: Vec<Field>) -> Record {
    Record { kind: kind.to_string(), fields }
}

fn text(s: &str) -> Cell {
    Cell::Text(s.to_string())
}

fn names(t: &Table) -> Vec<String> {
    t.columns.iter().map(|c| c.name.clone()).collect()
}

fn column<'a>(t: &'a Table, name: &str) -> &'a Column {
    t.columns.iter().find(|c| c.name == name).expect("column present")
}

fn three_records() -> Vec<Record> {
    vec![
        record("record", vec![field(1, Value::U16(80))]),
        record("record", vec![field(1, Value::U16(82)), field(2, Value::Text("ok".to_string()))]),
        record("record", vec![field(2, Value::Text("warn".to_string()))]),
    ]
}

#[test]
fn end_to_end_three_records() {
    let t = read_data(&three_records(), "record", None);
    assert_eq!(names(&t), vec!["field_1".to_string(), "field_2".to_string()]);
    assert_eq!(column(&t, "field_1").cells, vec![Cell::UInt32(80), Cell::UInt32(82), Cell::Null]);
    assert_eq!(column(&t, "field_2").cells, vec![Cell::Null, text("ok"), text("warn")]);
}

#[test]
fn read_recordmesgs_selects_record_kind() {
    let mut rs = three_records();
    rs.push(record("session", vec![field(9, Value::U8(1))]));
    let t = read_recordmesgs(&rs, None);
    assert_eq!(t, read_data(&three_records(), "record", None));
}

#[test]
fn coerce_u16_widens_to_u32() {
    assert_eq!(coerce(&Value::U16(500)), Cell::UInt32(500));
}

#[test]
fn coerce_u8_array_to_text() {
    assert_eq!(coerce(&Value::ArrU8(vec![1, 2, 3])), text("[1,2,3]"));
}

#[test]
fn coerce_enum_to_text() {
    assert_eq!(coerce(&Value::Enum("running".to_string())), text("running"));
}

#[test]
fn coerce_every_variant() {
    assert_eq!(coerce(&Value::U8(255)), Cell::UInt32(255));
    assert_eq!(coerce(&Value::U32(4_000_000_000)), Cell::UInt32(4_000_000_000));
    assert_eq!(coerce(&Value::U64(u64::MAX)), Cell::UInt64(u64::MAX));
    assert_eq!(coerce(&Value::I8(-128)), Cell::Int32(-128));
    assert_eq!(coerce(&Value::I16(-300)), Cell::Int32(-300));
    assert_eq!(coerce(&Value::I32(i32::MIN)), Cell::Int32(i32::MIN));
    assert_eq!(coerce(&Value::I64(i64::MIN)), Cell::Int64(i64::MIN));
    assert_eq!(coerce(&Value::F32(1.5f32.to_bits())), Cell::Float32(1.5f32.to_bits()));
    assert_eq!(coerce(&Value::F64(2.25f64.to_bits())), Cell::Float64(2.25f64.to_bits()));
    assert_eq!(coerce(&Value::Text("abc".to_string())), text("abc"));
    assert_eq!(coerce(&Value::Time(1_000_000)), Cell::UInt32(1_000_000));
}

#[test]
fn coerce_wide_arrays_to_text() {
    assert_eq!(coerce(&Value::ArrU16(vec![0, 65535, 10])), text("[0,65535,10]"));
    assert_eq!(coerce(&Value::ArrU32(vec![4294967295])), text("[4294967295]"));
    assert_eq!(coerce(&Value::ArrU8(vec![])), text("[]"));
}

#[test]
fn decimal_rendering() {
    let mut s = "x".to_string();
    push_decimal(&mut s, 0);
    push_decimal(&mut s, 1909);
    push_decimal(&mut s, u64::MAX);
    assert_eq!(s, "x0190918446744073709551615");
}

#[test]
fn field_name_resolution() {
    let mapping = Some(vec![("field_7".to_string(), "heart_rate".to_string())]);
    assert_eq!(resolve_name(7, &mapping), "heart_rate");
    assert_eq!(resolve_name(3, &mapping), "field_3");
    assert_eq!(resolve_name(3, &None), "field_3");
    assert_eq!(field_label(253), "field_253");
}

#[test]
fn mapping_applies_to_table() {
    let rs = vec![record("record", vec![field(7, Value::U8(120)), field(3, Value::U8(4))])];
    let mapping = Some(vec![("field_7".to_string(), "heart_rate".to_string())]);
    let t = read_data(&rs, "record", mapping);
    assert_eq!(names(&t), vec!["heart_rate".to_string(), "field_3".to_string()]);
    assert_eq!(column(&t, "heart_rate").cells, vec![Cell::UInt32(120)]);
}

#[test]
fn two_keys_mapped_to_one_name_interleave() {
    let rs = vec![record("record", vec![field(1, Value::U8(1)), field(2, Value::U8(2))])];
    let mapping = Some(vec![
        ("field_1".to_string(), "x".to_string()),
        ("field_2".to_string(), "x".to_string()),
    ]);
    let t = read_data(&rs, "record", mapping);
    assert_eq!(names(&t), vec!["x".to_string()]);
    assert_eq!(column(&t, "x").cells, vec![Cell::UInt32(1), Cell::UInt32(2)]);
}

#[test]
fn kind_filter_ignores_case() {
    let rs = vec![
        record("Record", vec![field(1, Value::U8(1))]),
        record("RECORD", vec![field(1, Value::U8(2))]),
        record("lap", vec![field(1, Value::U8(3)), field(5, Value::U8(3))]),
    ];
    let t = read_data(&rs, "rEcOrD", None);
    assert_eq!(names(&t), vec!["field_1".to_string()]);
    assert_eq!(column(&t, "field_1").cells, vec![Cell::UInt32(1), Cell::UInt32(2)]);
}

#[test]
fn absent_kind_gives_empty_table() {
    let t = read_data(&three_records(), "lap", None);
    assert!(t.columns.is_empty());
    let t = read_data(&Vec::new(), "record", None);
    assert!(t.columns.is_empty());
}

#[test]
fn ragged_columns_are_padded() {
    let rs = vec![
        record("record", vec![field(4, Value::U8(1))]),
        record("record", vec![field(5, Value::I64(-1)), field(6, Value::U8(0))]),
        record("record", vec![field(5, Value::I64(-2))]),
        record("record", vec![field(5, Value::I64(-3))]),
    ];
    let t = read_data(&rs, "record", None);
    assert_eq!(names(&t), vec!["field_4".to_string(), "field_5".to_string(), "field_6".to_string()]);
    for c in &t.columns {
        assert_eq!(c.cells.len(), 4);
    }
    assert_eq!(
        column(&t, "field_4").cells,
        vec![Cell::UInt32(1), Cell::Null, Cell::Null, Cell::Null]
    );
    assert_eq!(
        column(&t, "field_5").cells,
        vec![Cell::Null, Cell::Int64(-1), Cell::Int64(-2), Cell::Int64(-3)]
    );
    assert_eq!(
        column(&t, "field_6").cells,
        vec![Cell::Null, Cell::UInt32(0), Cell::Null, Cell::Null]
    );
}

#[test]
fn column_order_is_first_seen_not_lexical() {
    let rs = vec![
        record("record", vec![field(9, Value::U8(1))]),
        record("record", vec![field(2, Value::U8(1)), field(9, Value::U8(1))]),
        record("record", vec![field(10, Value::U8(1)), field(2, Value::U8(1))]),
    ];
    let t = read_data(&rs, "record", None);
    assert_eq!(
        names(&t),
        vec!["field_9".to_string(), "field_2".to_string(), "field_10".to_string()]
    );
}

#[test]
fn duplicate_key_in_one_record_appends_twice() {
    let rs = vec![
        record("record", vec![field(1, Value::U8(1)), field(1, Value::U8(2)), field(2, Value::U8(3))]),
    ];
    let t = read_data(&rs, "record", None);
    assert_eq!(column(&t, "field_1").cells, vec![Cell::UInt32(1), Cell::UInt32(2)]);
    assert_eq!(column(&t, "field_2").cells, vec![Cell::UInt32(3), Cell::Null]);
}

#[test]
fn same_input_same_table() {
    let mapping = Some(vec![("field_2".to_string(), "status".to_string())]);
    let a = read_data(&three_records(), "record", mapping.clone());
    let b = read_data(&three_records(), "record", mapping);
    assert_eq!(a, b);
}

#[test]
fn accumulator_one_record_at_a_time() {
    let mut acc = ColumnAccumulator::new("Record", None);
    for r in three_records() {
        acc.ingest(&r);
    }
    acc.ingest(&record("session", vec![field(3, Value::U8(0))]));
    assert_eq!(acc.finalize(), read_data(&three_records(), "record", None));
}

#[test]
fn message_types_sorted_and_distinct() {
    let rs = vec![record("Record", vec![]), record("record", vec![]), record("Session", vec![])];
    assert_eq!(get_message_types(&rs), vec!["record".to_string(), "session".to_string()]);
}

#[test]
fn message_types_order_by_code_point() {
    let rs = vec![
        record("lap", vec![]),
        record("Activity", vec![]),
        record("laps", vec![]),
        record("la", vec![]),
        record("Lap", vec![]),
    ];
    assert_eq!(
        get_message_types(&rs),
        vec!["activity".to_string(), "la".to_string(), "lap".to_string(), "laps".to_string()]
    );
    assert!(get_message_types(&Vec::new()).is_empty());
}

#[test]
fn one_row_per_record() {
    let rs = vec![
        record("record", vec![field(1, Value::U8(5))]),
        record("lap", vec![field(1, Value::U8(6))]),
        record("record", vec![field(2, Value::U8(7))]),
        record("record", vec![]),
    ];
    let t = read_data(&rs, "record", None);
    assert_eq!(column(&t, "field_1").cells, vec![Cell::UInt32(5), Cell::Null, Cell::Null]);
    assert_eq!(column(&t, "field_2").cells, vec![Cell::Null, Cell::UInt32(7), Cell::Null]);
}

#[test]
fn ingest_lowered_compares_given_form() {
    let mut acc = ColumnAccumulator::new("Record", None);
    let r = record("Whatever", vec![field(1, Value::U8(1))]);
    acc.ingest_lowered(&r, &"session".to_string());
    acc.ingest_lowered(&r, &"record".to_string());
    acc.ingest_lowered(&r, &"Record".to_string());
    let t = acc.finalize();
    assert_eq!(names(&t), vec!["field_1".to_string()]);
    assert_eq!(column(&t, "field_1").cells, vec![Cell::UInt32(1)]);
}

#[test]
fn distinct_sorted_given_texts() {
    let v: Vec<String> = ["session", "record", "lap", "record", "Lap", ""]
        .iter()
        .map(|s| s.to_string())
        .collect();
    assert_eq!(
        distinct_sorted(&v),
        vec![
            "".to_string(),
            "Lap".to_string(),
            "lap".to_string(),
            "record".to_string(),
            "session".to_string()
        ]
    );
    assert!(distinct_sorted(&Vec::new()).is_empty());
}
