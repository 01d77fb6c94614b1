use baskerville::infer_records;
use baskerville::validate_records;
use baskerville::DataType;
use baskerville::Date;
use baskerville::Field;
use baskerville::InferOptions;
use baskerville::Integer;
use baskerville::Text;

fn rows(data: &[&[&str]]) -> Vec<Vec<String>> {
    data.iter()
        .map(|row| row.iter().map(|value| value.to_string()).collect())
        .collect()
}

#[test]
fn infers_three_columns_without_header() {
    let records = rows(&[&["0", "a", ""], &["1", "b", "0.1"], &["2", "c", "0.2"]]);
    let options = InferOptions::default();
    let fields = infer_records(&records, &options);

    assert_eq!(3, fields.len());
    assert!(fields.0.iter().all(|f| f.name.is_none()));

    assert!(matches!(fields.0[0].valid_types[0], DataType::Integer(_)));
    assert!(matches!(fields.0[0].valid_types[1], DataType::Float(_)));
    assert!(matches!(fields.0[0].valid_types[2], DataType::Text(_)));
    if let DataType::Integer(i) = &fields.0[0].valid_types[0] {
        assert_eq!(i.min_value, Some(0));
        assert_eq!(i.max_value, Some(2));
    } else {
        panic!("first column lost its integer candidate");
    }

    assert_eq!(1, fields.0[1].valid_types.len());
    assert!(matches!(fields.0[1].valid_types[0], DataType::Text(_)));

    assert_eq!(2, fields.0[2].valid_types.len());
    assert!(matches!(fields.0[2].valid_types[0], DataType::Float(_)));
    assert!(matches!(fields.0[2].valid_types[1], DataType::Text(_)));
    assert!(fields.0[2].nullable);
    assert!(!fields.0[0].nullable);
}

#[test]
fn infers_names_from_header_row() {
    let records = rows(&[
        &["col1", "col2", ""],
        &["0", "a", ""],
        &["1", "b", "0.1"],
        &["2", "c", "0.2"],
    ]);
    let options = InferOptions {
        has_headers: true,
        ..InferOptions::default()
    };
    let fields = infer_records(&records, &options);

    assert_eq!(3, fields.len());
    let names: Vec<Option<String>> = fields.0.iter().map(|f| f.name.clone()).collect();
    assert_eq!(
        names,
        vec![Some("col1".into()), Some("col2".into()), None]
    );
}

#[test]
fn field_drops_date_candidate_after_mismatch() {
    let mut field = Field::new(None, vec![DataType::Date(Date::default())]);
    field.consider("2001-01-22");
    assert_eq!(1, field.valid_types.len());
    field.consider("22/01/2001");
    assert_eq!(0, field.valid_types.len());
}

#[test]
fn field_narrowing_is_monotone() {
    let options = InferOptions::default();
    let mut field = Field::new(None, options.data_types);
    let mut last = field.valid_types.len();
    for value in ["12", "0.5", "x"] {
        field.consider(value);
        assert!(field.valid_types.len() <= last);
        last = field.valid_types.len();
    }
}

#[test]
fn round_trip_accepts_its_own_data() {
    let records = rows(&[&["1", "x", "0.5"], &["2", "y", "1.5"], &["3", "z", "2.5"]]);
    let options = InferOptions::default();
    let fields = infer_records(&records, &options);
    assert!(validate_records(&fields, &records, &options).is_ok());
}

#[test]
fn round_trip_with_headers() {
    let records = rows(&[&["id", "label"], &["1", "x"], &["2", "y"]]);
    let options = InferOptions {
        has_headers: true,
        ..InferOptions::default()
    };
    let fields = infer_records(&records, &options);
    assert!(validate_records(&fields, &records, &options).is_ok());
}

#[test]
fn round_trip_with_null_values() {
    let records = rows(&[&["0", "a", ""], &["1", "b", "0.1"], &["2", "c", "0.2"]]);
    let options = InferOptions::default();
    let fields = infer_records(&records, &options);
    assert!(validate_records(&fields, &records, &options).is_ok());
}

#[test]
fn null_passes_nullable_column() {
    let options = InferOptions::default();
    let fields = infer_records(&rows(&[&["1", ""], &["2", "x"]]), &options);
    assert!(fields.0[1].nullable);
    assert!(validate_records(&fields, &rows(&[&["3", ""]]), &options).is_ok());
}

#[test]
fn validation_reports_invalid_value() {
    let options = InferOptions::default();
    let fields = infer_records(&rows(&[&["1"], &["2"]]), &options);
    let err = validate_records(&fields, &rows(&[&["3"], &["oops"]]), &options).unwrap_err();
    assert_eq!(err.line_no, 1);
    assert_eq!(err.column_no, 0);
    assert_eq!(err.details, "Invalid value");
}

#[test]
fn validation_reports_nullable_violation() {
    let options = InferOptions::default();
    let fields = infer_records(&rows(&[&["1", "a"], &["2", "b"]]), &options);
    let err = validate_records(&fields, &rows(&[&["3", ""]]), &options).unwrap_err();
    assert_eq!(err.line_no, 0);
    assert_eq!(err.column_no, 1);
    assert_eq!(err.details, "Nullable value");
}

#[test]
fn flexible_mode_appends_columns() {
    let records = rows(&[&["1"], &["2", "x"]]);
    let options = InferOptions {
        flexible: true,
        ..InferOptions::default()
    };
    let fields = infer_records(&records, &options);
    assert_eq!(2, fields.len());
    assert!(fields.0[1].nullable);
    assert!(fields.0[1].name.is_none());
    assert!(matches!(fields.0[1].valid_types[0], DataType::Text(_)));
}

#[test]
fn fixed_mode_ignores_extra_values() {
    let records = rows(&[&["1"], &["2", "x"]]);
    let options = InferOptions::default();
    let fields = infer_records(&records, &options);
    assert_eq!(1, fields.len());
}

#[test]
fn short_rows_leave_trailing_fields_untouched() {
    let records = rows(&[&["1", "7"], &["2"]]);
    let options = InferOptions::default();
    let fields = infer_records(&records, &options);
    assert_eq!(2, fields.len());
    assert!(matches!(fields.0[1].valid_types[0], DataType::Integer(_)));
    assert!(!fields.0[1].nullable);
}

#[test]
fn empty_input_infers_no_columns() {
    let records: Vec<Vec<String>> = Vec::new();
    let options = InferOptions::default();
    let fields = infer_records(&records, &options);
    assert_eq!(0, fields.len());
    assert!(validate_records(&fields, &records, &options).is_ok());
}

#[test]
fn custom_candidates_narrow_in_order() {
    let records = rows(&[&["41", "x"], &["42", "y"]]);
    let options = InferOptions {
        data_types: vec![
            DataType::Integer(Integer::default()),
            DataType::Text(Text::default()),
        ],
        ..InferOptions::default()
    };
    let fields = infer_records(&records, &options);
    assert_eq!(2, fields.0[0].valid_types.len());
    assert!(matches!(fields.0[0].valid_types[0], DataType::Integer(_)));
    assert_eq!(1, fields.0[1].valid_types.len());
    assert!(matches!(fields.0[1].valid_types[0], DataType::Text(_)));
}
