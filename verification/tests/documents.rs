use zed::documents::{
    check_document, clamp_body, import_form, is_iso_date, normalize_values, number_source,
    validate_value, value_json, values_to_store, ImportForm,
};
use zed::error::AppError;
use zed::model::{Field, FieldType, FieldValue, FillMode};

fn field(key: &str, label: &str, t: FieldType, required: bool) -> Field {
    Field {
        id: format!("id-{key}"),
        key: key.into(),
        label: label.into(),
        field_type: t,
        required,
        fill_mode: FillMode::Manual,
        options: vec![],
        auto: false,
        date_format: "d.m.Y".into(),
        seq_start: 1,
        next: None,
    }
}

fn hire_fields() -> Vec<Field> {
    let mut kind = field("kind", "Тип", FieldType::Select, false);
    kind.options = vec!["Трудовой".into(), "ГПХ".into()];
    vec![
        field("full_name", "ФИО", FieldType::Text, true),
        field("start_date", "Дата", FieldType::Date, true),
        kind,
    ]
}

fn bad(r: Result<impl std::fmt::Debug, AppError>) -> String {
    match r {
        Err(AppError::BadRequest(m)) => m,
        other => panic!("{other:?}"),
    }
}

fn s(v: &str) -> FieldValue {
    FieldValue::Str(v.into())
}

#[test]
fn required_values_are_demanded() {
    let fields = hire_fields();
    let readings = vec![None, None, None];
    let err = check_document("Иванов", "", &fields, &vec![], &readings).unwrap_err();
    assert!(err.to_string().contains("обязательно"));
    assert_eq!(err.to_string(), "поле «ФИО» обязательно");
    let values = vec![
        ("full_name".to_string(), s(" Иванов Иван ")),
        ("start_date".to_string(), s("2026-09-14")),
        ("kind".to_string(), s("Трудовой")),
    ];
    let doc = check_document(" Иванов И.И. ", "черновик приказа", &fields, &values, &readings).unwrap();
    assert_eq!(doc.title, "Иванов И.И.");
    assert_eq!(doc.body, "черновик приказа");
    assert_eq!(doc.values.len(), 3);
    assert_eq!(doc.values[0].0, "id-full_name");
    assert!(matches!(&doc.values[0].1, FieldValue::Str(v) if v == "Иванов Иван"));
}

#[test]
fn text_values_are_checked() {
    let text = field("a", "А", FieldType::Text, false);
    assert!(matches!(validate_value(&text, &s("   "), &None).unwrap(), FieldValue::Null));
    assert_eq!(bad(validate_value(&text, &FieldValue::Bool(true), &None)), "поле «А» должно быть текстом");
    assert_eq!(bad(validate_value(&text, &s(&"x".repeat(501)), &None)), "поле «А» слишком длинное");
    assert!(validate_value(&text, &s(&"x".repeat(500)), &None).is_ok());
    let area = field("b", "Б", FieldType::Textarea, false);
    assert!(validate_value(&area, &s(&"x".repeat(20_000)), &None).is_ok());
    assert_eq!(bad(validate_value(&area, &s(&"x".repeat(20_001)), &None)), "поле «Б» слишком длинное");
    let date = field("d", "Д", FieldType::Date, false);
    assert_eq!(bad(validate_value(&date, &s("14.09.2026"), &None)), "поле «Д» должно быть датой ГГГГ-ММ-ДД");
    let mut sel = field("k", "Тип", FieldType::Select, false);
    sel.options = vec!["один".into(), "два".into()];
    assert_eq!(bad(validate_value(&sel, &s("три"), &None)), "поле «Тип»: нет такого варианта");
    assert!(matches!(validate_value(&sel, &s(" два "), &None).unwrap(), FieldValue::Str(v) if v == "два"));
}

#[test]
fn iso_dates() {
    assert!(is_iso_date("2026-01-10"));
    assert!(!is_iso_date("2026-1-10"));
    assert!(!is_iso_date("2026/01/10"));
    assert!(!is_iso_date("2026-01-1x"));
    assert!(!is_iso_date("２０２６-01-10"));
}

#[test]
fn numbers_come_from_their_reading() {
    let n = field("n", "Сумма", FieldType::Number, true);
    assert_eq!(number_source(&s(" 12,5 ")).as_deref(), Some("12.5"));
    assert_eq!(number_source(&FieldValue::Number("7".into())).as_deref(), Some("7"));
    assert!(number_source(&s("  ")).is_none());
    assert!(number_source(&FieldValue::Bool(true)).is_none());
    let read = Some(FieldValue::Number("12.5".into()));
    assert!(matches!(validate_value(&n, &s("12,5"), &read).unwrap(), FieldValue::Number(v) if v == "12.5"));
    assert_eq!(bad(validate_value(&n, &s("abc"), &None)), "поле «Сумма» должно быть числом");
    assert_eq!(bad(validate_value(&n, &s(" "), &None)), "поле «Сумма» обязательно");
    assert_eq!(bad(validate_value(&n, &FieldValue::Bool(true), &read)), "поле «Сумма» должно быть числом");
}

#[test]
fn checkboxes_take_anything() {
    let c = field("c", "Галка", FieldType::Checkbox, false);
    let ticked = |v: FieldValue| matches!(validate_value(&c, &v, &None).unwrap(), FieldValue::Bool(true));
    assert!(ticked(s("on")));
    assert!(ticked(s("1")));
    assert!(ticked(s("true")));
    assert!(!ticked(s("yes")));
    assert!(ticked(FieldValue::Number("1".into())));
    assert!(!ticked(FieldValue::Number("1.0".into())));
    assert!(!ticked(FieldValue::Other("[]".into())));
    assert!(matches!(validate_value(&c, &FieldValue::Null, &None).unwrap(), FieldValue::Null));
}

#[test]
fn stored_values_pass_again() {
    let fields = hire_fields();
    let values = vec![
        ("full_name".to_string(), s("  Петров ")),
        ("start_date".to_string(), s("2026-01-10")),
    ];
    let readings = vec![None, None, None];
    let first = normalize_values(&fields, &values, &readings).unwrap();
    let again: Vec<_> = fields
        .iter()
        .zip(first.iter())
        .map(|(f, (_, v))| (f.key.clone(), v.clone()))
        .collect();
    let second = normalize_values(&fields, &again, &readings).unwrap();
    assert_eq!(format!("{first:?}"), format!("{second:?}"));
}

#[test]
fn only_real_values_are_stored() {
    let fields = hire_fields();
    let values = vec![
        ("id-full_name".to_string(), s("Сидоров \"С\"")),
        ("id-kind".to_string(), FieldValue::Null),
        ("id-gone".to_string(), s("x")),
        ("id-start_date".to_string(), s("2026-02-01")),
    ];
    let stored = values_to_store(&fields, &values);
    assert_eq!(
        stored,
        vec![
            ("id-full_name".to_string(), r#""Сидоров \"С\"""#.to_string()),
            ("id-start_date".to_string(), r#""2026-02-01""#.to_string()),
        ]
    );
    assert_eq!(value_json(&FieldValue::Bool(false)), "false");
    assert_eq!(value_json(&FieldValue::Number("3".into())), "3");
    assert_eq!(value_json(&FieldValue::Null), "null");
}

#[test]
fn import_picks_the_form() {
    assert!(matches!(import_form(&Some("t1".into()), &None).unwrap(), ImportForm::Existing(id) if id == "t1"));
    assert!(matches!(
        import_form(&Some(String::new()), &Some(" Приём на работу ".into())).unwrap(),
        ImportForm::New(n) if n == "Приём на работу"
    ));
    assert_eq!(bad(import_form(&None, &None)), "укажите название формы");
}

#[test]
fn long_bodies_are_refused() {
    assert_eq!(bad(clamp_body(&"ж".repeat(100_001))), "текст документа слишком длинный");
    assert!(clamp_body(&"ж".repeat(100_000)).is_ok());
}

#[test]
fn string_values_are_written_with_json_escapes() {
    let v = FieldValue::Str("a\"b\\c\n\t\r\u{8}\u{c}\u{1}\u{1f}\u{7f}é/".into());
    assert_eq!(
        value_json(&v),
        "\"a\\\"b\\\\c\\n\\t\\r\\b\\f\\u0001\\u001f\u{7f}é/\""
    );
}
