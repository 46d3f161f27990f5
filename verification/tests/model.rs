use zed::error::AppError;
use zed::model::{is_valid_key, require_name, source_info, FieldType, FillMode};

#[test]
fn keys() {
    assert!(is_valid_key("full_name"));
    assert!(is_valid_key("a"));
    assert!(is_valid_key("f1"));
    assert!(!is_valid_key(""));
    assert!(!is_valid_key("1abc"));
    assert!(!is_valid_key("FullName"));
    assert!(!is_valid_key("full-name"));
    assert!(!is_valid_key("фио"));
}

#[test]
fn key_of_sixty_five_letters_is_too_long() {
    let k64 = "a".repeat(64);
    let k65 = "a".repeat(65);
    assert!(is_valid_key(&k64));
    assert!(!is_valid_key(&k65));
}

#[test]
fn field_type_names_round_trip() {
    for t in [
        FieldType::Text,
        FieldType::Textarea,
        FieldType::Number,
        FieldType::Date,
        FieldType::Checkbox,
        FieldType::Select,
    ] {
        assert_eq!(FieldType::parse(t.as_str()).unwrap(), t);
    }
    assert_eq!(FieldType::Textarea.as_str(), "textarea");
    match FieldType::parse("radio") {
        Err(AppError::BadRequest(m)) => assert_eq!(m, "неизвестный тип поля: radio"),
        other => panic!("{other:?}"),
    }
}

#[test]
fn fill_mode_names_round_trip() {
    for m in [FillMode::Manual, FillMode::CreatedAt, FillMode::Sequence] {
        assert_eq!(FillMode::parse(m.as_str()).unwrap(), m);
    }
    assert_eq!(FillMode::CreatedAt.as_str(), "created_at");
    match FillMode::parse("auto") {
        Err(AppError::BadRequest(m)) => assert_eq!(m, "неизвестный способ заполнения: auto"),
        other => panic!("{other:?}"),
    }
}

#[test]
fn names_are_trimmed_and_bounded() {
    assert_eq!(require_name("  Приказ  ", "название").unwrap(), "Приказ");
    match require_name("   ", "название шаблона") {
        Err(AppError::BadRequest(m)) => assert_eq!(m, "укажите название шаблона"),
        other => panic!("{other:?}"),
    }
    // 101 Cyrillic letters take 202 bytes.
    let long = "я".repeat(101);
    match require_name(&long, "название") {
        Err(AppError::BadRequest(m)) => assert_eq!(m, "название слишком длинное"),
        other => panic!("{other:?}"),
    }
    assert!(require_name(&"я".repeat(100), "название").is_ok());
}

#[test]
fn source_needs_a_name() {
    let s = source_info(Some("scan.pdf".into()), None).unwrap();
    assert_eq!(s.name, "scan.pdf");
    assert_eq!(s.mime, "application/octet-stream");
    let s = source_info(Some("a.docx".into()), Some("application/x".into())).unwrap();
    assert_eq!(s.mime, "application/x");
    assert!(source_info(Some(String::new()), Some("x".into())).is_none());
    assert!(source_info(None, Some("x".into())).is_none());
}

#[test]
fn error_texts() {
    assert_eq!(AppError::NotFound.to_string(), "не найдено");
    assert_eq!(AppError::bad("x").to_string(), "x");
}
