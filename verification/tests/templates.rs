use zed::error::AppError;
use zed::model::{Field, FieldInput, FieldType, FieldValue, FillMode, UpsertTemplate};
use zed::templates::{
    check_deletable, check_template, clamp_body, config_from, field_from_row, field_id,
    parse_config, prepare_fields, render_body, source_to_store, stored_options,
};

fn input(key: &str, label: &str, t: FieldType) -> FieldInput {
    FieldInput {
        id: None,
        key: key.into(),
        label: label.into(),
        field_type: t,
        required: false,
        options: vec![],
        fill_mode: FillMode::Manual,
        auto: None,
        date_format: None,
        seq_start: None,
    }
}

fn bad(r: Result<impl std::fmt::Debug, AppError>) -> String {
    match r {
        Err(AppError::BadRequest(m)) => m,
        other => panic!("{other:?}"),
    }
}

#[test]
fn select_needs_two_options() {
    let mut f = input("kind", "Тип", FieldType::Select);
    f.options = vec!["один".into()];
    let m = bad(prepare_fields(&vec![f.clone()], None));
    assert_eq!(m, "у списка «Тип» должно быть хотя бы два варианта");
    assert!(m.contains("два варианта"));
    f.options = vec![" один ".into(), "".into(), "  ".into(), "два".into()];
    let p = prepare_fields(&vec![f], None).unwrap();
    assert_eq!(p[0].options_json.as_deref(), Some(r#"["один","два"]"#));
}

#[test]
fn hire_template_fields() {
    let mut name = input("full_name", "ФИО", FieldType::Text);
    name.required = true;
    let mut date = input(" start_date ", "Дата", FieldType::Date);
    date.required = true;
    let mut kind = input("kind", "Тип", FieldType::Select);
    kind.options = vec!["Трудовой".into(), "ГПХ".into()];
    let p = prepare_fields(&vec![name, date, kind], None).unwrap();
    assert_eq!(p.len(), 3);
    assert_eq!(p[0].key, "full_name");
    assert!(p[0].required);
    assert_eq!(p[1].key, "start_date");
    assert_eq!(p[1].fill_mode, FillMode::Manual);
    assert_eq!(p[1].config_json, r#"{"auto":false,"date_format":"d.m.Y","seq_start":1}"#);
    assert_eq!(p[2].options_json.as_deref(), Some(r#"["Трудовой","ГПХ"]"#));
    assert!(p[2].options_json.is_some() && p[0].options_json.is_none());
}

#[test]
fn keys_are_checked() {
    let m = bad(prepare_fields(&vec![input("Full", "x", FieldType::Text)], None));
    assert_eq!(m, "ключ «Full» недопустим: латиница, цифры и _, начинается с буквы");
    let m = bad(prepare_fields(
        &vec![input("a", "x", FieldType::Text), input(" a ", "y", FieldType::Text)],
        None,
    ));
    assert_eq!(m, "ключ «a» повторяется");
    let m = bad(prepare_fields(&vec![input("a", "  ", FieldType::Text)], None));
    assert_eq!(m, "укажите подпись поля");
    let many: Vec<_> = (0..81).map(|i| input(&format!("k{i}"), "x", FieldType::Text)).collect();
    assert_eq!(bad(prepare_fields(&many, None)), "слишком много полей");
    assert_eq!(prepare_fields(&many[..80].to_vec(), None).unwrap().len(), 80);
}

#[test]
fn self_filling_fields() {
    let mut d = input("d", "Дата", FieldType::Date);
    d.auto = Some(true);
    d.required = true;
    let mut n = input("n", "Номер", FieldType::Number);
    n.fill_mode = FillMode::Sequence;
    n.seq_start = Some(-5);
    let mut t = input("t", "Когда", FieldType::Text);
    t.fill_mode = FillMode::CreatedAt;
    t.auto = Some(false);
    t.date_format = Some("  \"Y\"  ".into());
    let mut c = input("c", "Галка", FieldType::Checkbox);
    c.required = true;
    let p = prepare_fields(&vec![d, n, t, c], None).unwrap();
    assert_eq!((p[0].fill_mode, p[0].field_type, p[0].required), (FillMode::CreatedAt, FieldType::Date, false));
    assert_eq!((p[1].fill_mode, p[1].field_type), (FillMode::Sequence, FieldType::Number));
    assert_eq!(p[1].config_json, r#"{"auto":true,"date_format":"d.m.Y","seq_start":1}"#);
    assert_eq!((p[2].fill_mode, p[2].field_type), (FillMode::CreatedAt, FieldType::Date));
    assert_eq!(p[2].config_json, r#"{"auto":false,"date_format":"\"Y\"","seq_start":1}"#);
    assert!(!p[3].required);
}

#[test]
fn field_ids_are_kept_or_made() {
    let mut f = input("a", "x", FieldType::Text);
    f.id = Some("id-1".into());
    let existing = vec!["id-0".to_string(), "id-1".to_string()];
    assert_eq!(field_id(&f, Some(&existing)), "id-1");
    let fresh = field_id(&f, None);
    assert_ne!(fresh, "id-1");
    assert_eq!(fresh.len(), 36);
    f.id = Some("other".into());
    assert_ne!(field_id(&f, Some(&existing)), "other");
    let p = prepare_fields(&vec![input("a", "x", FieldType::Text), input("b", "y", FieldType::Text)], None).unwrap();
    assert_ne!(p[0].id, p[1].id);
}

#[test]
fn template_is_checked_in_order() {
    let mut t = UpsertTemplate {
        name: "  Приём  ".into(),
        description: " демо ".into(),
        body: "Текст {{a}}".into(),
        fields: vec![input("a", "А", FieldType::Text)],
    };
    let c = check_template(&t, None).unwrap();
    assert_eq!((c.name.as_str(), c.description.as_str(), c.body.as_str()), ("Приём", "демо", "Текст {{a}}"));
    t.description = "я".repeat(1001);
    assert_eq!(bad(check_template(&t, None)), "описание слишком длинное");
    t.description = String::new();
    t.body = "x".repeat(200_001);
    assert_eq!(bad(check_template(&t, None)), "текст шаблона слишком длинный");
    assert_eq!(bad(clamp_body(&t.body)), "текст шаблона слишком длинный");
    assert_eq!(clamp_body(&"x".repeat(200_000)).unwrap().len(), 200_000);
    t.name = " ".into();
    assert_eq!(bad(check_template(&t, None)), "укажите название шаблона");
}

#[test]
fn deleting_a_used_template_is_a_conflict() {
    assert!(check_deletable(0).is_ok());
    match check_deletable(3) {
        Err(AppError::Conflict(m)) => assert_eq!(m, "нельзя удалить шаблон: по нему уже есть документы (3)"),
        other => panic!("{other:?}"),
    }
}

#[test]
fn stored_settings_read_back() {
    let (df, auto, start) = parse_config(Some(r#"{"auto":false,"date_format":"Y-m-d","seq_start":10}"#), FillMode::Sequence);
    assert_eq!((df.as_str(), auto, start), ("Y-m-d", false, 10));
    let (df, auto, start) = parse_config(Some(r#"{"date_format":"","seq_start":-3}"#), FillMode::CreatedAt);
    assert_eq!((df.as_str(), auto, start), ("d.m.Y", true, 1));
    let (df, auto, start) = parse_config(Some("not json"), FillMode::Manual);
    assert_eq!((df.as_str(), auto, start), ("d.m.Y", false, 1));
    assert_eq!(parse_config(None, FillMode::Sequence), ("d.m.Y".to_string(), true, 1));
    assert_eq!(config_from(FillMode::Manual, Some("m/Y".into()), Some(true), Some(0)), ("m/Y".to_string(), true, 1));
}

#[test]
fn stored_field_read_back() {
    let f = field_from_row(
        "id".into(),
        "kind".into(),
        "Тип".into(),
        "select",
        1,
        "manual",
        Some(r#"["a","b"]"#.into()),
        r#"{"auto":false}"#,
    )
    .unwrap();
    assert_eq!(f.field_type, FieldType::Select);
    assert!(f.required);
    assert_eq!(f.options, vec!["a".to_string(), "b".to_string()]);
    assert_eq!(f.date_format, "d.m.Y");
    assert!(f.next.is_none());
    let e = field_from_row("id".into(), "k".into(), "l".into(), "text", 0, "weird", None, "");
    assert_eq!(bad(e), "неизвестный способ заполнения: weird");
    let e = field_from_row("id".into(), "k".into(), "l".into(), "text", 0, "manual", Some("[1".into()), "");
    assert!(matches!(e, Err(AppError::Internal(_))));
    assert_eq!(stored_options(Some(String::new())).unwrap().len(), 0);
}

#[test]
fn body_is_rendered_and_filled() {
    let f = Field {
        id: "1".into(),
        key: "fio".into(),
        label: "ФИО".into(),
        field_type: FieldType::Text,
        required: false,
        fill_mode: FillMode::Manual,
        options: vec![],
        auto: false,
        date_format: "d.m.Y".into(),
        seq_start: 1,
        next: None,
    };
    let html = render_body("Кому: {{fio}}", &None, &vec![f], &vec![("fio".to_string(), FieldValue::Str("Иванов".into()))]);
    assert_eq!(html, "<p>Кому: Иванов</p>");
}

#[test]
fn originals_are_kept_or_normalized() {
    assert_eq!(source_to_store("pdf", b"%PDF"), b"%PDF".to_vec());
    assert_eq!(source_to_store("docx", b"not a zip"), b"not a zip".to_vec());
    let doc = zed::docx::docx_from_text("ФИО {{ФИО}}").unwrap();
    let stored = source_to_store("docx", &doc);
    let text = zed::docx::docx_text(&stored).unwrap();
    assert!(text.contains("{{fio}}"), "{text}");
}

#[test]
fn fresh_ids_are_hyphenated_lower_hex() {
    let fresh = field_id(&input("a", "x", FieldType::Text), None);
    assert_eq!(fresh.len(), 36);
    for (i, c) in fresh.chars().enumerate() {
        if [8, 13, 18, 23].contains(&i) {
            assert_eq!(c, '-', "{fresh}");
        } else {
            assert!(c.is_ascii_digit() || ('a'..='f').contains(&c), "{fresh}");
        }
    }
}

#[test]
fn stored_list_fields_keep_their_options() {
    let f = field_from_row(
        "id".into(),
        "kind".into(),
        "Тип".into(),
        "select",
        0,
        "manual",
        Some(r#"["Трудовой","ГПХ"]"#.into()),
        "{}",
    )
    .unwrap();
    assert_eq!(f.options, vec!["Трудовой".to_string(), "ГПХ".to_string()]);
    let g = field_from_row("id".into(), "k".into(), "l".into(), "text", 0, "manual", Some(String::new()), "{}").unwrap();
    assert!(g.options.is_empty());
}
