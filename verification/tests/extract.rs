use std::io::{Cursor, Write};

use zed::docx::{docx_text, fill_docx, normalize_docx};
use zed::extract::from_bytes;
use zed::model::{FieldValue, FillMode};
use zip::write::SimpleFileOptions;

fn escape(s: &str) -> String {
    s.replace('&', "&amp;").replace('<', "&lt;").replace('>', "&gt;")
}

fn docx_from_paragraphs(parts: &[&str], split_first: bool) -> Vec<u8> {
    let mut inner = Cursor::new(Vec::new());
    let mut zip = zip::ZipWriter::new(&mut inner);
    let opts = SimpleFileOptions::default().compression_method(zip::CompressionMethod::Stored);
    zip.start_file("word/document.xml", opts).unwrap();
    let mut xml = String::from(
        r#"<?xml version="1.0" encoding="UTF-8" standalone="yes"?><w:document xmlns:w="http://schemas.openxmlformats.org/wordprocessingml/2006/main"><w:body>"#,
    );
    for (i, p) in parts.iter().enumerate() {
        xml.push_str("<w:p>");
        if split_first && i == 0 {
            let mid = p
                .char_indices()
                .nth(p.chars().count() / 2)
                .map(|(idx, _)| idx)
                .unwrap_or(0);
            xml.push_str("<w:r><w:t>");
            xml.push_str(&escape(&p[..mid]));
            xml.push_str("</w:t></w:r><w:r><w:t>");
            xml.push_str(&escape(&p[mid..]));
            xml.push_str("</w:t></w:r>");
        } else {
            xml.push_str("<w:r><w:t>");
            xml.push_str(&escape(p));
            xml.push_str("</w:t></w:r>");
        }
        xml.push_str("</w:p>");
    }
    xml.push_str("</w:body></w:document>");
    zip.write_all(xml.as_bytes()).unwrap();
    zip.finish().unwrap();
    inner.into_inner()
}

#[test]
fn docx_placeholders_and_split_runs() {
    let bytes = docx_from_paragraphs(
        &["Приказ о приёме {{ФИО}}", "Дата {{date}}, номер {{num}}"],
        true,
    );
    let extracted = from_bytes("hire.docx", &bytes).unwrap();
    assert!(extracted.text.contains("{{fio}}"));
    assert!(extracted.text.contains("{{date}}"));
    assert!(extracted.text.contains("{{num}}"));
    let keys: Vec<_> = extracted.fields.iter().map(|f| f.key.as_str()).collect();
    assert_eq!(keys, ["fio", "date", "num"]);
    assert_eq!(extracted.fields[0].label, "ФИО");
    assert_eq!(extracted.fields[1].fill_mode, FillMode::CreatedAt);
    assert_eq!(extracted.fields[2].fill_mode, FillMode::Sequence);
}

#[test]
fn txt_plain() {
    let extracted = from_bytes("a.txt", b"Hello {{full_name}}").unwrap();
    assert_eq!(extracted.fields[0].key, "full_name");
    assert_eq!(extracted.text, "Hello {{full_name}}");
}

#[test]
fn fill_split_placeholder() {
    let bytes = docx_from_paragraphs(&["Сотрудник {{fio}}, приказ {{num}}"], true);
    let values = vec![
        ("fio".to_string(), FieldValue::Str("Иванов И.И.".into())),
        ("num".to_string(), FieldValue::Number("7".into())),
    ];
    let filled = fill_docx(&bytes, &values).unwrap();
    let text = docx_text(&filled).unwrap();
    assert!(text.contains("Иванов И.И."), "{text}");
    assert!(text.contains('7'), "{text}");
    assert!(!text.contains("{{fio}}"), "{text}");
}

#[test]
fn normalize_then_fill() {
    let bytes = docx_from_paragraphs(&["ФИО {{ФИО}}"], false);
    let normalized = normalize_docx(&bytes).unwrap();
    let extracted = from_bytes("a.docx", &normalized).unwrap();
    assert!(extracted.text.contains("{{fio}}"));
    let values = vec![("fio".to_string(), FieldValue::Str("Петров".into()))];
    let filled = fill_docx(&normalized, &values).unwrap();
    let text = docx_text(&filled).unwrap();
    assert!(text.contains("Петров"));
    assert!(!text.contains("{{"));
}

#[test]
fn repeated_placeholder_gives_one_field() {
    let extracted = from_bytes("a.txt", "{{ФИО}} и ещё раз {{ ФИО }} и {{fio}}".as_bytes()).unwrap();
    assert_eq!(extracted.fields.len(), 1);
    assert_eq!(extracted.fields[0].key, "fio");
    let mut keys: Vec<_> = extracted.fields.iter().map(|f| f.key.clone()).collect();
    keys.dedup();
    assert_eq!(keys.len(), extracted.fields.len());
}

#[test]
fn unknown_format_is_refused() {
    match from_bytes("a.pdf", b"%PDF") {
        Err(zed::error::AppError::BadRequest(m)) => assert!(m.starts_with("PDF пока не разбираем")),
        other => panic!("{other:?}"),
    }
    match from_bytes("a.odt", b"x") {
        Err(zed::error::AppError::BadRequest(m)) => {
            assert_eq!(m, "формат .odt на лист не кладётся. Нужен .docx или .txt")
        }
        other => panic!("{other:?}"),
    }
    match from_bytes("virus.exe", b"MZ") {
        Err(zed::error::AppError::BadRequest(m)) => assert_eq!(m, "этот тип файла нельзя импортировать"),
        other => panic!("{other:?}"),
    }
}

#[test]
fn broken_docx_is_an_error() {
    assert!(from_bytes("a.docx", b"not a zip").is_err());
    assert!(fill_docx(b"not a zip", &vec![]).is_err());
}
