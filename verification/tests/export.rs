use std::io::{Cursor, Read};

use zed::export::{layout_docx_ready, layout_to_docx};
use zed::extract::from_bytes;
use zed::layout::{Block, Layout};
use zed::model::{Field, FieldType, FieldValue, FillMode};

fn block(kind: &str) -> Block {
    Block {
        kind: kind.into(),
        align: None,
        font: None,
        size: None,
        html: None,
        left: None,
        right: None,
        indent: None,
    }
}

fn document_xml(bytes: Vec<u8>) -> String {
    let mut zip = zip::ZipArchive::new(Cursor::new(bytes)).unwrap();
    let mut file = zip.by_name("word/document.xml").unwrap();
    let mut xml = String::new();
    file.read_to_string(&mut xml).unwrap();
    xml
}

#[test]
fn docx_from_layout_has_text() {
    let raw = r#"{"v":1,"blocks":[{"type":"paragraph","align":"center","html":"<b>ПРИКАЗ</b>","size":18}]}"#;
    let mut b = block("paragraph");
    b.align = Some("center".into());
    b.html = Some("<b>ПРИКАЗ</b>".into());
    b.size = Some(18);
    let parsed = Some(Layout { v: 1, blocks: vec![b] });
    let bytes = layout_to_docx(raw, &parsed, &vec![], &vec![]).unwrap();
    let extracted = from_bytes("t.docx", &bytes).unwrap();
    assert!(extracted.text.contains("ПРИКАЗ"), "{}", extracted.text);
}

#[test]
fn docx_keeps_bold_span() {
    let raw = r#"{"v":1,"blocks":[{"type":"block","html":"<span style=\"font-weight:bold\">ЖИРНЫЙ</span>"}]}"#;
    let mut b = block("block");
    b.html = Some("<span style=\"font-weight:bold\">ЖИРНЫЙ</span>".into());
    let parsed = Some(Layout { v: 1, blocks: vec![b] });
    let bytes = layout_to_docx(raw, &parsed, &vec![], &vec![]).unwrap();
    let xml = document_xml(bytes);
    assert!(xml.contains("<w:b"), "{xml}");
    assert!(xml.contains("<w:bCs"), "{xml}");
    assert!(xml.contains("ЖИРНЫЙ"), "{xml}");
}

fn field(key: &str) -> Field {
    Field {
        id: format!("id-{key}"),
        key: key.into(),
        label: key.into(),
        field_type: FieldType::Text,
        required: false,
        fill_mode: FillMode::Manual,
        options: vec![],
        auto: false,
        date_format: "d.m.Y".into(),
        seq_start: 1,
        next: None,
    }
}

#[test]
fn header_becomes_a_two_cell_table() {
    let mut b = block("header");
    b.left = Some("ООО Ромашка".into());
    b.right = Some("Исх. {{num}}".into());
    let parsed = Some(Layout { v: 1, blocks: vec![b] });
    let fields = vec![field("num")];
    let values = vec![("num".to_string(), FieldValue::Number("12".into()))];
    assert!(layout_docx_ready("{}", &parsed, &fields, &values));
    let xml = document_xml(layout_to_docx("{}", &parsed, &fields, &values).unwrap());
    assert!(xml.contains("<w:tbl>"), "{xml}");
    assert_eq!(xml.matches("<w:tcW w:w=\"2500\" w:type=\"pct\"/>").count(), 2, "{xml}");
    assert!(xml.contains("<w:jc w:val=\"right\"/>"), "{xml}");
    assert!(xml.contains("Исх. 12"), "{xml}");
    assert!(xml.contains("<w:pgSz w:w=\"11906\" w:h=\"16838\"/>"), "{xml}");
}

#[test]
fn plain_text_body_is_one_paragraph() {
    let xml = document_xml(layout_to_docx("Привет, {{who}}", &None, &vec![field("who")], &vec![(
        "who".to_string(),
        FieldValue::Str("мир & <всем>".into()),
    )])
    .unwrap());
    assert!(xml.contains("<w:jc w:val=\"left\"/>"), "{xml}");
    assert!(xml.contains("<w:sz w:val=\"28\"/>"), "{xml}");
    assert!(xml.contains("w:ascii=\"Times New Roman\""), "{xml}");
    assert!(xml.contains("Привет, мир &amp; &lt;всем&gt;"), "{xml}");
}

#[test]
fn indent_and_size_of_a_block() {
    let mut b = block("paragraph");
    b.html = Some("<i>курсив</i> <u>черта</u><br>дальше".into());
    b.indent = Some(2);
    b.size = Some(12);
    b.align = Some("justify".into());
    let parsed = Some(Layout { v: 1, blocks: vec![b] });
    let xml = document_xml(layout_to_docx("{}", &parsed, &vec![], &vec![]).unwrap());
    assert!(xml.contains("<w:ind w:firstLine=\"1418\"/>"), "{xml}");
    assert!(xml.contains("<w:jc w:val=\"both\"/>"), "{xml}");
    assert!(xml.contains("<w:i/><w:iCs/>"), "{xml}");
    assert!(xml.contains("<w:u w:val=\"single\"/>"), "{xml}");
    assert!(xml.contains("<w:r><w:br/></w:r>"), "{xml}");
    assert!(xml.contains("<w:sz w:val=\"24\"/>"), "{xml}");
}

#[test]
fn unclosed_tag_is_not_ready() {
    let mut b = block("paragraph");
    b.html = Some("текст <b".into());
    let parsed = Some(Layout { v: 1, blocks: vec![b] });
    assert!(!layout_docx_ready("{}", &parsed, &vec![], &vec![]));
    assert!(layout_docx_ready("простой текст", &None, &vec![], &vec![]));
}
