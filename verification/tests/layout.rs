use zed::layout::{fill_placeholders, is_html, is_layout_json, to_html, Block, Layout};
use zed::model::{Field, FieldType, FieldValue, FillMode};

fn block(kind: &str) -> Block {
    Block {
        kind: kind.into(),
        align: None,
        font: None,
        size: None,
        html: None,
        left: None,
        right: None,
        indent: None,
    }
}

#[test]
fn header_and_paragraph() {
    let raw = r#"{
          "v":1,
          "blocks":[
            {"type":"header","left":"ООО Ромашка","right":"Исх. {{num}}","size":12},
            {"type":"paragraph","align":"center","html":"<b>ПРИКАЗ</b>","size":18,"indent":1}
          ]
        }"#;
    let mut h = block("header");
    h.left = Some("ООО Ромашка".into());
    h.right = Some("Исх. {{num}}".into());
    h.size = Some(12);
    let mut p = block("paragraph");
    p.align = Some("center".into());
    p.html = Some("<b>ПРИКАЗ</b>".into());
    p.size = Some(18);
    p.indent = Some(1);
    let parsed = Some(Layout { v: 1, blocks: vec![h, p] });
    let html = to_html(raw, &parsed);
    assert!(html.contains("zed-header"), "{html}");
    assert!(html.contains("ООО Ромашка"), "{html}");
    assert!(html.contains("{{num}}"), "{html}");
    assert!(html.contains("text-align:center"), "{html}");
    assert!(html.contains("ПРИКАЗ"), "{html}");
    assert!(html.contains("text-indent:1.25cm"), "{html}");
}

#[test]
fn plain_text_lines_become_paragraphs() {
    assert_eq!(to_html("  ", &None), "");
    assert_eq!(to_html("a<b\n\nc", &None), "<p>a&lt;b</p><p>&nbsp;</p><p>c</p>");
    assert_eq!(to_html("  <p>x</p>  ", &None), "<p>x</p>");
}

#[test]
fn layout_and_html_are_told_apart() {
    assert!(is_layout_json("  {\"v\":1,\"blocks\":[]}"));
    assert!(!is_layout_json("{\"v\":1}"));
    assert!(is_html("\n<p>x</p>"));
    assert!(!is_html("x<p>"));
}

#[test]
fn placeholders_are_filled_and_escaped() {
    let f = |key: &str| Field {
        id: key.into(),
        key: key.into(),
        label: key.into(),
        field_type: FieldType::Text,
        required: false,
        fill_mode: FillMode::Manual,
        options: vec![],
        auto: false,
        date_format: "d.m.Y".into(),
        seq_start: 1,
        next: None,
    };
    let fields = vec![f("a"), f("b"), f("c"), f("d")];
    let values = vec![
        ("a".to_string(), FieldValue::Str("<x> & y".into())),
        ("b".to_string(), FieldValue::Bool(true)),
        ("c".to_string(), FieldValue::Number("3.5".into())),
    ];
    let out = fill_placeholders("{{a}}|{{b}}|{{c}}|{{d}}|{{e}}", &fields, &values);
    assert_eq!(out, "&lt;x&gt; &amp; y|да|3.5||{{e}}");
}
