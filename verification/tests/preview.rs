use zed::preview::{document_xml_to_html, wrap_preview_page, wrap_print_page};

#[test]
fn bold_center() {
    let xml = r#"<w:document xmlns:w="http://schemas.openxmlformats.org/wordprocessingml/2006/main"><w:body>
          <w:p><w:pPr><w:jc w:val="center"/></w:pPr>
            <w:r><w:rPr><w:b/><w:sz w:val="32"/></w:rPr><w:t>Заголовок</w:t></w:r>
          </w:p>
          <w:p><w:r><w:t>Текст {{fio}}</w:t></w:r></w:p>
        </w:body></w:document>"#;
    let html = document_xml_to_html(xml);
    assert!(html.contains("text-align:center"), "{html}");
    assert!(html.contains("font-weight:bold"), "{html}");
    assert!(html.contains("16pt"), "{html}");
    assert!(html.contains("Заголовок"), "{html}");
    assert!(html.contains("Текст {{fio}}"), "{html}");
}

#[test]
fn odd_half_points_keep_the_half() {
    let xml = r#"<w:document><w:body><w:p><w:r><w:rPr><w:sz w:val="25"/></w:rPr><w:t>x</w:t></w:r></w:p></w:body></w:document>"#;
    let html = document_xml_to_html(xml);
    assert!(html.contains("12.5pt"), "{html}");
}

#[test]
fn print_page_height_is_clamped() {
    let one = wrap_print_page("t", "<p>x</p>", 0);
    let five = wrap_print_page("t", "<p>x</p>", 9);
    assert!(one.contains("height: 297mm;"), "{one}");
    assert!(five.contains("height: 1485mm;"), "{five}");
    assert!(one.contains("color: #000;"), "{one}");
    let preview = wrap_preview_page("a & <b>", "<p>x</p>");
    assert!(preview.contains("<title>a &amp; &lt;b&gt;</title>"), "{preview}");
    assert!(preview.contains("color: #241c15;"), "{preview}");
    assert!(preview.contains("height: 297mm;"), "{preview}");
}

#[test]
fn docx_preview_from_a_package() {
    let bytes = zed::docx::docx_from_text("Первая строка\nВторая & последняя").unwrap();
    let html = zed::preview::docx_to_html(&bytes).unwrap();
    assert!(html.contains("Первая строка"), "{html}");
    assert!(html.contains("Вторая &amp; последняя"), "{html}");
    assert!(zed::preview::docx_to_html(b"not a zip").is_err());
}
