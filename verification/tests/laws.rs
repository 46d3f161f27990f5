use std::io::{Cursor, Write};

use zed::api::content_disposition;
use zed::archive::ZipEntry;
use zed::db::column_additions;
use zed::layout::{to_html, Block, Layout};
use zed::docx::{docx_from_text, fill_docx, normalize_docx, read_entries, write_entries};
use zed::model::FieldValue;
use zed::paragraphs::{extract_wt_texts, rewrite_paragraph, xml_escape, xml_unescape};
use zed::preview::{wrap_preview_page, wrap_print_page};
use zip::write::SimpleFileOptions;

fn chars(s: &str) -> Vec<char> {
    s.chars().collect()
}

fn text(v: Vec<char>) -> String {
    v.into_iter().collect()
}

#[test]
fn escaping_round_trips() {
    for t in ["", "plain", "a<b>&c \"q\"", "&lt; stays &amp; too", "<<>>&&", "Иванов & Ко"] {
        let e = xml_escape(&chars(t));
        assert!(!e.contains(&'<'), "{t}");
        assert_eq!(text(xml_unescape(&e)), t);
    }
    // The one exception: text that spells an entity unescaping also reads.
    assert_eq!(text(xml_unescape(&xml_escape(&chars("&quot;")))), "\"");
}

#[test]
fn rewritten_paragraph_reads_back() {
    let p = chars(
        "<w:p><w:r><w:t>При</w:t></w:r><w:r><w:t xml:space=\"preserve\">каз {{fio}}</w:t></w:r><w:r><w:t/></w:r><w:r><w:t>!</w:t></w:r></w:p>",
    );
    assert_eq!(text(extract_wt_texts(&p)), "Приказ {{fio}}!");
    for t in ["Приказ Иванову", "a < b & c > d", ""] {
        let out = rewrite_paragraph(&p, &chars(t));
        assert_eq!(text(extract_wt_texts(&out)), t);
    }
    let out = text(rewrite_paragraph(&p, &chars("x")));
    assert!(out.contains("<w:t xml:space=\"preserve\">x</w:t>"), "{out}");
    assert!(out.contains("<w:t></w:t>"), "{out}");
    assert!(out.contains("<w:t/>"), "{out}");
}

#[test]
fn archives_read_back_what_was_written() {
    let entries = vec![
        ZipEntry { name: "a.txt".into(), method: 0, data: b"alpha".to_vec() },
        ZipEntry { name: "dir/b.xml".into(), method: 8, data: "бета".as_bytes().to_vec() },
    ];
    let bytes = write_entries(&entries).unwrap();
    let back = read_entries(&bytes).unwrap();
    assert_eq!(back.len(), 2);
    for (a, b) in entries.iter().zip(back.iter()) {
        assert_eq!((a.name.as_str(), a.method, &a.data), (b.name.as_str(), b.method, &b.data));
    }
}

fn package_with_parts() -> Vec<u8> {
    let mut inner = Cursor::new(Vec::new());
    let mut zip = zip::ZipWriter::new(&mut inner);
    let opts = SimpleFileOptions::default().compression_method(zip::CompressionMethod::Stored);
    zip.start_file("[Content_Types].xml", opts).unwrap();
    zip.write_all(b"<Types/>").unwrap();
    zip.start_file("word/document.xml", opts).unwrap();
    zip.write_all("<w:document><w:body><w:p><w:r><w:t>Кому: {{fio}}</w:t></w:r></w:p></w:body></w:document>".as_bytes())
        .unwrap();
    zip.start_file("word/_rels/document.xml.rels", opts).unwrap();
    zip.write_all(b"<Relationships>{{fio}}</Relationships>").unwrap();
    zip.start_file("docProps/app.xml", opts).unwrap();
    zip.write_all(b"<w:p><w:t>{{fio}}</w:t></w:p>").unwrap();
    zip.finish().unwrap();
    inner.into_inner()
}

#[test]
fn filling_keeps_every_other_part() {
    let bytes = package_with_parts();
    let before = read_entries(&bytes).unwrap();
    let filled = fill_docx(&bytes, &vec![("fio".to_string(), FieldValue::Str("Петров".into()))]).unwrap();
    let after = read_entries(&filled).unwrap();
    let names: Vec<_> = after.iter().map(|e| e.name.as_str()).collect();
    assert_eq!(names, ["[Content_Types].xml", "word/document.xml", "word/_rels/document.xml.rels", "docProps/app.xml"]);
    for (a, b) in before.iter().zip(after.iter()) {
        if a.name != "word/document.xml" {
            assert_eq!(a.data, b.data, "{}", a.name);
        }
        assert_eq!(a.method, b.method);
    }
    let doc = String::from_utf8(after[1].data.clone()).unwrap();
    assert!(doc.contains("Кому: Петров"), "{doc}");
    let normalized = normalize_docx(&bytes).unwrap();
    assert_eq!(read_entries(&normalized).unwrap().len(), 4);
}

#[test]
fn text_package_has_three_parts() {
    let bytes = docx_from_text("строка 1\nстрока <2>").unwrap();
    let parts = read_entries(&bytes).unwrap();
    let names: Vec<_> = parts.iter().map(|e| e.name.as_str()).collect();
    assert_eq!(names, ["[Content_Types].xml", "_rels/.rels", "word/document.xml"]);
    let doc = String::from_utf8(parts[2].data.clone()).unwrap();
    assert!(doc.contains("<w:p><w:r><w:t xml:space=\"preserve\">строка &lt;2&gt;</w:t></w:r></w:p>"), "{doc}");
    assert!(parts.iter().all(|e| e.method == 8));
}

#[test]
fn upgrades_settle() {
    for table in ["instance", "templates", "template_fields", "documents"] {
        let missing = column_additions(table, &vec![]);
        assert!(!missing.is_empty());
        let names: Vec<String> = missing
            .iter()
            .map(|s| s.split_whitespace().nth(5).unwrap().to_string())
            .collect();
        assert!(column_additions(table, &names).is_empty(), "{table}: {names:?}");
    }
}

#[test]
fn any_download_name_makes_a_header() {
    for name in ["отчёт.pdf", "a\"b\\c\n.txt", "пробел и\tтаб", ""] {
        let h: String = content_disposition(name).into_iter().collect();
        assert!(h.chars().all(|c| (' '..='~').contains(&c)), "{h}");
        assert!(axum::http::HeaderValue::from_str(&h).is_ok());
    }
}

#[test]
fn placeholders_survive_html() {
    let body = "Кому: {{fio}}\r\nДата: <{{date}}> & {{num}}";
    let html = to_html(body, &None);
    for p in ["{{fio}}", "{{date}}", "{{num}}"] {
        assert!(html.contains(p), "{html}");
    }
    let block = Block {
        kind: "header".into(),
        align: None,
        font: None,
        size: None,
        html: None,
        left: Some("{{org}}".into()),
        right: Some("Исх. {{num}}".into()),
        indent: None,
    };
    let html = to_html("{\"v\":1}", &Some(Layout { v: 1, blocks: vec![block] }));
    assert!(html.contains("{{org}}") && html.contains("{{num}}"), "{html}");
}

#[test]
fn print_page_is_the_preview_page_recoloured_and_resized() {
    let preview = wrap_preview_page("Заявление", "<p>текст</p>");
    for (pages, height) in [(0u32, "297"), (1, "297"), (3, "891"), (5, "1485"), (9, "1485")] {
        let print = wrap_print_page("Заявление", "<p>текст</p>", pages);
        let expected = preview
            .replace("color: #241c15;", "color: #000;")
            .replace("height: 297mm;", &format!("height: {height}mm;"));
        assert_eq!(print, expected, "{pages}");
    }
}

#[test]
fn plain_runs_keep_their_places_when_rewritten() {
    let p = chars("<w:p><w:r><w:t>{{f</w:t></w:r><w:r><w:t>io}}</w:t></w:r><w:r><w:t> &amp; Ко</w:t></w:r></w:p>");
    assert_eq!(text(extract_wt_texts(&p)), "{{fio}} & Ко");
    let out = text(rewrite_paragraph(&p, &chars("Петров <П.> & Ко")));
    assert_eq!(
        out,
        "<w:p><w:r><w:t xml:space=\"preserve\">Петров &lt;П.&gt; &amp; Ко</w:t></w:r><w:r><w:t></w:t></w:r><w:r><w:t></w:t></w:r></w:p>"
    );
    assert_eq!(text(extract_wt_texts(&chars(&out))), "Петров <П.> & Ко");
    let same = text(rewrite_paragraph(&p, &chars("{{fio}} & Ко")));
    assert_eq!(same, text(p.clone()));
    let one = chars("<w:p><w:r><w:t>a</w:t></w:r></w:p>");
    assert_eq!(
        text(rewrite_paragraph(&one, &chars("b"))),
        "<w:p><w:r><w:t xml:space=\"preserve\">b</w:t></w:r></w:p>"
    );
}

#[test]
fn writable_entries_are_written() {
    let stored = vec![ZipEntry { name: "a".into(), method: 0, data: Vec::new() }];
    assert!(write_entries(&stored).is_ok());
    let none: Vec<ZipEntry> = Vec::new();
    let empty = write_entries(&none).unwrap();
    assert_eq!(read_entries(&empty).unwrap().len(), 0);
    let big = vec![ZipEntry { name: "big.bin".into(), method: 8, data: vec![7u8; 1 << 20] }];
    let bytes = write_entries(&big).unwrap();
    assert_eq!(read_entries(&bytes).unwrap()[0].data.len(), 1 << 20);
}

#[test]
fn duplicate_names_are_refused() {
    let entries = vec![
        ZipEntry { name: "a.xml".into(), method: 8, data: b"1".to_vec() },
        ZipEntry { name: "a.xml".into(), method: 8, data: b"2".to_vec() },
    ];
    assert!(matches!(write_entries(&entries), Err(zed::AppError::Internal(_))));
}

#[test]
fn names_too_long_for_the_format_are_refused() {
    let long = "я".repeat(40000);
    let entries = vec![ZipEntry { name: long, method: 0, data: Vec::new() }];
    assert!(matches!(write_entries(&entries), Err(zed::AppError::Internal(_))));
    let fits = "x".repeat(65535);
    let entries = vec![ZipEntry { name: fits, method: 0, data: Vec::new() }];
    assert!(write_entries(&entries).is_ok());
}

#[test]
fn unknown_compression_is_refused() {
    let entries = vec![ZipEntry { name: "a".into(), method: 77, data: b"x".to_vec() }];
    assert!(matches!(write_entries(&entries), Err(zed::AppError::Internal(_))));
}

#[test]
fn written_packages_read_back_by_name() {
    let bytes = docx_from_text("первая\nвторая").unwrap();
    let doc = zed::docx::docx_text(&bytes).unwrap();
    assert!(doc.contains("первая") && doc.contains("вторая"), "{doc}");
}
