use zed::api::content_disposition;
use zed::db::{column_additions, upgraded_table_names};
use zed::error::AppError;
use zed::modules::{catalog, info, module_status};
use zed::printjob::{print_docx, word_print_error, word_print_script};
use zed::web::{asset_path, falls_back_to_index};

#[test]
fn download_header_is_ascii() {
    let h: String = content_disposition("Приказ 1.pdf").into_iter().collect();
    assert_eq!(
        h,
        "attachment; filename=\"_______1.pdf\"; filename*=UTF-8''%D0%9F%D1%80%D0%B8%D0%BA%D0%B0%D0%B7%201.pdf"
    );
    assert!(h.chars().all(|c| (' '..='~').contains(&c)));
}

#[test]
fn old_tables_get_their_columns_once() {
    assert_eq!(upgraded_table_names(), vec!["instance", "templates", "template_fields", "documents"]);
    let have = vec!["id".to_string(), "name".to_string(), "source_name".to_string()];
    assert_eq!(
        column_additions("templates", &have),
        vec![
            "ALTER TABLE templates ADD COLUMN body TEXT NOT NULL DEFAULT ''".to_string(),
            "ALTER TABLE templates ADD COLUMN source_mime TEXT".to_string(),
            "ALTER TABLE templates ADD COLUMN source_path TEXT".to_string(),
        ]
    );
    let all: Vec<String> = ["config_json", "fill_mode"].iter().map(|s| s.to_string()).collect();
    assert!(column_additions("template_fields", &all).is_empty());
    assert!(column_additions("other", &vec![]).is_empty());
}

#[test]
fn modules_catalogue() {
    let c = catalog();
    assert_eq!(c.len(), 2);
    assert_eq!(c[0].id, "employees");
    assert_eq!(info("archive").unwrap().name, "Архив");
    assert!(matches!(info("libreoffice"), Err(AppError::NotFound)));
    let st = module_status(&c[1], true, Some("2026-01-01T00:00:00Z".into()));
    assert_eq!((st.id.as_str(), st.enabled, st.available), ("archive", true, false));
}

#[test]
fn printing_through_word() {
    match print_docx("a.docx") {
        Err(AppError::BadRequest(m)) => {
            assert_eq!(m, "отправка в Word есть только на Windows. Распечатайте предпросмотр")
        }
        other => panic!("{other:?}"),
    }
    let script: String = word_print_script("C:\\O'Brien\\a.docx").into_iter().collect();
    assert!(script.contains("$doc = $word.Documents.Open('C:\\O''Brien\\a.docx', $false, $true)"), "{script}");
    assert!(script.starts_with("\n$ErrorActionPreference = 'Stop'\n"));
    assert_eq!(word_print_error(b"  ").to_string(), "Word не принял печать");
    assert_eq!(word_print_error(b" boom \n").to_string(), "Word: boom");
    assert!(word_print_error(b"Retrieving the COM class factory failed").to_string().starts_with("Word не установлен"));
    assert!(word_print_error(b"error 80040154").to_string().starts_with("Word не установлен"));
}

#[test]
fn web_assets() {
    assert_eq!(asset_path("/"), "index.html");
    assert_eq!(asset_path("//app.js"), "app.js");
    assert!(falls_back_to_index("templates/5"));
    assert!(!falls_back_to_index("missing.png"));
}

#[test]
fn modules_switched_by_name() {
    let plan = zed::modules::switch_plan(&vec!["archive".to_string(), "unknown".to_string()]);
    let got: Vec<_> = plan.iter().map(|(m, on)| (m.id, *on)).collect();
    assert_eq!(got, vec![("employees", false), ("archive", true)]);
}
