use zed::error::AppError;
use zed::files::{check, display_name, extension_of, safe_rel, save_plan, MAX_SOURCE_BYTES};

#[test]
fn uploads_are_checked() {
    assert_eq!(check("Scan.PDF", b"%PDF").unwrap(), "pdf");
    assert_eq!(check("notes", b"x").unwrap(), "");
    match check("virus.exe", b"MZ") {
        Err(AppError::BadRequest(m)) => assert!(m.contains("нельзя")),
        other => panic!("{other:?}"),
    }
    let big = vec![0u8; MAX_SOURCE_BYTES + 1];
    match check("a.txt", &big) {
        Err(AppError::BadRequest(m)) => assert_eq!(m, "файл больше 20 МБ"),
        other => panic!("{other:?}"),
    }
    assert!(check("a.txt", &big[..MAX_SOURCE_BYTES]).is_ok());
    assert_eq!(extension_of("dir/a.tar.GZ"), "gz");
}

#[test]
fn uploads_are_placed() {
    let p = save_plan("files", "d1", "scan.pdf", " application/pdf ", b"%PDF-1.4 demo").unwrap();
    assert_eq!(p.rel, "files/d1/original.pdf");
    assert_eq!(p.display, "scan.pdf");
    assert_eq!(p.mime, "application/pdf");
    let p = save_plan("templates", "t1", "dir/README", "  ", b"x").unwrap();
    assert_eq!(p.rel, "templates/t1/original");
    assert_eq!(p.display, "README");
    assert_eq!(p.mime, "application/octet-stream");
    assert!(save_plan("files", "d1", "virus.exe", "", b"MZ").is_err());
}

#[test]
fn stored_paths_are_checked() {
    assert!(safe_rel("files/d1/original.pdf"));
    assert!(!safe_rel(""));
    assert!(!safe_rel("/etc/passwd"));
    assert!(!safe_rel("files/../../x"));
}

#[test]
fn shown_names_are_cut() {
    let long = format!("{}.txt", "я".repeat(200));
    assert_eq!(display_name(&long).chars().count(), 180);
    assert_eq!(display_name("a/b/c.txt"), "c.txt");
    assert_eq!(display_name(""), "file");
}

#[test]
fn extensions_follow_the_last_dot_of_the_file_name() {
    assert_eq!(extension_of("report.DOCX"), "docx");
    assert_eq!(extension_of(".bashrc"), "");
    assert_eq!(extension_of(".hidden.TXT"), "txt");
    assert_eq!(extension_of("noext"), "");
    assert_eq!(extension_of("x."), "");
    assert_eq!(extension_of("dir.d/file"), "");
    assert_eq!(extension_of(".."), "");
    assert_eq!(extension_of(""), "");
}
