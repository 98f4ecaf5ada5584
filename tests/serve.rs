use sitegen::watch::{triggers_rebuild, ChangeKind};
use sitegen::serve::{asset_path, content_type, inject_reload_script, is_html_file, RELOAD_SCRIPT};

#[test]
fn asset_paths_drop_leading_slashes() {
    assert_eq!(asset_path("dist", "/about/index.html"), "dist/about/index.html");
    assert_eq!(asset_path("dist", "//x.css"), "dist/x.css");
    assert_eq!(asset_path("dist", "/"), "dist/");
    assert_eq!(asset_path("dist/", "a"), "dist/a");
}

#[test]
fn html_files_by_extension() {
    assert!(is_html_file("dist/index.html"));
    assert!(is_html_file("dist/INDEX.HTML"));
    assert!(is_html_file("a.b/page.Html"));
    assert!(!is_html_file("dist/.html"));
    assert!(!is_html_file("dist/html"));
    assert!(!is_html_file("dist/page.htm"));
    assert!(!is_html_file("a.html/page"));
}

#[test]
fn content_types() {
    assert_eq!(content_type("dist/index.html"), "text/html; charset=utf-8");
    assert_eq!(content_type("dist/style.css"), "text/css");
    assert_eq!(content_type("dist/logo.png"), "image/png");
    assert_eq!(content_type("dist/blob"), "application/octet-stream");
}

#[test]
fn reload_script_is_appended() {
    let page = inject_reload_script("<p>hi</p>");
    assert!(page.starts_with("<p>hi</p>"));
    assert!(page.ends_with("</script>\n"));
    assert_eq!(page.len(), "<p>hi</p>".len() + RELOAD_SCRIPT.len());
    assert!(page.contains("new EventSource(\"/_sse\")"));
}

#[test]
fn only_writes_trigger_rebuilds() {
    assert!(triggers_rebuild(ChangeKind::Create));
    assert!(triggers_rebuild(ChangeKind::Modify));
    assert!(triggers_rebuild(ChangeKind::Remove));
    assert!(!triggers_rebuild(ChangeKind::Access));
    assert!(!triggers_rebuild(ChangeKind::Other));
}
