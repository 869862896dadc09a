use groot::export::wrap_html;

#[test]
fn wrap_html_is_standalone_and_light() {
    let out = wrap_html(".stx-keyword{color:#b5841f}", "<h1>Hi</h1>");
    assert!(out.contains("<!doctype html>"), "got: {out}");
    assert!(out.contains(".stx-keyword{color:#b5841f}"));
    assert!(out.contains("<h1>Hi</h1>"));
    assert!(out.contains("class=\"markdown-body\""));
    assert!(!out.contains("data-theme"));
}

#[test]
fn wrap_html_exact_document() {
    let out = wrap_html("a{}", "<p>x</p>");
    assert_eq!(
        out,
        "<!doctype html>\n<html lang=\"en\">\n<head>\n<meta charset=\"UTF-8\" />\n<style>\na{}\n</style>\n</head>\n<body class=\"markdown-body\">\n<p>x</p>\n</body>\n</html>\n"
    );
}

#[test]
fn wrap_html_empty_parts() {
    let out = wrap_html("", "");
    assert!(out.starts_with("<!doctype html>"));
    assert!(out.ends_with("</html>\n"));
    assert!(out.contains("<style>\n\n</style>"));
}
