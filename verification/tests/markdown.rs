use groot::markdown::parse_markdown;

#[test]
fn renders_heading() {
    let html = parse_markdown("# Hello".to_string()).unwrap();
    assert!(html.contains("<h1>Hello</h1>"), "got: {html}");
}

#[test]
fn renders_code_block() {
    let html = parse_markdown("```\nlet x = 1;\n```".to_string()).unwrap();
    assert!(html.contains("<pre><code>"), "got: {html}");
}

#[test]
fn strips_script_tags() {
    let html = parse_markdown("<script>alert('x')</script>".to_string()).unwrap();
    assert!(!html.contains("<script>"), "got: {html}");
}

#[test]
fn renders_tables_and_strikethrough() {
    let html = parse_markdown("| a | b |\n|---|---|\n| 1 | 2 |\n\n~~gone~~".to_string()).unwrap();
    assert!(html.contains("<table>"), "got: {html}");
    assert!(html.contains("<td>1</td>"), "got: {html}");
    assert!(html.contains("<del>gone</del>"), "got: {html}");
}

#[test]
fn strips_event_handlers() {
    let html = parse_markdown("<img src=\"x.png\" onerror=\"alert(1)\">".to_string()).unwrap();
    assert!(!html.contains("onerror"), "got: {html}");
    assert!(html.contains("<img"), "got: {html}");
}

#[test]
fn empty_markdown_is_empty_html() {
    assert_eq!(parse_markdown(String::new()).unwrap(), "");
}

#[test]
fn strips_nested_and_attribute_scripts() {
    let html = parse_markdown("<p title=\"<script>x</script>\">a</p><SCRIPT>b</SCRIPT>".to_string()).unwrap();
    assert!(!html.contains("<script"), "got: {html}");
}
