use richdoc::render::{escape_html, escape_html_attr, math_to_html, mermaid_to_html};

#[test]
fn html_escaping_covers_all_specials() {
    assert_eq!(escape_html("<a href=\"x\">&'"), "&lt;a href=&quot;x&quot;&gt;&amp;&#39;");
    assert_eq!(escape_html_attr("a&b"), "a&amp;b");
    assert_eq!(escape_html("plain"), "plain");
}

#[test]
fn mermaid_page_embeds_escaped_source_and_colors() {
    let html = mermaid_to_html("graph TD; A-->B", "#000000", "#ffffff").unwrap();
    assert!(html.contains("graph TD; A--&gt;B"));
    assert!(html.contains("color: #000000"));
    assert!(html.contains("background: #ffffff"));
    assert!(html.starts_with("<!DOCTYPE html>"));
    assert!(html.ends_with("</html>"));
}

#[test]
fn math_rendering_produces_markup() {
    // The typesetter returns real markup for a well-formed formula; a
    // garbage formula surfaces a Markdown-side error.
    match math_to_html("x^2", false) {
        Ok(html) => {
            assert!(!html.is_empty());
            assert!(html.contains("katex"));
        },
        Err(e) => panic!("expected rendered math, got {:?}", e),
    }
    match math_to_html("\\undefinedmacro{", true) {
        Err(richdoc::ParseError::MarkdownError(_)) => {},
        other => panic!("expected a Markdown-side error, got {:?}", other),
    }
}
