//! End-to-end scenarios: source text in, HTML text out.

use pastex::document::process_stream;
use pastex::output::output_document;
use pastex::parser::document;
use pastex::parser::Element;
use pastex::parser::ParseError;

fn render(src: &str) -> String {
    let stream = document(src).unwrap();
    let doc = process_stream(stream).unwrap();
    assert!(doc.well_formed());
    output_document(&doc).to_text()
}

#[test]
fn hello_world_paragraph() {
    let html = render("Hello, world.");
    assert!(html.contains("<p>Hello, world.</p>"));
}

#[test]
fn strong_inside_paragraph() {
    let html = render("A \\strong{bold} word.");
    assert!(html.contains("<p>A <strong>bold</strong> word.</p>"));
}

#[test]
fn two_paragraphs_in_order() {
    let html = render("Para one.\n\nPara two.");
    let first = html.find("<p>Para one.</p>").unwrap();
    let second = html.find("<p>Para two.</p>").unwrap();
    assert!(first < second);
}

#[test]
fn title_metadata_and_body() {
    let html = render("\\meta:title{My doc}\n\nBody.");
    let title = html.find("<title>My doc</title>").unwrap();
    let body = html.find("<body>").unwrap();
    assert!(title < body);
    assert!(html.contains("<p>Body.</p>"));
    assert!(!html.contains("<p></p>"));
    assert!(!html.contains("<p />"));
}

#[test]
fn link_with_blank_target() {
    let html = render("\\link[to=https://example.com, blank]{Home}");
    assert!(html.contains(
        "<a href=\"https://example.com\" target=\"_blank\" rel=\"noopener noreferrer\">Home</a>"
    ));
}

#[test]
fn link_without_blank() {
    let html = render("\\link[to=https://example.com]{Home}");
    assert!(html.contains("<a href=\"https://example.com\">Home</a>"));
}

#[test]
fn code_block_form() {
    let html = render("\\begin{code}fn main() {}\\end{code}");
    assert!(html.contains("<pre><code class=\"code-block\">fn main() {}</code></pre>"));
}

#[test]
fn unknown_command_placeholder() {
    let html = render("\\nosuch{x}");
    assert!(html.contains("<p>[[unknown command nosuch]]</p>"));
}

#[test]
fn unknown_namespaced_command_placeholder() {
    let html = render("\\ns:nosuch{x}");
    assert!(html.contains("<p>[[unknown command ns:nosuch]]</p>"));
}

#[test]
fn mismatched_block_is_fatal() {
    let r = document("\\begin{foo}...\\end{bar}");
    assert!(matches!(r, Err(ParseError::MismatchedBlock)));
}

#[test]
fn text_is_escaped() {
    let html = render("<foo> & bar");
    assert!(html.contains("&lt;foo&gt; &amp; bar"));
    assert!(!html.contains("<foo>"));
}

#[test]
fn parse_twice_equal_trees() {
    let src = "a \\strong{b}\n\n\\begin{code}c\\end{code} % note";
    let first = document(src).unwrap();
    let second = document(src).unwrap();
    assert_eq!(format!("{:?}", first), format!("{:?}", second));
}

#[test]
fn block_flag_set_only_by_begin_end() {
    let stream = document("\\begin{code}x\\end{code}").unwrap();
    match &stream[0] {
        Element::Command(c) => assert!(c.block),
        _ => panic!("expected a command"),
    }
    let stream = document("\\code{x}").unwrap();
    match &stream[0] {
        Element::Command(c) => assert!(!c.block),
        _ => panic!("expected a command"),
    }
}

#[test]
fn heading_levels_shift_down() {
    assert!(render("\\head1{One}").contains("<h2>One</h2>"));
    assert!(render("\\head2{Two}").contains("<h3>Two</h3>"));
    assert!(render("\\head3{Three}").contains("<h4>Three</h4>"));
}

#[test]
fn doctype_prefix() {
    let html = render("x");
    assert!(html.starts_with("<!DOCTYPE html>\n"));
}

#[test]
fn raw_command_bypasses_escaping() {
    let html = render("\\raw{<b>hi</b>}");
    assert!(html.contains("<b>hi</b>"));
}

#[test]
fn inline_code_escapes_content() {
    let html = render("\\code{x<y}");
    assert!(html.contains("<code>x&lt;y</code>"));
}

#[test]
fn comments_are_dropped() {
    let html = render("x% hidden\ny");
    assert!(html.contains("<p>x y</p>"));
    assert!(!html.contains("hidden"));
}

#[test]
fn escaped_characters_are_literal() {
    let html = render("\\{\\}\\%\\\\");
    assert!(html.contains("<p>{}%\\</p>"));
}

#[test]
fn abstract_content_joins_outline() {
    let html = render("Body.\n\n\\begin{abstract}An overview.\\end{abstract}");
    assert!(html.contains("<p>Body.</p>"));
    assert!(html.contains("<p>An overview.</p>"));
}

#[test]
fn preserved_code_keeps_whitespace() {
    let html = render("\\begin{code}\nlet x = 1;\n  indented\n\\end{code}");
    assert!(html.contains("<pre><code class=\"code-block\">let x = 1;\n  indented\n</code></pre>"));
}

#[test]
fn whitespace_collapses_at_top_level() {
    let html = render("a \n b\t\tc");
    assert!(html.contains("<p>a   b c</p>"));
}

#[test]
fn head_holds_charset() {
    let html = render("x");
    assert!(html.contains("<meta charset=\"utf-8\" />"));
}

#[test]
fn blank_lines_make_no_empty_paragraphs() {
    let html = render("\n\nx\n\n");
    assert!(html.contains("<p>x</p>"));
    assert!(!html.contains("<p></p>"));
    assert!(!html.contains("<p />"));
}

#[test]
fn escaped_newline_collapses_to_space() {
    let html = render("a\\\nb");
    assert!(html.contains("<p>a b</p>"));
}

#[test]
fn begin_takes_parameters() {
    let stream = document("\\begin[wide]{code}x\\end{code}").unwrap();
    match &stream[0] {
        Element::Command(c) => {
            assert!(c.block);
            assert_eq!(c.params.len(), 1);
            assert_eq!(c.params[0].name, "wide");
        },
        _ => panic!("expected a command"),
    }
}

#[test]
fn unicode_text_survives_the_pipeline() {
    let html = render("caffè crème\n\nnaïve — ok");
    assert!(html.contains("<p>caffè crème</p>"));
    assert!(html.contains("<p>naïve — ok</p>"));
}

#[test]
fn unicode_unknown_command_named() {
    let html = render("\\métier{x}");
    assert!(html.contains("[[unknown command métier]]"));
}
