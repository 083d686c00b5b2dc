//! Unit tests for the building blocks: escaping, metadata fields,
//! parameters, the text processors, and the HTML builder.

use pastex::chars::str_eq;
use pastex::document::process_stream;
use pastex::document::Block;
use pastex::document::BlockFormat;
use pastex::document::ProcessError;
use pastex::document::Field;
use pastex::document::Span;
use pastex::document::SpanFormat;
use pastex::document::process_fragment;
use pastex::engine::EngineError;
use pastex::engine::InlineTextProcessor;
use pastex::engine::PreserveTextProcessor;
use pastex::engine::TextProcessor;
use pastex::html::escape_text;
use pastex::html::Fragment;
use pastex::html::HtmlDocument;
use pastex::html::IntoElementBox;
use pastex::html::RawHTML;
use pastex::html::Tag;
use pastex::html::TagName;
use pastex::output::span;
use pastex::parser::document;
use pastex::parser::Element as SyntaxElement;
use pastex::parser::ParamValue;
use pastex::parser::ParseError;

#[test]
fn escape_turns_specials_into_entities() {
    assert_eq!(escape_text("a<b>&\"'"), "a&lt;b&gt;&amp;&quot;&#39;");
    assert_eq!(escape_text("plain"), "plain");
    assert_eq!(escape_text(""), "");
}

#[test]
fn keyword_field_splits_and_trims() {
    let v: Vec<String> = Field::from_text("rust, markup ,  web");
    assert_eq!(v, vec!["rust", "markup", "web"]);
    assert!(v.is_set());
}

#[test]
fn keyword_field_keeps_empty_pieces() {
    let v: Vec<String> = Field::from_text("a,");
    assert_eq!(v, vec!["a", ""]);
}

#[test]
fn string_field_keeps_text() {
    let v: Option<String> = Field::from_text("  spaced  ");
    assert_eq!(v, Some("  spaced  ".to_owned()));
    assert!(v.is_set());
    let empty: Option<String> = None;
    assert!(!empty.is_set());
}

#[test]
fn bool_field_sets_and_never_reports() {
    let v: bool = Field::from_text("anything");
    assert!(v);
    assert!(!v.is_set());
}

#[test]
fn str_eq_compares_contents() {
    assert!(str_eq("abc", "abc"));
    assert!(!str_eq("abc", "abd"));
    assert!(!str_eq("abc", "ab"));
    assert!(str_eq("", ""));
}

#[test]
fn params_bare_text_and_stream_forms() {
    let stream = document("\\x[flag, to=https://e.com, ev = {in \\strong{y}}]{}").unwrap();
    match &stream[0] {
        SyntaxElement::Command(c) => {
            assert_eq!(c.params.len(), 3);
            assert_eq!(c.params[0].name, "flag");
            assert!(matches!(c.params[0].value, ParamValue::Flag));
            assert_eq!(c.params[1].name, "to");
            match &c.params[1].value {
                ParamValue::Text(t) => assert_eq!(t, "https://e.com"),
                _ => panic!("expected a textual value"),
            }
            assert_eq!(c.params[2].name, "ev");
            match &c.params[2].value {
                ParamValue::Stream(s) => assert_eq!(s.len(), 2),
                _ => panic!("expected a stream value"),
            }
        },
        _ => panic!("expected a command"),
    }
}

#[test]
fn namespaced_command_name() {
    let stream = document("\\meta:title{x}").unwrap();
    match &stream[0] {
        SyntaxElement::Command(c) => {
            assert_eq!(c.name, "title");
            assert_eq!(c.namespace.as_deref(), Some("meta"));
            let a = c.command_name();
            let b = c.command_name();
            assert!(a.same(&b));
        },
        _ => panic!("expected a command"),
    }
}

#[test]
fn metadata_fields_are_collected() {
    let stream =
        document("\\meta:title{T}\\meta:author{A}\\meta:date{D}\\meta:tags{x, y}\\meta:draft\n\nBody.")
            .unwrap();
    let doc = process_stream(stream).unwrap();
    assert_eq!(doc.metadata.title, Some("T".to_owned()));
    assert_eq!(doc.metadata.author, Some("A".to_owned()));
    assert_eq!(doc.metadata.date, Some("D".to_owned()));
    assert_eq!(doc.metadata.keywords, vec!["x", "y"]);
    assert!(doc.metadata.draft);
    assert!(doc.metadata.abstract_blocks.is_none());
}

#[test]
fn repeated_metadata_last_write_wins() {
    let stream = document("\\meta:title{First}\\meta:title{Second}\n\nx").unwrap();
    let doc = process_stream(stream).unwrap();
    assert_eq!(doc.metadata.title, Some("Second".to_owned()));
}

#[test]
fn metadata_with_commands_is_fatal() {
    let stream = document("\\meta:title{\\strong{x}}").unwrap();
    let r = process_stream(stream);
    assert!(matches!(r, Err(EngineError::MetadataNonTextContent)));
}

#[test]
fn link_without_to_is_fatal() {
    let stream = document("\\link{x}").unwrap();
    let r = process_stream(stream);
    assert!(matches!(r, Err(EngineError::MissingRequiredParam)));
}

#[test]
fn stray_closing_brace_is_extra_trailing() {
    assert!(matches!(document("oops}"), Err(ParseError::ExtraTrailing)));
}

#[test]
fn unclosed_content_is_fatal() {
    assert!(matches!(document("\\foo{bar"), Err(ParseError::UnclosedBlock)));
}

#[test]
fn unclosed_block_is_fatal() {
    assert!(matches!(document("\\begin{x}yo"), Err(ParseError::UnclosedBlock)));
}

#[test]
fn bad_sigil_is_malformed() {
    assert!(matches!(document("\\ "), Err(ParseError::MalformedCommand)));
}

#[test]
fn end_without_begin_is_mismatched() {
    assert!(matches!(document("\\end{x}"), Err(ParseError::MismatchedBlock)));
}

#[test]
fn inline_processor_collapses_whitespace() {
    let spans = InlineTextProcessor::process("a  b");
    assert_eq!(spans.len(), 3);
    match (&spans[0], &spans[1], &spans[2]) {
        (Span::Text(a), Span::Text(sp), Span::Text(b)) => {
            assert_eq!(a, "a");
            assert_eq!(sp, " ");
            assert_eq!(b, "b");
        },
        _ => panic!("expected three text spans"),
    }
}

#[test]
fn preserve_processor_drops_leading_newlines() {
    let spans = PreserveTextProcessor::process("\n\n  kept \n");
    assert_eq!(spans.len(), 1);
    match &spans[0] {
        Span::Text(t) => assert_eq!(t, "  kept \n"),
        _ => panic!("expected one text span"),
    }
}

#[test]
fn line_break_renders_self_closing() {
    let e = span(&Span::LineBreak);
    assert_eq!(e.to_text(), "<br />");
}

#[test]
fn span_raw_renders_verbatim() {
    let e = span(&Span::Raw("<hr>".to_owned()));
    assert_eq!(e.to_text(), "<hr>");
}

#[test]
fn span_link_renders_href() {
    let e = span(&Span::Format(
        SpanFormat::Link { to: "x".to_owned(), blank: false },
        vec![Span::Text("y".to_owned())],
    ));
    assert_eq!(e.to_text(), "<a href=\"x\">y</a>");
}

#[test]
fn tag_builder_renders_attributes_in_order() {
    let t = Tag::build(
        TagName::Div,
        vec![("id".to_owned(), "a".to_owned()), ("class".to_owned(), "b".to_owned())],
        vec!["hi".to_owned().into_element_box()],
    );
    assert_eq!(t.into_element_box().to_text(), "<div id=\"a\" class=\"b\">hi</div>");
}

#[test]
fn empty_fragment_renders_nothing() {
    assert_eq!(Fragment::empty().to_text(), "");
}

#[test]
fn fragment_concatenates_children() {
    let f = Fragment::from(vec![
        "a&".to_owned().into_element_box(),
        RawHTML::from("<x>".to_owned()).into_element_box(),
    ]);
    assert_eq!(f.to_text(), "a&amp;<x>");
}

#[test]
fn html_document_renders_doctype() {
    let d = HtmlDocument(Tag::build(TagName::Html, Vec::new(), Vec::new()));
    assert_eq!(d.to_text(), "<!DOCTYPE html>\n<html />");
}

#[test]
fn process_fragment_builds_one_paragraph() {
    let blocks = process_fragment("hi \\strong{x}").unwrap();
    assert_eq!(blocks.len(), 1);
    let Block(_, spans) = &blocks[0];
    assert_eq!(spans.len(), 3);
}

#[test]
fn closing_brace_is_text_inside_blocks() {
    let stream = document("\\begin{x}a}b\\end{x}").unwrap();
    match &stream[0] {
        SyntaxElement::Command(c) => {
            assert_eq!(c.content.len(), 3);
        },
        _ => panic!("expected a command"),
    }
}

#[test]
fn empty_input_parses_to_empty_stream() {
    let stream = document("").unwrap();
    assert!(stream.is_empty());
    let doc = process_stream(stream).unwrap();
    assert!(doc.outline.is_empty());
}

#[test]
fn output_fragment_renders_blocks_flat() {
    let stream = document("one\n\ntwo").unwrap();
    let doc = process_stream(stream).unwrap();
    let fragment = pastex::output::output_fragment(&doc.outline);
    assert_eq!(fragment.to_text(), "<p>one</p><p>two</p>");
}

#[test]
fn output_pair_has_no_abstract() {
    let stream = document("x").unwrap();
    let doc = process_stream(stream).unwrap();
    let (outline, abstract_fragment) = pastex::output::output(&doc);
    assert_eq!(outline.to_text(), "<p>x</p>");
    assert!(abstract_fragment.is_none());
}

#[test]
fn out_of_range_heading_is_rejected() {
    let bad = Block(BlockFormat::Heading(7), vec![Span::Text("x".to_owned())]);
    assert!(!bad.well_formed());
    let good = Block(BlockFormat::Heading(2), vec![Span::Text("x".to_owned())]);
    assert!(good.well_formed());
}

#[test]
fn process_fragment_reports_parse_errors() {
    let r = process_fragment("oops}");
    assert!(matches!(r, Err(ProcessError::Parse(ParseError::ExtraTrailing))));
}
