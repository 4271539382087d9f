use std::ops::ControlFlow;
use std::rc::Rc;

use nakati::common::{GraphemeClass, OptionalResult, Span};
use nakati::source::{Source, SourceId, Sources};

fn span_over(text: &str) -> Span {
    Span::new(Rc::new(Source::new("<test>", text)))
}

#[test]
fn source_splits_into_graphemes() {
    let s = Source::new("file", "e\u{301}x🦀\r\n");
    assert_eq!(s.graphemes, vec!["e\u{301}", "x", "🦀", "\r\n"]);
    assert_eq!(s.name, "file");
}

#[test]
fn span_moves_over_lines() {
    let mut span = span_over("ab\ncd");
    span.bump("ab\nc");
    assert_eq!((span.end, span.end_char, span.end_line, span.end_column, span.end_grapheme), (4, 4, 1, 1, 4));
    assert_eq!(span.content(), "ab\nc");
    span.release();
    assert_eq!(span.content(), "");
    assert_eq!(span.describe(), "<2:2 length 0>");
}

#[test]
fn span_has_looks_at_graphemes_ahead() {
    let mut span = span_over("// x");
    assert!(span.has("//"));
    assert!(span.has("/"));
    assert!(!span.has("// y"));
    span.bump_cur();
    assert!(span.has("/ x"));
    assert_eq!(span.cur().map(|g| g.as_str()), Some("/"));
}

#[test]
fn span_runs_over_a_class_of_graphemes() {
    let mut span = span_over("abc1 def");
    span.bump_while_class(GraphemeClass::Alphanumeric);
    assert_eq!(span.content(), "abc1");
    span.skip_while_class(GraphemeClass::Whitespace);
    assert_eq!(span.start_char, 5);
    span.bump_while_class(GraphemeClass::Digit);
    assert_eq!(span.content(), "");
}

#[test]
fn span_runs_while_a_predicate_holds() {
    let mut span = span_over("aaab🦀c");
    span.bump_while(|g: &str| g == "a");
    assert_eq!(span.content(), "aaa");
    span.skip_while(|g: &str| g == "b" || g == "🦀");
    assert_eq!(span.start_char, 5);
    assert_eq!(span.start, 8);
    assert_eq!(span.cur().map(|g| g.as_str()), Some("c"));
    span.bump_while(|_: &str| true);
    assert_eq!(span.content(), "c");
}

#[test]
fn span_fit_widens_to_cover_both() {
    let mut a = span_over("hello world");
    a.bump("hello");
    let mut b = a.copy();
    b.release();
    b.bump(" world");
    a.fit(&b);
    assert_eq!(a.content(), "hello world");
    assert!(a == a.copy());
}

#[test]
fn new_string_covers_the_whole_text() {
    let s = Span::new_string("héllo");
    assert_eq!(s.content(), "héllo");
    assert_eq!(s.end, 6);
    assert_eq!(s.end_column, 6);
    assert_eq!(s.end_char, 5);
    assert_eq!(s.end_grapheme, 5);
    assert_eq!(s.describe(), "<1:1 length 6>");
    let one = Span::new_string("é");
    assert_eq!((one.start, one.end), (0, 2));
}

#[test]
fn optional_result_conversions() {
    let v: OptionalResult<i32, String> = OptionalResult::Value(3);
    let e: OptionalResult<i32, String> = OptionalResult::Error("bad".to_string());
    let n: OptionalResult<i32, String> = OptionalResult::Empty;
    assert!(v.is_ok() && !v.is_error() && !v.is_none());
    assert!(e.is_error() && n.is_none());
    assert_eq!(v.clone().as_result(), Ok(3));
    assert_eq!(e.clone().as_result(), Err("bad".to_string()));
    assert_eq!(v.clone().as_option(), Some(3));
    assert_eq!(n.clone().as_option(), None);
    assert_eq!(v.clone().map(|x| x * 2), OptionalResult::Value(6));
    assert_eq!(e.clone().unwrap_or(7), 7);
    assert_eq!(n.clone().unwrap_or(8), 8);
    assert_eq!(v.clone().unwrap(), 3);
    assert_eq!(OptionalResult::<i32, String>::from_option(None), OptionalResult::Empty);
    assert_eq!(OptionalResult::<i32, String>::from_result(Ok(1)), OptionalResult::Value(1));
    assert_eq!(v.as_ref(), OptionalResult::Value(&3));
}

#[test]
fn sources_are_found_by_id_and_path() {
    let mut sources = Sources::new();
    let a = Source::new("a.nak", "fn a() {}").register(&mut sources);
    let b = sources.add(Source::new("b.nak", "fn b() {}"));
    assert_eq!(a, SourceId(0));
    assert_eq!(b, SourceId(1));
    assert_eq!(b.get(&sources).body, "fn b() {}");
    assert_eq!(sources.get_by_path("a.nak").map(|s| s.body.as_str()), Some("fn a() {}"));
    assert!(sources.get_by_path("c.nak").is_none());
    assert!(sources.get(SourceId(2)).is_none());
}

#[test]
fn span_length_counts_utf8_bytes() {
    let mut span = span_over("é🦀x");
    span.bump("é🦀");
    assert_eq!(span.content(), "é🦀");
    assert_eq!((span.end, span.end_char), (6, 2));
    assert_eq!(span.describe(), "<1:1 length 6>");
}

#[test]
fn bumping_advances_by_what_was_consumed() {
    let mut span = span_over("a\u{e9}\nb\u{1F980}c");
    span.bump("a\u{e9}");
    let before = span.copy();
    span.bump("\nb\u{1F980}");
    assert_eq!(span.end, before.end + 6);
    assert_eq!(span.end_char, before.end_char + 3);
    assert_eq!(span.end_grapheme, before.end_grapheme + 3);
    assert_eq!(span.end_line, before.end_line + 1);
    assert_eq!(span.content(), "a\u{e9}\nb\u{1F980}");
    assert_eq!((span.start, span.start_char), (0, 0));
    let mut accent = span_over("e\u{301}x");
    accent.bump_cur();
    assert_eq!(accent.end_grapheme, 2);
    assert_eq!(accent.end, 3);
}

#[test]
fn optional_results_branch_like_the_question_mark() {
    let v: OptionalResult<i32, String> = OptionalResult::from_value(3);
    assert!(matches!(v.branch(), ControlFlow::Continue(3)));
    let e: OptionalResult<i32, String> = OptionalResult::Error("bad".to_string());
    match e.branch() {
        ControlFlow::Break(OptionalResult::Error(m)) => assert_eq!(m, "bad"),
        _ => panic!("expected to stop with the error"),
    }
    let n: OptionalResult<i32, String> = OptionalResult::Empty;
    assert!(matches!(n.branch(), ControlFlow::Break(OptionalResult::Empty)));
    assert!(matches!(OptionalResult::<i32, String>::from_output(7), OptionalResult::Value(7)));
    assert!(matches!(
        OptionalResult::<i32, String>::from_residual(OptionalResult::Empty),
        OptionalResult::Empty
    ));
}

#[test]
fn a_registered_source_is_fetched_after_later_ones() {
    let mut sources = Sources::new();
    sources.add(Source::new("first.nak", "1"));
    let id = Source::new("kept.nak", "fn kept() {}").register(&mut sources);
    for i in 0..5 {
        sources.add(Source::new(format!("later{}.nak", i).as_str(), "fn later() {}"));
    }
    assert_eq!(id, SourceId(1));
    let fetched = id.get(&sources);
    assert_eq!(fetched.name, "kept.nak");
    assert_eq!(fetched.body, "fn kept() {}");
    assert_eq!(fetched.graphemes.concat(), fetched.body);
    assert_eq!(sources.get(id).map(|s| s.name.as_str()), Some("kept.nak"));
}
