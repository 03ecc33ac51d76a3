use line_highlight::ext::{spans_to_vec, text_from_str};
use line_highlight::highlight::HighlightState;

#[test]
fn empty_text_yields_no_spans_and_no_line_state() {
    let mut session = HighlightState::new().expect("session construction");
    let text = text_from_str("");
    let spans = session.highlight_all(&text);
    assert_eq!(spans_to_vec(&spans), Vec::new());
    assert!(session.metadata_for_line(0).is_none());
    assert_eq!(session.state.parse_state.len(), 0);
}

#[test]
fn plain_line_becomes_one_span_with_the_first_identifier() {
    let mut session = HighlightState::new().expect("session construction");
    let text = text_from_str("hello");
    let spans = spans_to_vec(&session.highlight_all(&text));
    assert_eq!(spans, vec![(0, 5, 0)]);
    let new_styles = session.take_new_styles().expect("one new style");
    assert_eq!(new_styles.len(), 1);
    assert_eq!(new_styles[0].0, 0);
}

#[test]
fn highlighting_is_deterministic_across_fresh_sessions() {
    let source = "fn main() {\n    let x = \"hi\";\n}\n";
    let mut first = HighlightState::new().expect("session construction");
    let mut second = HighlightState::new().expect("session construction");
    let text = text_from_str(source);
    let spans_first = spans_to_vec(&first.highlight_all(&text));
    let spans_second = spans_to_vec(&second.highlight_all(&text));
    assert_eq!(spans_first, spans_second);
    assert_eq!(first.take_new_styles(), second.take_new_styles());
    assert_eq!(first.state.styles, second.state.styles);
}

#[test]
fn spans_are_ordered_disjoint_and_in_bounds() {
    let source = "use std::io;\n\nfn main() {\n    // comment\n    let s = \"str\";\n}\n";
    let mut session = HighlightState::new().expect("session construction");
    let text = text_from_str(source);
    let spans = spans_to_vec(&session.highlight_all(&text));
    assert!(!spans.is_empty());
    for &(start, end, id) in &spans {
        assert!(start < end);
        assert!(end <= source.len());
        assert!(id < session.state.styles.len());
    }
    for pair in spans.windows(2) {
        assert!(pair[0].1 <= pair[1].0);
    }
}

#[test]
fn repeated_pass_keeps_the_style_table() {
    let source = "fn main() {}\n";
    let mut session = HighlightState::new().expect("session construction");
    let text = text_from_str(source);
    let first = spans_to_vec(&session.highlight_all(&text));
    let table_after_first = session.state.styles.clone();
    let drained = session.take_new_styles();
    assert!(drained.is_some());
    let second = spans_to_vec(&session.highlight_all(&text));
    assert_eq!(first, second);
    assert_eq!(session.state.styles, table_after_first);
    // No style is new the second time around.
    assert_eq!(session.take_new_styles(), None);
}

#[test]
fn missing_grammar_yields_no_spans() {
    let mut session = HighlightState::new().expect("session construction");
    let empty_set = syntect::parsing::SyntaxSet::new();
    let text = text_from_str("fn main() {}\n");
    let spans = session.state.highlight_all(&text, &empty_set, &session.theme);
    assert_eq!(spans_to_vec(&spans), Vec::new());
}

#[test]
fn char_boundaries_of_multibyte_text_are_reported() {
    let text = line_highlight::ext::text_from_str("é");
    assert!(line_highlight::ext::is_char_boundary(&text, 0));
    assert!(!line_highlight::ext::is_char_boundary(&text, 1));
    assert!(line_highlight::ext::is_char_boundary(&text, 2));
}

#[test]
fn multibyte_text_is_highlighted_in_bounds() {
    let source = "let s = \"h\u{e9}llo\";\n// caf\u{e9}\n";
    let mut session = HighlightState::new().expect("session construction");
    let text = text_from_str(source);
    let spans = spans_to_vec(&session.highlight_all(&text));
    assert!(!spans.is_empty());
    for &(start, end, _) in &spans {
        assert!(start < end && end <= source.len());
        assert!(source.is_char_boundary(start) && source.is_char_boundary(end));
    }
    for pair in spans.windows(2) {
        assert!(pair[0].1 <= pair[1].0);
    }
}

#[test]
fn metadata_is_present_per_processed_line_and_absent_past_the_end() {
    let mut session = HighlightState::new().expect("session construction");
    let text = text_from_str("fn a() {}\nfn b() {}\n");
    session.highlight_all(&text);
    assert_eq!(session.state.parse_state.len(), 2);
    assert!(session.metadata_for_line(0).is_some());
    assert!(session.metadata_for_line(1).is_some());
    assert!(session.metadata_for_line(2).is_none());
    assert!(session.metadata_for_line(100).is_none());
}
