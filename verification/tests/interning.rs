use line_highlight::highlight::{HighlightState, Internal};
use line_highlight::style::{Color, Style};

fn style(r: u8, g: u8, b: u8) -> Style {
    Style {
        foreground: Color { r, g, b, a: 255 },
        background: Color { r: 255, g: 255, b: 255, a: 255 },
        font_style: 0,
    }
}

fn fresh_internal() -> Internal {
    Internal { parse_state: Vec::new(), styles: Vec::new(), new_styles: None }
}

#[test]
fn identifiers_are_sequential_in_first_seen_order() {
    let mut st = fresh_internal();
    let a = style(1, 0, 0);
    let b = style(0, 1, 0);
    let c = style(0, 0, 1);
    assert_eq!(st.id_for_style(a), 0);
    assert_eq!(st.id_for_style(b), 1);
    assert_eq!(st.id_for_style(a), 0);
    assert_eq!(st.id_for_style(c), 2);
    assert_eq!(st.styles, vec![a, b, c]);
}

#[test]
fn resubmitting_a_seen_style_leaves_pending_unchanged() {
    let mut st = fresh_internal();
    let a = style(9, 9, 9);
    let b = style(8, 8, 8);
    st.id_for_style(a);
    st.id_for_style(b);
    let pending_before = st.new_styles.clone();
    st.id_for_style(a);
    st.id_for_style(b);
    assert_eq!(st.new_styles, pending_before);
    assert_eq!(st.new_styles, Some(vec![(0, a), (1, b)]));
}

#[test]
fn drain_returns_pending_then_nothing() {
    let mut session = HighlightState::new().expect("session construction");
    assert_eq!(session.take_new_styles(), None);
    let a = style(3, 3, 3);
    let id = session.state.id_for_style(a);
    assert_eq!(id, 0);
    assert_eq!(session.take_new_styles(), Some(vec![(0, a)]));
    assert_eq!(session.take_new_styles(), None);
}

#[test]
fn session_construction_succeeds_with_builtin_resources() {
    let session = HighlightState::new().expect("session construction");
    assert_eq!(session.state.styles.len(), 0);
    assert_eq!(session.state.parse_state.len(), 0);
}
