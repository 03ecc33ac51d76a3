//! Trusted declarations for the outside crates the engine is built on.
//!
//! The rope (the document text container), the selection set, the lexical
//! parser and theme engine, and the span collection live in outside crates.
//! Each value of those types is opaque here; what the engine's contracts need
//! of them is given a name by an uninterpreted spec function, and each outside
//! call goes through a small wrapper whose contract states only what the
//! outside crate's own source or documentation shows.

use crate::style::{Color, Style};
use vstd::prelude::*;

verus! {

/// The document text: an xi_rope rope held opaquely. Verus refuses the rope
/// type's own declaration (its tree node carries an outside trait bound), so
/// the engine holds it in a field it never looks into; everything the
/// contracts say of a text goes through the named spec functions below.
#[verifier::external_body]
pub struct Text {
    rope: xi_rope::Rope,
}

/// A finished span mapping: an xi_rope span collection over style
/// identifiers, held opaquely for the same reason as `Text`.
#[verifier::external_body]
pub struct StyleSpans {
    spans: xi_rope::spans::Spans<usize>,
}

#[verifier::external_type_specification]
#[verifier::external_body]
#[verifier::reject_recursive_types(T)]
pub struct ExSpansBuilder<T: Clone>(xi_rope::spans::SpansBuilder<T>);

#[verifier::external_type_specification]
#[verifier::external_body]
pub struct ExSelection(xi_core_lib::selection::Selection);

#[verifier::external_type_specification]
#[verifier::external_body]
pub struct ExSelRegion(xi_core_lib::selection::SelRegion);

#[verifier::external_type_specification]
#[verifier::external_body]
pub struct ExSyntaxSet(syntect::parsing::SyntaxSet);

#[verifier::external_type_specification]
#[verifier::external_body]
pub struct ExSyntaxReference(syntect::parsing::SyntaxReference);

#[verifier::external_type_specification]
#[verifier::external_body]
pub struct ExParseState(syntect::parsing::ParseState);

#[verifier::external_type_specification]
#[verifier::external_body]
pub struct ExScopeStack(syntect::parsing::ScopeStack);

#[verifier::external_type_specification]
#[verifier::external_body]
pub struct ExScopeStackOp(syntect::parsing::ScopeStackOp);

#[verifier::external_type_specification]
#[verifier::external_body]
pub struct ExParsingError(syntect::parsing::ParsingError);

#[verifier::external_type_specification]
#[verifier::external_body]
pub struct ExScopeError(syntect::parsing::ScopeError);

#[verifier::external_type_specification]
#[verifier::external_body]
pub struct ExTheme(syntect::highlighting::Theme);

#[verifier::external_type_specification]
#[verifier::external_body]
pub struct ExThemeSet(syntect::highlighting::ThemeSet);

#[verifier::external_type_specification]
#[verifier::external_body]
pub struct ExHighlighter<'a>(syntect::highlighting::Highlighter<'a>);

#[verifier::external_type_specification]
#[verifier::external_body]
pub struct ExScopedMetadata<'a>(syntect::parsing::ScopedMetadata<'a>);

/// The byte length of the rope.
pub uninterp spec fn rope_len_of(t: Text) -> usize;

/// Whether byte offset `off` lies on a character boundary of the text.
/// Offsets inside a multi-byte character are invalid to the rope: slicing or
/// line counting at one panics, so the wrappers below require this of their
/// offsets and state it of the boundaries they return.
pub uninterp spec fn char_boundary_of(t: Text, off: usize) -> bool;

/// The offset is safe to cut the text at: 0, the end of the text, or a
/// character boundary strictly inside it.
pub open spec fn cut_ok(t: Text, off: usize) -> bool {
    off == 0 || off == rope_len_of(t) || char_boundary_of(t, off)
}

/// The index of the line holding byte offset `off`: the count of newlines in
/// the rope before `off`.
pub uninterp spec fn line_index_of(t: Text, off: usize) -> usize;

/// The offset of the first line boundary strictly after `off`, if any.
pub uninterp spec fn next_break_of(t: Text, off: usize) -> Option<usize>;

/// The selection's regions, each as its (min, max) pair of byte offsets, in
/// document order.
pub uninterp spec fn regions_of(s: xi_core_lib::selection::Selection) -> Seq<(usize, usize)>;

/// Whether the grammar bundle holds a syntax with the given name.
pub uninterp spec fn syntax_set_has(ss: syntect::parsing::SyntaxSet, name: Seq<char>) -> bool;

/// Whether the theme bundle holds a theme stored under the given name.
pub uninterp spec fn theme_set_has(ts: syntect::highlighting::ThemeSet, name: Seq<char>) -> bool;

/// The (start, end, style identifier) spans added to the builder so far, in
/// insertion order.
pub uninterp spec fn builder_spans_of(b: xi_rope::spans::SpansBuilder<usize>) -> Seq<
    (usize, usize, usize),
>;

/// The total document length the builder was created with.
pub uninterp spec fn builder_len_of(b: xi_rope::spans::SpansBuilder<usize>) -> usize;

/// The (start, end, style identifier) spans held by the span collection, in
/// ascending offset order.
pub uninterp spec fn spans_of(s: StyleSpans) -> Seq<(usize, usize, usize)>;

/// Relies on xi_rope's `Rope::from`: a text holding the given string, so it
/// is empty exactly when the string is.
#[verifier::external_body]
pub fn text_from_str(s: &str) -> (r: Text)
    ensures
        rope_len_of(r) == 0 <==> s@.len() == 0,
{
    Text { rope: xi_rope::Rope::from(s) }
}

/// Relies on xi_rope's `Rope::len`: the length of the text in bytes.
#[verifier::external_body]
pub fn rope_len(t: &Text) -> (n: usize)
    ensures
        n == rope_len_of(*t),
{
    t.rope.len()
}

/// Relies on xi_rope's `Rope::is_codepoint_boundary`: whether `offset` lies
/// on a character boundary of the text.
#[verifier::external_body]
pub fn is_char_boundary(t: &Text, offset: usize) -> (r: bool)
    requires
        offset <= rope_len_of(*t),
    ensures
        r == char_boundary_of(*t, offset),
{
    t.rope.is_codepoint_boundary(offset)
}

/// Relies on xi_rope's `Cursor::next::<LinesMetric>`: from `offset`, the
/// position of the next line boundary, strictly after `offset` and at most
/// the rope's length, or `None` when no boundary remains.
#[verifier::external_body]
pub fn next_line_break(t: &Text, offset: usize) -> (r: Option<usize>)
    requires
        offset <= rope_len_of(*t),
    ensures
        r == next_break_of(*t, offset),
        r matches Some(b) ==> offset < b && b <= rope_len_of(*t) && char_boundary_of(*t, b),
{
    let mut cursor = xi_rope::Cursor::new(&t.rope, offset);
    cursor.next::<xi_rope::LinesMetric>()
}

/// Relies on xi_rope's `Rope::slice_to_cow`: the text of the byte range
/// `start..end`. It panics when the range is beyond the text or when an
/// endpoint falls inside a multi-byte character, so both are required here.
#[verifier::external_body]
pub fn rope_slice_string(t: &Text, start: usize, end: usize) -> String
    requires
        start <= end,
        end <= rope_len_of(*t),
        cut_ok(*t, start),
        cut_ok(*t, end),
{
    t.rope.slice_to_cow(start..end).into_owned()
}

/// Relies on xi_rope's `Rope::line_of_offset`: the 0-based index of the line
/// holding `offset`, documented as the count of newlines in the slice up to
/// `offset` — hence at most `offset` itself and nondecreasing in the offset.
/// It panics when `offset` is beyond the text or inside a multi-byte
/// character, so both are required here.
#[verifier::external_body]
pub fn line_of_offset(t: &Text, offset: usize) -> (r: usize)
    requires
        offset <= rope_len_of(*t),
        cut_ok(*t, offset),
    ensures
        r == line_index_of(*t, offset),
        r <= offset,
        forall|o: usize| o <= offset ==> #[trigger] line_index_of(*t, o) <= r,
{
    t.rope.line_of_offset(offset)
}

/// Relies on xi_core_lib's `Selection`: a selection derefs to its slice of
/// regions, kept under the documented invariant
/// `regions[i].max() <= regions[i+1].min()`; each is handed out as its
/// `(min(), max())` pair, so the pairs are ordered and each is ordered within
/// itself.
#[verifier::external_body]
pub fn selection_regions(sel: &xi_core_lib::selection::Selection) -> (v: Vec<(usize, usize)>)
    ensures
        v@ == regions_of(*sel),
        forall|i: int| 0 <= i < v@.len() ==> (#[trigger] v@[i]).0 <= v@[i].1,
        forall|i: int| 0 <= i + 1 < v@.len() ==> (#[trigger] v@[i]).1 <= v@[i + 1].0,
{
    sel.iter().map(|r| (r.min(), r.max())).collect()
}

/// Relies on syntect's `SyntaxSet::load_defaults_nonewlines`: the built-in
/// grammar bundle, for parsing lines with no trailing newline. The shipped
/// bundle holds the Rust syntax.
#[verifier::external_body]
pub fn load_syntax_set() -> (r: syntect::parsing::SyntaxSet)
    ensures
        syntax_set_has(r, "Rust"@),
{
    syntect::parsing::SyntaxSet::load_defaults_nonewlines()
}

/// Relies on syntect's `SyntaxSet::find_syntax_by_name`: a reference to the
/// syntax of that name, exactly when the set holds one.
#[verifier::external_body]
pub fn find_syntax<'a>(ss: &'a syntect::parsing::SyntaxSet, name: &str) -> (r: Option<
    &'a syntect::parsing::SyntaxReference,
>)
    ensures
        r is Some <==> syntax_set_has(*ss, name@),
{
    ss.find_syntax_by_name(name)
}

/// Relies on syntect's `ThemeSet::load_defaults`: the built-in theme bundle,
/// documented to hold the InspiredGitHub theme.
#[verifier::external_body]
pub fn load_theme_set() -> (r: syntect::highlighting::ThemeSet)
    ensures
        theme_set_has(r, "InspiredGitHub"@),
{
    syntect::highlighting::ThemeSet::load_defaults()
}

/// Relies on syntect's `ThemeSet`: its `themes` map hands over the theme
/// stored under `name`, exactly when one is stored there.
#[verifier::external_body]
pub fn take_theme(ts: &mut syntect::highlighting::ThemeSet, name: &str) -> (r: Option<
    syntect::highlighting::Theme,
>)
    ensures
        r is Some <==> theme_set_has(*old(ts), name@),
{
    ts.themes.remove(name)
}

/// Relies on syntect's `ParseState::new`: a fresh parser state for a grammar.
#[verifier::external_body]
pub fn parse_state_new(syntax: &syntect::parsing::SyntaxReference) -> syntect::parsing::ParseState {
    syntect::parsing::ParseState::new(syntax)
}

/// Relies on syntect's `ParseState::parse_line`: the scope transitions for one
/// line, as (offset within line, transition) pairs.
#[verifier::external_body]
pub fn parse_line(
    ps: &mut syntect::parsing::ParseState,
    line: &str,
    ss: &syntect::parsing::SyntaxSet,
) -> Result<Vec<(usize, syntect::parsing::ScopeStackOp)>, syntect::parsing::ParsingError> {
    ps.parse_line(line, ss)
}

/// Relies on syntect's `ScopeStack::new`: an empty scope stack.
#[verifier::external_body]
pub fn scope_stack_new() -> syntect::parsing::ScopeStack {
    syntect::parsing::ScopeStack::new()
}

/// Relies on syntect's `ScopeStack::is_empty`.
#[verifier::external_body]
pub fn stack_is_empty(s: &syntect::parsing::ScopeStack) -> bool {
    s.is_empty()
}

/// Relies on syntect's derived `Clone` for `ScopeStack`: the clone equals the
/// original.
#[verifier::external_body]
pub fn clone_stack(s: &syntect::parsing::ScopeStack) -> (r: syntect::parsing::ScopeStack)
    ensures
        r == *s,
{
    s.clone()
}

/// Relies on syntect's `ScopeStack::apply`: applies one scope transition to
/// the stack.
#[verifier::external_body]
pub fn apply_op(s: &mut syntect::parsing::ScopeStack, op: &syntect::parsing::ScopeStackOp) -> Result<
    (),
    syntect::parsing::ScopeError,
> {
    s.apply(op)
}

/// Relies on syntect's `Highlighter::new`: a style resolver for one theme.
#[verifier::external_body]
pub fn highlighter_new<'a>(theme: &'a syntect::highlighting::Theme) -> syntect::highlighting::Highlighter<'a> {
    syntect::highlighting::Highlighter::new(theme)
}

/// Relies on syntect's `Highlighter::style_for_stack`, called on the stack's
/// slice form; the returned colors and font bits are copied field by field.
#[verifier::external_body]
pub fn style_for_stack(
    h: &syntect::highlighting::Highlighter<'_>,
    s: &syntect::parsing::ScopeStack,
) -> Style {
    let st = h.style_for_stack(s.as_slice());
    let (f, b) = (st.foreground, st.background);
    Style {
        foreground: Color { r: f.r, g: f.g, b: f.b, a: f.a },
        background: Color { r: b.r, g: b.g, b: b.b, a: b.a },
        font_style: st.font_style.bits(),
    }
}

/// Relies on syntect's `SyntaxSet::metadata` and
/// `Metadata::metadata_for_scope`, called on the stack's slice form: the
/// contextual metadata for a scope stack, a pure lookup that is empty for
/// unknown scopes.
#[verifier::external_body]
pub fn metadata_for_stack<'a>(
    ss: &'a syntect::parsing::SyntaxSet,
    s: &syntect::parsing::ScopeStack,
) -> syntect::parsing::ScopedMetadata<'a> {
    ss.metadata().metadata_for_scope(s.as_slice())
}

/// Relies on std's `str::trim_end_matches`: the line with every trailing `c`
/// removed.
#[verifier::external_body]
pub fn trim_end_char<'a>(s: &'a str, c: char) -> &'a str {
    s.trim_end_matches(c)
}

/// Relies on xi_rope's `SpansBuilder::new`: an empty builder for a text of
/// the given total length.
#[verifier::external_body]
pub fn spans_builder_new(total_len: usize) -> (b: xi_rope::spans::SpansBuilder<usize>)
    ensures
        builder_spans_of(b) == Seq::<(usize, usize, usize)>::empty(),
        builder_len_of(b) == total_len,
{
    xi_rope::spans::SpansBuilder::new(total_len)
}

/// Relies on xi_rope's `SpansBuilder::add_span`, whose documented
/// precondition is that spans are added in nondecreasing start order; the
/// span's range must lie within the builder's total length.
#[verifier::external_body]
pub fn add_span(b: &mut xi_rope::spans::SpansBuilder<usize>, start: usize, end: usize, id: usize)
    requires
        start < end,
        end <= builder_len_of(*old(b)),
        builder_spans_of(*old(b)).len() > 0 ==> builder_spans_of(*old(b)).last().0 <= start,
    ensures
        builder_spans_of(*final(b)) == builder_spans_of(*old(b)).push((start, end, id)),
        builder_len_of(*final(b)) == builder_len_of(*old(b)),
{
    b.add_span(start..end, id)
}

/// Relies on xi_rope's `SpansBuilder::build`: the finished span collection
/// holds exactly the spans that were added.
#[verifier::external_body]
pub fn build_spans(b: xi_rope::spans::SpansBuilder<usize>) -> (s: StyleSpans)
    requires
        forall|i: int|
            0 <= i < builder_spans_of(b).len() ==> (#[trigger] builder_spans_of(b)[i]).0
                <= builder_len_of(b),
    ensures
        spans_of(s) == builder_spans_of(b),
{
    StyleSpans { spans: b.build() }
}

/// Relies on xi_rope's `Spans::iter`: hands every span out as its
/// (start, end, style identifier) triple, in order.
#[verifier::external_body]
pub fn spans_to_vec(s: &StyleSpans) -> (v: Vec<(usize, usize, usize)>)
    ensures
        v@ == spans_of(*s),
{
    s.spans.iter().map(|(iv, d)| (iv.start(), iv.end(), *d)).collect()
}

} // verus!

