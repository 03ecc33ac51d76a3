//! The incremental highlighting state machine: walks a document line by line,
//! resolves scope stacks to styles, interns styles into compact identifiers,
//! and emits a non-overlapping span mapping.

use crate::ext::{
    add_span, build_spans, builder_len_of, builder_spans_of, clone_stack, cut_ok, find_syntax,
    highlighter_new, load_syntax_set, load_theme_set, metadata_for_stack, next_break_of,
    next_line_break, parse_line, parse_state_new, rope_len, rope_len_of, rope_slice_string,
    scope_stack_new, spans_builder_new, spans_of, stack_is_empty, style_for_stack, syntax_set_has,
    take_theme, trim_end_char, StyleSpans, Text,
};
use crate::style::Style;
use vstd::prelude::*;

verus! {

/// A compact identifier for an interned visual style: styles are numbered
/// 0, 1, 2, ... in first-seen order.
pub type StyleId = usize;

/// Why a highlighting session could not be constructed: the fixed grammar or
/// the built-in theme is missing from the resource bundle.
#[derive(Clone, Copy, PartialEq, Eq, Structural, Debug)]
pub enum HighlightError {
    GrammarNotFound,
    ThemeNotFound,
}

/// The mutable session state: the per-line scope stacks of the last pass, the
/// style table, and the styles discovered since the last drain.
pub struct Internal {
    /// The scope stack at the end of each processed line, by line index.
    pub parse_state: Vec<syntect::parsing::ScopeStack>,
    /// The style table: the style interned under identifier `i` sits at
    /// index `i`, so the table grows by one for each fresh style.
    pub styles: Vec<Style>,
    /// Styles interned since the last drain, with their identifiers, oldest
    /// first; `None` when nothing is pending.
    pub new_styles: Option<Vec<(StyleId, Style)>>,
}

/// The pending list as a sequence: empty when nothing is pending.
pub open spec fn pending_seq(p: Option<Vec<(StyleId, Style)>>) -> Seq<(StyleId, Style)> {
    match p {
        None => Seq::empty(),
        Some(v) => v@,
    }
}

impl Internal {
    /// Each style is in the table at most once, so identifiers are stable.
    pub open spec fn table_wf(self) -> bool {
        forall|i: int, j: int|
            0 <= i < j < self.styles@.len() ==> self.styles@[i] != self.styles@[j]
    }

    /// Pending entries carry strictly increasing identifiers, each naming its
    /// style's slot in the table.
    pub open spec fn pending_wf(self) -> bool {
        &&& forall|i: int|
            0 <= i < pending_seq(self.new_styles).len() ==> (#[trigger] pending_seq(
                self.new_styles,
            )[i]).0 < self.styles@.len() && self.styles@[pending_seq(self.new_styles)[i].0 as int]
                == pending_seq(self.new_styles)[i].1
        &&& forall|i: int, j: int|
            0 <= i < j < pending_seq(self.new_styles).len() ==> (#[trigger] pending_seq(
                self.new_styles,
            )[i]).0 < (#[trigger] pending_seq(self.new_styles)[j]).0
    }

    pub open spec fn wf(self) -> bool {
        self.table_wf() && self.pending_wf()
    }

    /// Interns a style: an already-seen style keeps its identifier and changes
    /// nothing; a fresh style is appended to the table under the next
    /// sequential identifier and recorded as pending. Total: every style gets
    /// an identifier.
    pub fn id_for_style(&mut self, style: Style) -> (id: StyleId)
        requires
            old(self).wf(),
        ensures
            final(self).wf(),
            final(self).parse_state == old(self).parse_state,
            id < final(self).styles@.len(),
            final(self).styles@[id as int] == style,
            forall|j: int| 0 <= j < id ==> final(self).styles@[j] != style,
            old(self).styles@.contains(style) ==> final(self).styles@ == old(self).styles@
                && final(self).new_styles == old(self).new_styles,
            !old(self).styles@.contains(style) ==> id == old(self).styles@.len() && final(self).styles@ == old(self).styles@.push(style) && pending_seq(final(self).new_styles)
                == pending_seq(old(self).new_styles).push((id, style)),
            intern_rel(*old(self), style, *final(self), id),
    {
        let mut i: usize = 0;
        while i < self.styles.len()
            invariant
                old(self).wf(),
                *self == *old(self),
                i <= self.styles@.len(),
                forall|j: int| 0 <= j < i ==> self.styles@[j] != style,
            decreases self.styles@.len() - i,
        {
            if self.styles[i] == style {
                proof {
                    assert(self.styles@[i as int] == style);
                }
                return i;
            }
            i = i + 1;
        }
        let id = self.styles.len();
        let ghost pre = *self;
        self.styles.push(style);
        if self.new_styles.is_none() {
            self.new_styles = Some(Vec::new());
        }
        match &mut self.new_styles {
            Some(v) => {
                v.push((id, style));
            },
            None => {},
        }
        proof {
            assert(pending_seq(self.new_styles) =~= pending_seq(pre.new_styles).push(
                (id as usize, style),
            ));
            assert(self.table_wf());
            assert(self.pending_wf());
        }
        id
    }
}

/// The exact relation `id_for_style` establishes between the state before a
/// call, the interned style, the state after the call, and the returned
/// identifier.
pub open spec fn intern_rel(pre: Internal, style: Style, post: Internal, id: StyleId) -> bool {
    &&& post.parse_state == pre.parse_state
    &&& id < post.styles@.len()
    &&& post.styles@[id as int] == style
    &&& forall|j: int| 0 <= j < id ==> post.styles@[j] != style
    &&& (pre.styles@.contains(style) ==> post.styles@ == pre.styles@ && post.new_styles
        == pre.new_styles)
    &&& (!pre.styles@.contains(style) ==> id == pre.styles@.len() && post.styles@
        == pre.styles@.push(style) && pending_seq(post.new_styles) == pending_seq(
        pre.new_styles,
    ).push((id, style)))
}

/// Determinism of interning: from one well-formed state, interning a style
/// determines the identifier, the style table and the pending styles, so two
/// sessions fed equal style sequences assign identical identifiers.
pub proof fn lemma_intern_deterministic(
    pre: Internal,
    style: Style,
    post1: Internal,
    id1: StyleId,
    post2: Internal,
    id2: StyleId,
)
    requires
        pre.wf(),
        intern_rel(pre, style, post1, id1),
        intern_rel(pre, style, post2, id2),
    ensures
        id1 == id2,
        post1.styles@ == post2.styles@,
        pending_seq(post1.new_styles) == pending_seq(post2.new_styles),
        post1.parse_state == post2.parse_state,
{
    if pre.styles@.contains(style) {
        if id1 < id2 {
            assert(post2.styles@[id1 as int] == style);
        } else if id2 < id1 {
            assert(post1.styles@[id2 as int] == style);
        }
    }
}

/// Sequential assignment: when two styles not seen before are interned one
/// after the other, the second identifier is the successor of the first, so
/// fresh identifiers run 0, 1, 2, ... in first-seen order.
pub proof fn lemma_fresh_ids_sequential(
    s0: Internal,
    a: Style,
    s1: Internal,
    ida: StyleId,
    b: Style,
    s2: Internal,
    idb: StyleId,
)
    requires
        !s0.styles@.contains(a),
        intern_rel(s0, a, s1, ida),
        !s1.styles@.contains(b),
        intern_rel(s1, b, s2, idb),
    ensures
        idb == ida + 1,
{
}

/// One interning step keeps the pending list equal to what stood before a
/// pass plus one entry per fresh style: the bookkeeping behind the batch
/// clause of `highlight_all`.
proof fn lemma_appended_pending_step(
    base: Internal,
    pre: Internal,
    post: Internal,
    style: Style,
    id: StyleId,
)
    requires
        base.styles@.len() <= pre.styles@.len(),
        pending_seq(pre.new_styles) == pending_seq(base.new_styles) + appended_pending(
            base.styles@,
            pre.styles@,
        ),
        intern_rel(pre, style, post, id),
    ensures
        pending_seq(post.new_styles) == pending_seq(base.new_styles) + appended_pending(
            base.styles@,
            post.styles@,
        ),
{
    if pre.styles@.contains(style) {
        assert(pending_seq(post.new_styles) =~= pending_seq(base.new_styles) + appended_pending(
            base.styles@,
            post.styles@,
        ));
    } else {
        assert(pending_seq(post.new_styles) =~= pending_seq(base.new_styles) + appended_pending(
            base.styles@,
            post.styles@,
        ));
    }
}

/// The exact relation `take_new_styles` establishes between the session state
/// before a drain, the state after it, and what the drain returned.
pub open spec fn drain_rel(pre: Internal, post: Internal, r: Option<Vec<(StyleId, Style)>>) -> bool {
    &&& r == pre.new_styles
    &&& post.new_styles is None
    &&& post.styles == pre.styles
    &&& post.parse_state == pre.parse_state
}

/// Drain idempotence: a drain performed right after another drain, with no
/// style discovery in between, returns nothing.
pub proof fn lemma_drain_idempotent(
    s0: Internal,
    s1: Internal,
    r1: Option<Vec<(StyleId, Style)>>,
    s2: Internal,
    r2: Option<Vec<(StyleId, Style)>>,
)
    requires
        drain_rel(s0, s1, r1),
        drain_rel(s1, s2, r2),
    ensures
        r2 is None,
{
}

/// Which spans a finished pass may produce over a text of length `len` with a
/// style table of `n_styles` entries: nonempty, within bounds, in ascending
/// order with no two spans intersecting, each naming an assigned identifier.
pub open spec fn spans_wf(sp: Seq<(usize, usize, StyleId)>, len: usize, n_styles: nat) -> bool {
    &&& forall|i: int|
        0 <= i < sp.len() ==> (#[trigger] sp[i]).0 < sp[i].1 && sp[i].1 <= len && sp[i].2
            < n_styles
    &&& forall|i: int, j: int| 0 <= i < j < sp.len() ==> (#[trigger] sp[i]).1 <= (#[trigger] sp[j]).0
}

/// The pending entries a pass appends for its fresh styles: one per new
/// table slot, carrying the slot's index as the identifier, in table order.
pub open spec fn appended_pending(pre: Seq<Style>, post: Seq<Style>) -> Seq<(StyleId, Style)> {
    Seq::new((post.len() - pre.len()) as nat, |k: int| (((pre.len() + k) as usize), post[pre.len() + k]))
}

/// The offset one line-step ahead of `off`: the next line boundary, or the
/// end of the text when no boundary remains.
pub open spec fn step_of(t: Text, off: usize) -> usize {
    match next_break_of(t, off) {
        Some(b) => b,
        None => rope_len_of(t),
    }
}

/// `bounds` walks the text's line boundaries: it starts at offset 0, each
/// entry steps strictly forward to the next line boundary (or the end of the
/// text), and it stops exactly on reaching the end. A pass records one
/// scope-stack snapshot per step, so a walk of `n + 1` offsets means `n`
/// processed lines.
pub open spec fn line_walk(t: Text, bounds: Seq<usize>) -> bool {
    &&& bounds.len() > 0
    &&& bounds[0] == 0
    &&& bounds.last() == rope_len_of(t)
    &&& forall|i: int|
        0 <= i < bounds.len() - 1 ==> (#[trigger] bounds[i]) < rope_len_of(t) && bounds[i]
            < bounds[i + 1] && bounds[i + 1] == step_of(t, bounds[i])
}

/// One highlighting session: the loaded grammar bundle and theme, plus the
/// mutable session state.
pub struct HighlightState {
    pub syntax_set: syntect::parsing::SyntaxSet,
    pub theme: syntect::highlighting::Theme,
    pub state: Internal,
}

impl HighlightState {
    /// A usable session: a well-formed interner state over a grammar bundle
    /// holding the fixed grammar.
    pub open spec fn wf(self) -> bool {
        self.state.wf() && syntax_set_has(self.syntax_set, "Rust"@)
    }

    /// Builds a session over the built-in grammar bundle and theme. The fixed
    /// grammar and the theme are looked up eagerly, so a missing resource
    /// would be a construction-time error, never a per-call one; the shipped
    /// bundles hold both, so construction succeeds.
    pub fn new() -> (r: Result<HighlightState, HighlightError>)
        ensures
            r is Ok,
            r matches Ok(h) ==> h.wf() && h.state.styles@.len() == 0
                && h.state.parse_state@.len() == 0 && h.state.new_styles is None,
    {
        let syntax_set = load_syntax_set();
        if find_syntax(&syntax_set, "Rust").is_none() {
            return Err(HighlightError::GrammarNotFound);
        }
        let mut theme_set = load_theme_set();
        let theme = match take_theme(&mut theme_set, "InspiredGitHub") {
            Some(t) => t,
            None => {
                return Err(HighlightError::ThemeNotFound);
            },
        };
        Ok(
            HighlightState {
                syntax_set,
                theme,
                state: Internal {
                    parse_state: Vec::new(),
                    styles: Vec::new(),
                    new_styles: None,
                },
            },
        )
    }

    /// Highlights the whole text: see `Internal::highlight_all`. The session
    /// holds the fixed grammar, so here the per-line state is rebuilt
    /// unconditionally: one snapshot per line of the text's boundary walk.
    pub fn highlight_all(&mut self, text: &Text) -> (result: StyleSpans)
        requires
            old(self).wf(),
        ensures
            final(self).wf(),
            final(self).syntax_set == old(self).syntax_set,
            final(self).theme == old(self).theme,
            spans_wf(spans_of(result), rope_len_of(*text), final(self).state.styles@.len()),
            pending_seq(final(self).state.new_styles) == pending_seq(old(self).state.new_styles)
                + appended_pending(old(self).state.styles@, final(self).state.styles@),
            rope_len_of(*text) > 0 ==> final(self).state.parse_state@.len() > 0,
            exists|bs: Seq<usize>|
                line_walk(*text, bs) && final(self).state.parse_state@.len() == bs.len() - 1,
            old(self).state.styles@.len() <= final(self).state.styles@.len(),
            forall|i: int|
                0 <= i < old(self).state.styles@.len() ==> final(self).state.styles@[i] == old(self).state.styles@[i],
            pending_seq(old(self).state.new_styles).len() <= pending_seq(
                final(self).state.new_styles,
            ).len(),
            forall|i: int|
                0 <= i < pending_seq(old(self).state.new_styles).len() ==> pending_seq(
                    final(self).state.new_styles,
                )[i] == pending_seq(old(self).state.new_styles)[i],
            rope_len_of(*text) == 0 ==> spans_of(result).len() == 0 && final(self).state.parse_state@.len() == 0,
    {
        let r = self.state.highlight_all(text, &self.syntax_set, &self.theme);
        r
    }

    /// Drains the styles discovered since the last drain: returns them and
    /// leaves nothing pending, so an immediate second call returns `None`.
    pub fn take_new_styles(&mut self) -> (r: Option<Vec<(StyleId, Style)>>)
        ensures
            r == old(self).state.new_styles,
            final(self).state.new_styles is None,
            final(self).state.styles == old(self).state.styles,
            final(self).state.parse_state == old(self).state.parse_state,
            final(self).syntax_set == old(self).syntax_set,
            final(self).theme == old(self).theme,
            old(self).state.wf() ==> final(self).state.wf(),
            drain_rel(old(self).state, final(self).state, r),
    {
        self.state.new_styles.take()
    }

    /// The contextual metadata for a processed line: present exactly when
    /// `line` indexes a line of the last pass, absent past the end.
    pub fn metadata_for_line<'a>(&'a self, line: usize) -> (r: Option<
        syntect::parsing::ScopedMetadata<'a>,
    >)
        ensures
            r is Some <==> line < self.state.parse_state@.len(),
    {
        if line < self.state.parse_state.len() {
            Some(metadata_for_stack(&self.syntax_set, &self.state.parse_state[line]))
        } else {
            None
        }
    }
}

impl Internal {
    /// Highlights the whole text against a grammar named in the syntax set
    /// and a theme. The per-line state of any earlier pass is discarded and
    /// rebuilt; the style table and the pending list only grow, keeping
    /// identifiers stable across passes of one session.
    ///
    /// The result covers only `[0, text length)`, its spans are nonempty,
    /// ascending and pairwise disjoint, and every identifier in it is
    /// assigned in the style table. An empty text yields no spans and no
    /// per-line state.
    pub fn highlight_all(
        &mut self,
        text: &Text,
        syntax_set: &syntect::parsing::SyntaxSet,
        theme: &syntect::highlighting::Theme,
    ) -> (result: StyleSpans)
        requires
            old(self).wf(),
        ensures
            final(self).wf(),
            spans_wf(spans_of(result), rope_len_of(*text), final(self).styles@.len()),
            pending_seq(final(self).new_styles) == pending_seq(old(self).new_styles)
                + appended_pending(old(self).styles@, final(self).styles@),
            syntax_set_has(*syntax_set, "Rust"@) && rope_len_of(*text) > 0 ==> final(self).parse_state@.len() > 0,
            syntax_set_has(*syntax_set, "Rust"@) ==> exists|bs: Seq<usize>|
                line_walk(*text, bs) && final(self).parse_state@.len() == bs.len() - 1,
            old(self).styles@.len() <= final(self).styles@.len(),
            forall|i: int|
                0 <= i < old(self).styles@.len() ==> final(self).styles@[i] == old(self).styles@[i],
            pending_seq(old(self).new_styles).len() <= pending_seq(final(self).new_styles).len(),
            forall|i: int|
                0 <= i < pending_seq(old(self).new_styles).len() ==> pending_seq(
                    final(self).new_styles,
                )[i] == pending_seq(old(self).new_styles)[i],
            rope_len_of(*text) == 0 ==> spans_of(result).len() == 0 && final(self).parse_state@.len() == 0,
    {
        self.parse_state = Vec::new();
        let len = rope_len(text);
        let mut b = spans_builder_new(len);
        let syntax = match find_syntax(syntax_set, "Rust") {
            Some(s) => s,
            None => {
                // A session built by `HighlightState::new` has the grammar;
                // without it there is nothing to tokenize against.
                proof {
                    assert(pending_seq(self.new_styles) =~= pending_seq(old(self).new_styles)
                        + appended_pending(old(self).styles@, self.styles@));
                }
                return build_spans(b);
            },
        };
        let highlighter = highlighter_new(theme);
        let mut parse_st = parse_state_new(syntax);
        let mut scope_state = scope_stack_new();
        let mut total_offset: usize = 0;
        let ghost mut bounds: Seq<usize> = seq![0usize];
        proof {
            assert(pending_seq(self.new_styles) =~= pending_seq(old(self).new_styles)
                + appended_pending(old(self).styles@, self.styles@));
        }
        while total_offset < len
            invariant
                self.wf(),
                total_offset <= len,
                len == rope_len_of(*text),
                cut_ok(*text, total_offset),
                builder_len_of(b) == len,
                pending_seq(self.new_styles) == pending_seq(old(self).new_styles)
                    + appended_pending(old(self).styles@, self.styles@),
                bounds.len() == self.parse_state@.len() + 1,
                bounds[0] == 0,
                bounds.last() == total_offset,
                forall|i: int|
                    0 <= i < bounds.len() - 1 ==> (#[trigger] bounds[i]) < rope_len_of(*text)
                        && bounds[i] < bounds[i + 1] && bounds[i + 1] == step_of(*text, bounds[i]),
                total_offset > 0 ==> self.parse_state@.len() > 0,
                forall|i: int|
                    0 <= i < builder_spans_of(b).len() ==> (#[trigger] builder_spans_of(b)[i]).0
                        < builder_spans_of(b)[i].1 && builder_spans_of(b)[i].1 <= total_offset
                        && builder_spans_of(b)[i].2 < self.styles@.len(),
                forall|i: int, j: int|
                    0 <= i < j < builder_spans_of(b).len() ==> (#[trigger] builder_spans_of(
                        b,
                    )[i]).1 <= (#[trigger] builder_spans_of(b)[j]).0,
                old(self).styles@.len() <= self.styles@.len(),
                forall|i: int|
                    0 <= i < old(self).styles@.len() ==> self.styles@[i] == old(self).styles@[i],
                pending_seq(old(self).new_styles).len() <= pending_seq(self.new_styles).len(),
                forall|i: int|
                    0 <= i < pending_seq(old(self).new_styles).len() ==> pending_seq(
                        self.new_styles,
                    )[i] == pending_seq(old(self).new_styles)[i],
                total_offset == 0 ==> self.parse_state@.len() == 0 && builder_spans_of(b).len()
                    == 0,
            decreases len - total_offset,
        {
            let next_break = match next_line_break(text, total_offset) {
                Some(nb) => nb,
                None => len,
            };
            let line_len = next_break - total_offset;
            let line = rope_slice_string(text, total_offset, next_break);
            let trimmed = trim_end_char(line.as_str(), '\n');
            let ops = match parse_line(&mut parse_st, trimmed, syntax_set) {
                Ok(v) => v,
                Err(_) => {
                    // Tokenization is total over text input: a parser fault
                    // degrades to no scope transitions for this line.
                    Vec::new()
                },
            };
            let mut last_pos: usize = 0;
            let mut oi: usize = 0;
            while oi < ops.len()
                invariant
                    self.wf(),
                    oi <= ops@.len(),
                    last_pos <= line_len,
                    total_offset + line_len <= len,
                    len == rope_len_of(*text),
                    builder_len_of(b) == len,
                    forall|i: int|
                        0 <= i < builder_spans_of(b).len() ==> (#[trigger] builder_spans_of(
                            b,
                        )[i]).0 < builder_spans_of(b)[i].1 && builder_spans_of(b)[i].1
                            <= total_offset + last_pos && builder_spans_of(b)[i].2
                            < self.styles@.len(),
                    forall|i: int, j: int|
                        0 <= i < j < builder_spans_of(b).len() ==> (#[trigger] builder_spans_of(
                            b,
                        )[i]).1 <= (#[trigger] builder_spans_of(b)[j]).0,
                    old(self).styles@.len() <= self.styles@.len(),
                    forall|i: int|
                        0 <= i < old(self).styles@.len() ==> self.styles@[i] == old(self).styles@[i],
                    pending_seq(old(self).new_styles).len() <= pending_seq(self.new_styles).len(),
                    forall|i: int|
                        0 <= i < pending_seq(old(self).new_styles).len() ==> pending_seq(
                            self.new_styles,
                        )[i] == pending_seq(old(self).new_styles)[i],
                    pending_seq(self.new_styles) == pending_seq(old(self).new_styles)
                        + appended_pending(old(self).styles@, self.styles@),
                    bounds.len() == self.parse_state@.len() + 1,
                decreases ops@.len() - oi,
            {
                let pos_raw = ops[oi].0;
                // Positions past the line's end cannot arise from a
                // well-formed parse; clamping keeps the span arithmetic total.
                let pos = if pos_raw > line_len {
                    line_len
                } else {
                    pos_raw
                };
                if pos > last_pos {
                    if !stack_is_empty(&scope_state) {
                        let style = style_for_stack(&highlighter, &scope_state);
                        let ghost pre = *self;
                        let id = self.id_for_style(style);
                        proof {
                            lemma_appended_pending_step(*old(self), pre, *self, style, id);
                        }
                        add_span(&mut b, total_offset + last_pos, total_offset + pos, id);
                    }
                    last_pos = pos;
                }
                let _ = crate::ext::apply_op(&mut scope_state, &ops[oi].1);
                oi = oi + 1;
            }
            // The trailing span up to the end of the line, terminator
            // included, so the terminator inherits the line's closing style.
            if last_pos < line_len {
                if !stack_is_empty(&scope_state) {
                    let style = style_for_stack(&highlighter, &scope_state);
                    let ghost pre = *self;
                    let id = self.id_for_style(style);
                    proof {
                        lemma_appended_pending_step(*old(self), pre, *self, style, id);
                    }
                    add_span(&mut b, total_offset + last_pos, total_offset + line_len, id);
                }
            }
            let snapshot = clone_stack(&scope_state);
            self.parse_state.push(snapshot);
            proof {
                bounds = bounds.push(next_break);
            }
            total_offset = next_break;
        }
        proof {
            assert(line_walk(*text, bounds));
            assert(exists|bs: Seq<usize>|
                line_walk(*text, bs) && self.parse_state@.len() == bs.len() - 1) by {
                assert(line_walk(*text, bounds) && self.parse_state@.len() == bounds.len() - 1);
            }
        }
        build_spans(b)
    }
}

} // verus!

