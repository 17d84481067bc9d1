//! The slide builder: groups classified pieces into slides and renders
//! width-aware, styled body text (word-wrap, list markers, quote boxes,
//! centering). Styling is abstract: a [`Style`] supplies the concrete
//! text for each emphasis change, and may be empty for plain output.

use vstd::prelude::*;
use vstd::string::StrSliceExecFns;

use crate::chars::chars_to_string;
use crate::chars::join_with;
use crate::chars::lemma_join_snoc;
use crate::chars::make_spaces;
use crate::chars::push_all;
use crate::chars::repeat_char;
use crate::chars::spaces;
use crate::chars::str_to_chars;
use crate::ordinal::format_number;
use crate::ordinal::ordinal_text;
use crate::parse::Piece;
use crate::parse::PieceKind;
use crate::parse::PieceKindView;
use crate::parse::PieceView;
use crate::wrap::centered_pad;
use crate::wrap::wrap_chars;
use crate::wrap::wrapped_text;

verus! {

/// The text inserted at each styling change point. The concrete escape
/// sequences are the caller's concern; every field may be empty.
pub struct Style {
    /// Starts title emphasis (titles and slide headers).
    pub emphasis_on: String,
    /// Returns to unstyled text.
    pub reset: String,
    /// Starts de-emphasized text (rules, borders, list markers).
    pub dim_on: String,
    /// Returns to unstyled, then starts italic text (sub-heading text).
    pub reset_italic: String,
    /// Returns to unstyled, then starts de-emphasized text.
    pub reset_dim: String,
}

/// Mathematical model of a [`Style`].
#[verifier::ext_equal]
pub struct StyleView {
    pub emphasis_on: Seq<char>,
    pub reset: Seq<char>,
    pub dim_on: Seq<char>,
    pub reset_italic: Seq<char>,
    pub reset_dim: Seq<char>,
}

impl View for Style {
    type V = StyleView;

    open spec fn view(&self) -> StyleView {
        StyleView {
            emphasis_on: self.emphasis_on@,
            reset: self.reset@,
            dim_on: self.dim_on@,
            reset_italic: self.reset_italic@,
            reset_dim: self.reset_dim@,
        }
    }
}

/// The style whose every change point is empty text: plain output.
pub open spec fn plain_style() -> StyleView {
    StyleView {
        emphasis_on: Seq::empty(),
        reset: Seq::empty(),
        dim_on: Seq::empty(),
        reset_italic: Seq::empty(),
        reset_dim: Seq::empty(),
    }
}

impl Style {
    /// A style that adds no styling text at all.
    pub fn plain() -> (s: Style)
        ensures
            s@ == plain_style(),
    {
        let s = Style {
            emphasis_on: String::new(),
            reset: String::new(),
            dim_on: String::new(),
            reset_italic: String::new(),
            reset_dim: String::new(),
        };
        assert(s@ =~= plain_style());
        s
    }
}

/// One presentation unit: either a standalone title, or a header with an
/// ordered sequence of pre-formatted body lines.
#[derive(Debug, PartialEq, Eq)]
pub enum Slide {
    Title { header: String },
    Normal { header: String, body: Vec<String> },
}

/// Mathematical model of a [`Slide`].
#[verifier::ext_equal]
pub enum SlideView {
    Title { header: Seq<char> },
    Normal { header: Seq<char>, body: Seq<Seq<char>> },
}

impl View for Slide {
    type V = SlideView;

    open spec fn view(&self) -> SlideView {
        match self {
            Slide::Title { header } => SlideView::Title { header: header@ },
            Slide::Normal { header, body } => SlideView::Normal {
                header: header@,
                body: body.deep_view(),
            },
        }
    }
}

impl DeepView for Slide {
    type V = SlideView;

    open spec fn deep_view(&self) -> SlideView {
        self.view()
    }
}

/// `n` when non-negative, else 0.
pub open spec fn max0(n: int) -> int {
    if n < 0 {
        0
    } else {
        n
    }
}

/// The header text of a title or slide-header piece: the piece's lines
/// joined with single spaces, centered to `width`, with title emphasis.
pub open spec fn title_text(lines: Seq<Seq<char>>, width: int, sty: StyleView) -> Seq<char> {
    let t = join_with(lines, seq![' ']);
    centered_pad(t, width) + sty.emphasis_on + t + sty.reset
}

/// A sub-heading body line: the text centered to `width` less a margin of
/// 6 columns for the flanking rules, framed by short dashes, dimmed rules
/// around italic text.
pub open spec fn subheading_text(l: Seq<char>, width: int, sty: StyleView) -> Seq<char> {
    let w = if width >= 6 {
        width - 6
    } else {
        0int
    };
    centered_pad(l, w) + sty.dim_on + seq!['\u{2014}', '\u{2014}', ' '] + sty.reset_italic + l
        + sty.reset_dim + seq![' ', '\u{2014}', '\u{2014}'] + sty.reset
}

/// The interior width of a quote box: the longest line, and at least 4.
pub open spec fn quote_longest(lines: Seq<Seq<char>>) -> int
    decreases lines.len(),
{
    if lines.len() == 0 {
        4
    } else {
        let rest = quote_longest(lines.drop_last());
        if lines.last().len() > rest {
            lines.last().len() as int
        } else {
            rest
        }
    }
}

/// One interior line of a quote box: a 2-space indent, a vertical border,
/// a 2-space margin, the line padded with trailing spaces to `longest`,
/// a 2-space margin, and the closing border; borders dimmed.
pub open spec fn quote_interior(l: Seq<char>, longest: int, sty: StyleView) -> Seq<char> {
    sty.reset_dim + spaces(2) + seq!['\u{2502}'] + sty.reset + spaces(2) + l + spaces(
        longest - l.len(),
    ) + spaces(2) + sty.reset_dim + seq!['\u{2502}'] + sty.reset
}

/// A horizontal border of a quote box: a 2-space indent, a corner, a rule
/// of `longest + 4` columns, and the other corner; all dimmed.
pub open spec fn quote_border(left: char, right: char, longest: int, sty: StyleView) -> Seq<char> {
    sty.reset_dim + spaces(2) + seq![left] + repeat_char('\u{2500}', longest + 4) + seq![right]
        + sty.reset
}

/// The rendered quote box: top border, interior lines, bottom border.
pub open spec fn quote_box(lines: Seq<Seq<char>>, sty: StyleView) -> Seq<Seq<char>> {
    let longest = quote_longest(lines);
    seq![quote_border('\u{250c}', '\u{2510}', longest, sty)] + lines.map_values(
        |l: Seq<char>| quote_interior(l, longest, sty),
    ) + seq![quote_border('\u{2514}', '\u{2518}', longest, sty)]
}

/// Inserts `hang` after every line feed, indenting continuation lines.
pub open spec fn hang_continuations(s: Seq<char>, hang: Seq<char>) -> Seq<char>
    decreases s.len(),
{
    if s.len() == 0 {
        Seq::empty()
    } else if s[0] == '\n' {
        seq!['\n'] + hang + hang_continuations(s.drop_first(), hang)
    } else {
        seq![s[0]] + hang_continuations(s.drop_first(), hang)
    }
}

/// The bullet glyph for an unordered item: a fixed 3-glyph cycle by depth.
pub open spec fn bullet_char(depth: int) -> char {
    if depth % 3 == 0 {
        '*'
    } else if depth % 3 == 1 {
        '-'
    } else {
        '.'
    }
}

/// The single body entry of an unordered list item: the lines joined with
/// single spaces, wrapped to the width left of the indentation and the
/// 4-column marker, continuation lines aligned under the text column, and
/// the dimmed bullet in front.
pub open spec fn bullet_entry(lines: Seq<Seq<char>>, depth: int, width: int, sty: StyleView) -> Seq<
    char,
> {
    let joined = join_with(lines, seq![' ']);
    let wrapped = wrapped_text(joined, max0(width - 4 * depth - 4));
    let hung = hang_continuations(wrapped, spaces(4 * depth + 4));
    spaces(2) + sty.dim_on + spaces(4 * depth) + seq![bullet_char(depth)] + sty.reset + seq![' ']
        + hung
}

/// The single body entry of an ordered list item with 1-based count `n`:
/// as [`bullet_entry`], but the marker is the rendered ordinal followed by
/// a period, and the text column accounts for the marker's width.
pub open spec fn numbered_entry(
    lines: Seq<Seq<char>>,
    depth: int,
    width: int,
    n: int,
    sty: StyleView,
) -> Seq<char> {
    let joined = join_with(lines, seq![' ']);
    let marker = ordinal_text(n, depth);
    let wrapped = wrapped_text(joined, max0(width - 4 * depth - marker.len() - 4));
    let hung = hang_continuations(wrapped, spaces(4 * depth + marker.len() + 4));
    spaces(2) + sty.dim_on + spaces(4 * depth) + marker + seq!['.'] + sty.reset + seq![' '] + hung
}

/// The builder's state: the finished slides, the open `(header, body)`
/// accumulator, and the per-depth ordinal counters.
#[verifier::ext_equal]
pub struct BuildState {
    pub slides: Seq<SlideView>,
    pub current: Option<(Seq<char>, Seq<Seq<char>>)>,
    pub counters: Seq<int>,
}

/// The finished slides once the open accumulator, if any, is closed as a
/// normal slide.
pub open spec fn flush_current(st: BuildState) -> Seq<SlideView> {
    match st.current {
        None => st.slides,
        Some((h, b)) => st.slides.push(SlideView::Normal { header: h, body: b }),
    }
}

/// The next 1-based count at `d`: counters absent from the map count 0.
pub open spec fn counter_at(cs: Seq<int>, d: int) -> int {
    if 0 <= d < cs.len() {
        cs[d]
    } else {
        0
    }
}

/// The counters after one more ordered item at depth `d`: the map grows
/// with zeroes up to `d` if needed, and the count at `d` rises by one.
pub open spec fn bump_counter(cs: Seq<int>, d: int) -> Seq<int> {
    if d < 0 {
        cs
    } else {
        Seq::new(
            if cs.len() > d {
                cs.len()
            } else {
                (d + 1) as nat
            },
            |i: int|
                if i == d {
                    counter_at(cs, d) + 1
                } else {
                    counter_at(cs, i)
                },
        )
    }
}

/// Bumping the counter at `d0` raises exactly that count by one.
pub proof fn lemma_bump_counter_at(cs: Seq<int>, d0: int, d: int)
    requires
        d0 >= 0,
    ensures
        counter_at(bump_counter(cs, d0), d) == counter_at(cs, d) + if d == d0 {
            1int
        } else {
            0
        },
{
}

/// Appends body entries to the open accumulator, opening one with an
/// empty header when none is open.
pub open spec fn append_body(st: BuildState, entries: Seq<Seq<char>>) -> BuildState {
    match st.current {
        Some((h, b)) => BuildState {
            slides: st.slides,
            current: Some((h, b + entries)),
            counters: st.counters,
        },
        None => BuildState {
            slides: st.slides,
            current: Some((Seq::empty(), entries)),
            counters: st.counters,
        },
    }
}

/// One step of the builder: how one piece changes its state.
///
/// A level-0 header closes the accumulator and emits a title slide; a
/// level-1 header closes the accumulator and opens a new one under the
/// styled header; any other header contributes sub-heading lines; a
/// paragraph contributes each line wrapped; a quote contributes its box;
/// a list item contributes one marked entry, an ordered one advancing the
/// counter at its depth.
pub open spec fn build_step(st: BuildState, p: PieceView, width: int, sty: StyleView) -> BuildState {
    match p.kind {
        PieceKindView::Header { level } => {
            if level == 0 {
                BuildState {
                    slides: flush_current(st).push(
                        SlideView::Title { header: title_text(p.lines, width, sty) },
                    ),
                    current: None,
                    counters: st.counters,
                }
            } else if level == 1 {
                BuildState {
                    slides: flush_current(st),
                    current: Some((title_text(p.lines, width, sty), Seq::empty())),
                    counters: st.counters,
                }
            } else {
                append_body(st, p.lines.map_values(|l: Seq<char>| subheading_text(l, width, sty)))
            }
        },
        PieceKindView::Paragraph => append_body(
            st,
            p.lines.map_values(|l: Seq<char>| wrapped_text(l, width)),
        ),
        PieceKindView::Quote => append_body(st, quote_box(p.lines, sty)),
        PieceKindView::ListItem { ordered, depth } => {
            if ordered {
                let n = counter_at(st.counters, depth) + 1;
                let st1 = append_body(st, seq![numbered_entry(p.lines, depth, width, n, sty)]);
                BuildState {
                    slides: st1.slides,
                    current: st1.current,
                    counters: bump_counter(st.counters, depth),
                }
            } else {
                append_body(st, seq![bullet_entry(p.lines, depth, width, sty)])
            }
        },
    }
}

/// The builder's state after consuming every piece of `ps`, from `st`.
pub open spec fn build_from(st: BuildState, ps: Seq<PieceView>, width: int, sty: StyleView) -> BuildState
    decreases ps.len(),
{
    if ps.len() == 0 {
        st
    } else {
        build_from(build_step(st, ps[0], width, sty), ps.drop_first(), width, sty)
    }
}

pub open spec fn initial_build_state() -> BuildState {
    BuildState { slides: Seq::empty(), current: None, counters: Seq::empty() }
}

/// The slides of a piece sequence: consume every piece, then close
/// whatever accumulator remains open.
pub open spec fn built_slides(ps: Seq<PieceView>, width: int, sty: StyleView) -> Seq<SlideView> {
    flush_current(build_from(initial_build_state(), ps, width, sty))
}

/// Consuming one more piece advances the builder by one step.
proof fn lemma_build_snoc(st: BuildState, ps: Seq<PieceView>, p: PieceView, width: int, sty: StyleView)
    ensures
        build_from(st, ps.push(p), width, sty) == build_step(
            build_from(st, ps, width, sty),
            p,
            width,
            sty,
        ),
    decreases ps.len(),
{
    if ps.len() == 0 {
        assert(ps.push(p)[0] == p);
        assert(ps.push(p).drop_first() =~~= Seq::<PieceView>::empty());
        assert(build_from(st, ps.push(p), width, sty) == build_from(
            build_step(st, p, width, sty),
            Seq::empty(),
            width,
            sty,
        ));
    } else {
        assert(ps.push(p)[0] == ps[0]);
        assert(ps.push(p).drop_first() =~~= ps.drop_first().push(p));
        lemma_build_snoc(build_step(st, ps[0], width, sty), ps.drop_first(), p, width, sty);
        assert(build_from(st, ps.push(p), width, sty) == build_from(
            build_step(st, ps[0], width, sty),
            ps.drop_first().push(p),
            width,
            sty,
        ));
    }
}

/// The interior width covers every line and is at least 4.
pub proof fn lemma_quote_longest_bounds(lines: Seq<Seq<char>>)
    ensures
        quote_longest(lines) >= 4,
        forall|i: int| 0 <= i < lines.len() ==> (#[trigger] lines[i]).len() <= quote_longest(lines),
    decreases lines.len(),
{
    if lines.len() > 0 {
        lemma_quote_longest_bounds(lines.drop_last());
        assert forall|i: int| 0 <= i < lines.len() implies (#[trigger] lines[i]).len()
            <= quote_longest(lines) by {
            if i < lines.len() - 1 {
                assert(lines.drop_last()[i] == lines[i]);
            }
        }
    }
}

/// Quote boxing round-trips on width: with the plain style, every line of
/// the rendered box has the same character length, the interior width
/// plus 2 for the indent, plus 2 borders and 2 two-space margins.
pub proof fn lemma_quote_box_width(lines: Seq<Seq<char>>, j: int)
    requires
        0 <= j < quote_box(lines, plain_style()).len(),
    ensures
        quote_box(lines, plain_style())[j].len() == quote_longest(lines) + 8,
{
    lemma_quote_longest_bounds(lines);
    let longest = quote_longest(lines);
    let sty = plain_style();
    let bx = quote_box(lines, sty);
    let mid = lines.map_values(|l: Seq<char>| quote_interior(l, longest, sty));
    assert(bx.len() == lines.len() + 2);
    if j == 0 {
        assert(bx[0] == quote_border('\u{250c}', '\u{2510}', longest, sty));
    } else if j == bx.len() - 1 {
        assert(bx[j] == quote_border('\u{2514}', '\u{2518}', longest, sty));
    } else {
        assert(bx[j] == mid[j - 1]);
        assert(mid[j - 1] == quote_interior(lines[j - 1], longest, sty));
        assert(lines[j - 1].len() <= longest);
    }
}

/// A piece whose header level makes a standalone title slide.
pub open spec fn is_title_piece(p: PieceView) -> bool {
    p.kind matches PieceKindView::Header { level } && level == 0
}

/// A piece whose header level starts a slide: level 0 or 1.
pub open spec fn is_slide_header(p: PieceView) -> bool {
    p.kind matches PieceKindView::Header { level } && (level == 0 || level == 1)
}

/// The number of level-0 and level-1 header pieces.
pub open spec fn count_slide_headers(ps: Seq<PieceView>) -> int
    decreases ps.len(),
{
    if ps.len() == 0 {
        0
    } else {
        (if is_slide_header(ps[0]) {
            1int
        } else {
            0
        }) + count_slide_headers(ps.drop_first())
    }
}

pub open spec fn open_count(st: BuildState) -> int {
    if st.current is Some {
        1
    } else {
        0
    }
}

proof fn lemma_build_count(st: BuildState, ps: Seq<PieceView>, width: int, sty: StyleView)
    requires
        forall|i: int|
            1 <= i < ps.len() && is_title_piece(ps[i - 1]) ==> is_slide_header(#[trigger] ps[i]),
    ensures
        flush_current(build_from(st, ps, width, sty)).len() == st.slides.len() + open_count(st)
            + count_slide_headers(ps) + if st.current is None && ps.len() > 0 && !is_slide_header(
            ps[0],
        ) {
            1int
        } else {
            0
        },
    decreases ps.len(),
{
    if ps.len() == 0 {
    } else {
        let st1 = build_step(st, ps[0], width, sty);
        let tail = ps.drop_first();
        assert forall|i: int|
            1 <= i < tail.len() && is_title_piece(tail[i - 1]) implies is_slide_header(
            #[trigger] tail[i],
        ) by {
            assert(tail[i] == ps[i + 1]);
            assert(tail[i - 1] == ps[i]);
        }
        lemma_build_count(st1, tail, width, sty);
        if is_title_piece(ps[0]) {
            assert(st1.slides.len() == st.slides.len() + open_count(st) + 1);
            assert(st1.current is None);
            if tail.len() > 0 {
                assert(tail[0] == ps[1]);
                assert(is_slide_header(ps[1]));
            }
        } else if is_slide_header(ps[0]) {
            assert(st1.slides.len() == st.slides.len() + open_count(st));
            assert(st1.current is Some);
        } else {
            assert(st1.slides == st.slides);
            assert(st1.current is Some);
        }
    }
}

/// The number of emitted slides equals the number of level-0 and level-1
/// header pieces, plus one leading normal slide when content precedes the
/// first such header — provided no body content directly follows a
/// level-0 header (such content would open one more headerless slide).
pub proof fn lemma_slide_count(ps: Seq<PieceView>, width: int, sty: StyleView)
    requires
        forall|i: int|
            1 <= i < ps.len() && is_title_piece(ps[i - 1]) ==> is_slide_header(#[trigger] ps[i]),
    ensures
        built_slides(ps, width, sty).len() == count_slide_headers(ps) + if ps.len() > 0
            && !is_slide_header(ps[0]) {
            1int
        } else {
            0
        },
{
    lemma_build_count(initial_build_state(), ps, width, sty);
}

/// A document line whose first token is a run of one or two `#`
/// characters: the lines that produce level-0 and level-1 header pieces.
pub open spec fn is_slide_header_line(l: Seq<char>) -> bool {
    crate::chars::words_of(l).len() > 0 && crate::parse::is_hash_run(crate::chars::words_of(l)[0])
        && crate::chars::words_of(l)[0].len() <= 2
}

/// The number of level-0 and level-1 header lines of a document.
pub open spec fn count_slide_header_lines(ls: Seq<Seq<char>>) -> int
    decreases ls.len(),
{
    if ls.len() == 0 {
        0
    } else {
        (if is_slide_header_line(ls[0]) {
            1int
        } else {
            0
        }) + count_slide_header_lines(ls.drop_first())
    }
}

proof fn lemma_count_headers_snoc(ps: Seq<PieceView>, p: PieceView)
    ensures
        count_slide_headers(ps.push(p)) == count_slide_headers(ps) + if is_slide_header(p) {
            1int
        } else {
            0
        },
    decreases ps.len(),
{
    if ps.len() == 0 {
        assert(ps.push(p)[0] == p);
        assert(ps.push(p).drop_first() =~~= Seq::<PieceView>::empty());
        assert(count_slide_headers(ps.push(p)) == (if is_slide_header(p) {
            1int
        } else {
            0
        }) + count_slide_headers(Seq::empty()));
    } else {
        assert(ps.push(p)[0] == ps[0]);
        assert(ps.push(p).drop_first() =~~= ps.drop_first().push(p));
        lemma_count_headers_snoc(ps.drop_first(), p);
        assert(count_slide_headers(ps.push(p)) == (if is_slide_header(ps[0]) {
            1int
        } else {
            0
        }) + count_slide_headers(ps.drop_first().push(p)));
    }
}

/// The open piece of the classifier is never a header.
pub open spec fn open_not_header(st: crate::parse::ParseState) -> bool {
    match st.open_piece {
        Some(p) => !(p.kind is Header),
        None => true,
    }
}

proof fn lemma_classifier_header_count(st: crate::parse::ParseState, ls: Seq<Seq<char>>)
    requires
        open_not_header(st),
    ensures
        count_slide_headers(crate::parse::flush_open(crate::parse::parse_lines_from(st, ls)))
            == count_slide_headers(crate::parse::flush_open(st)) + count_slide_header_lines(ls),
        open_not_header(crate::parse::parse_lines_from(st, ls)),
    decreases ls.len(),
{
    match st.open_piece {
        Some(p) => {
            lemma_count_headers_snoc(st.emitted, p);
        },
        None => {},
    }
    if ls.len() == 0 {
    } else {
        let st1 = crate::parse::classify_line(st, ls[0]);
        let toks = crate::chars::words_of(ls[0]);
        assert(open_not_header(st1));
        if toks.len() > 0 && crate::parse::is_hash_run(toks[0]) {
            lemma_count_headers_snoc(
                crate::parse::flush_open(st),
                PieceView {
                    kind: PieceKindView::Header { level: toks[0].len() - 1 },
                    lines: seq![crate::parse::line_remainder(ls[0])],
                },
            );
        } else if toks.len() > 0 && !(toks[0] == seq!['>']) && (toks[0] == seq!['-']
            || crate::parse::is_ordered_marker(toks[0])) {
            lemma_count_headers_snoc(
                crate::parse::flush_open(st),
                PieceView {
                    kind: PieceKindView::ListItem {
                        ordered: toks[0] != seq!['-'],
                        depth: crate::parse::list_depth(ls[0]),
                    },
                    lines: seq![crate::parse::line_remainder(ls[0])],
                },
            );
        } else {
            match st.open_piece {
                Some(p) => {
                    lemma_count_headers_snoc(st.emitted, p);
                },
                None => {},
            }
        }
        match st1.open_piece {
            Some(p) => {
                lemma_count_headers_snoc(st1.emitted, p);
            },
            None => {},
        }
        lemma_classifier_header_count(st1, ls.drop_first());
    }
}

/// The header pieces of a parsed document come exactly from its header
/// lines: the classifier emits one level-0 or level-1 header piece for
/// each line whose first token is one or two `#` characters, and no
/// other piece it emits is such a header.
pub proof fn lemma_header_pieces_count(ls: Seq<Seq<char>>)
    ensures
        count_slide_headers(crate::parse::parsed_pieces(ls)) == count_slide_header_lines(ls),
{
    lemma_classifier_header_count(crate::parse::initial_parse_state(), ls);
}

/// The number of ordered list item pieces at depth `d`.
pub open spec fn count_numbered_at(ps: Seq<PieceView>, d: int) -> int
    decreases ps.len(),
{
    if ps.len() == 0 {
        0
    } else {
        (if ps[0].kind matches PieceKindView::ListItem { ordered: true, depth } && depth == d {
            1int
        } else {
            0
        }) + count_numbered_at(ps.drop_first(), d)
    }
}

proof fn lemma_build_counters(st: BuildState, ps: Seq<PieceView>, width: int, sty: StyleView, d: int)
    requires
        d >= 0,
    ensures
        counter_at(build_from(st, ps, width, sty).counters, d) == counter_at(st.counters, d)
            + count_numbered_at(ps, d),
    decreases ps.len(),
{
    if ps.len() == 0 {
    } else {
        let st1 = build_step(st, ps[0], width, sty);
        lemma_build_counters(st1, ps.drop_first(), width, sty, d);
        match ps[0].kind {
            PieceKindView::ListItem { ordered, depth } => {
                if ordered && depth >= 0 {
                    lemma_bump_counter_at(st.counters, depth, d);
                } else {
                    assert(st1.counters == st.counters);
                }
            },
            _ => {
                assert(st1.counters == st.counters);
            },
        }
    }
}

fn string_chars(s: &String) -> (r: Vec<char>)
    ensures
        r@ == s@,
{
    str_to_chars(s.as_str())
}

/// Builds a vector of `n` copies of `c`.
fn make_repeat(c: char, n: usize) -> (r: Vec<char>)
    ensures
        r@ == repeat_char(c, n as int),
{
    let mut r: Vec<char> = Vec::new();
    let mut i: usize = 0;
    while i < n
        invariant
            i <= n,
            r@ == repeat_char(c, i as int),
        decreases n - i,
    {
        r.push(c);
        i = i + 1;
        assert(r@ =~= repeat_char(c, i as int));
    }
    r
}

/// Joins the lines with single spaces between consecutive lines.
fn join_lines_space(lines: &Vec<String>) -> (r: Vec<char>)
    ensures
        r@ == join_with(lines.deep_view(), seq![' ']),
{
    let ghost lv = lines.deep_view();
    let mut r: Vec<char> = Vec::new();
    let mut i: usize = 0;
    assert(lv.take(0) =~~= Seq::<Seq<char>>::empty());
    while i < lines.len()
        invariant
            i <= lines.len(),
            lv == lines.deep_view(),
            lv.len() == lines.len(),
            r@ == join_with(lv.take(i as int), seq![' ']),
        decreases lines.len() - i,
    {
        let ghost done = lv.take(i as int);
        proof {
            lemma_join_snoc(done, lv[i as int], seq![' ']);
            assert(lv.take(i as int + 1) =~~= done.push(lv[i as int]));
        }
        if i > 0 {
            r.push(' ');
        }
        let cs = string_chars(&lines[i]);
        assert(cs@ == lv[i as int]);
        push_all(&mut r, &cs);
        i = i + 1;
    }
    assert(lv.take(lines@.len() as int) =~~= lv);
    r
}

fn title_line_exec(lines: &Vec<String>, width: usize, style: &Style) -> (r: String)
    ensures
        r@ == title_text(lines.deep_view(), width as int, style@),
{
    let joined = join_lines_space(lines);
    let n = joined.len();
    let k = if width >= n {
        (width - n) / 2
    } else {
        0
    };
    let mut out = make_spaces(k);
    assert(out@ == centered_pad(join_with(lines.deep_view(), seq![' ']), width as int));
    let em = string_chars(&style.emphasis_on);
    push_all(&mut out, &em);
    push_all(&mut out, &joined);
    let rs = string_chars(&style.reset);
    push_all(&mut out, &rs);
    assert(out@ =~= title_text(lines.deep_view(), width as int, style@));
    chars_to_string(&out)
}

fn subheading_line_exec(line: &String, width: usize, style: &Style) -> (r: String)
    ensures
        r@ == subheading_text(line@, width as int, style@),
{
    let lc = string_chars(line);
    let n = lc.len();
    let w6 = if width >= 6 {
        width - 6
    } else {
        0
    };
    let k = if w6 >= n {
        (w6 - n) / 2
    } else {
        0
    };
    let mut out = make_spaces(k);
    let dim = string_chars(&style.dim_on);
    push_all(&mut out, &dim);
    out.push('\u{2014}');
    out.push('\u{2014}');
    out.push(' ');
    let ri = string_chars(&style.reset_italic);
    push_all(&mut out, &ri);
    push_all(&mut out, &lc);
    let rd = string_chars(&style.reset_dim);
    push_all(&mut out, &rd);
    out.push(' ');
    out.push('\u{2014}');
    out.push('\u{2014}');
    let rs = string_chars(&style.reset);
    push_all(&mut out, &rs);
    assert(out@ =~= subheading_text(line@, width as int, style@));
    chars_to_string(&out)
}

/// One sub-heading body entry for each line of the piece.
fn subheading_entries(lines: &Vec<String>, width: usize, style: &Style) -> (r: Vec<String>)
    ensures
        r.deep_view() == lines.deep_view().map_values(
            |l: Seq<char>| subheading_text(l, width as int, style@),
        ),
{
    let ghost lv = lines.deep_view();
    let mut r: Vec<String> = Vec::new();
    let mut i: usize = 0;
    while i < lines.len()
        invariant
            i <= lines.len(),
            lv == lines.deep_view(),
            lv.len() == lines.len(),
            r@.len() == i,
            forall|k: int|
                0 <= k < i ==> r.deep_view()[k] == subheading_text(lv[k], width as int, style@),
        decreases lines.len() - i,
    {
        let ghost prev = r.deep_view();
        let e = subheading_line_exec(&lines[i], width, style);
        assert(lines[i as int]@ == lv[i as int]);
        r.push(e);
        assert(r.deep_view() =~~= prev.push(subheading_text(lv[i as int], width as int, style@)));
        i = i + 1;
    }
    assert(r.deep_view() =~~= lv.map_values(|l: Seq<char>| subheading_text(l, width as int, style@)));
    r
}

/// One wrapped body entry for each line of the paragraph.
fn paragraph_entries(lines: &Vec<String>, width: usize) -> (r: Vec<String>)
    ensures
        r.deep_view() == lines.deep_view().map_values(|l: Seq<char>| wrapped_text(l, width as int)),
{
    let ghost lv = lines.deep_view();
    let mut r: Vec<String> = Vec::new();
    let mut i: usize = 0;
    while i < lines.len()
        invariant
            i <= lines.len(),
            lv == lines.deep_view(),
            lv.len() == lines.len(),
            r@.len() == i,
            forall|k: int| 0 <= k < i ==> r.deep_view()[k] == wrapped_text(lv[k], width as int),
        decreases lines.len() - i,
    {
        let ghost prev = r.deep_view();
        let lc = string_chars(&lines[i]);
        assert(lc@ == lv[i as int]);
        let w = wrap_chars(&lc, width);
        let e = chars_to_string(&w);
        r.push(e);
        assert(r.deep_view() =~~= prev.push(wrapped_text(lv[i as int], width as int)));
        i = i + 1;
    }
    assert(r.deep_view() =~~= lv.map_values(|l: Seq<char>| wrapped_text(l, width as int)));
    r
}

fn quote_longest_exec(lines: &Vec<String>) -> (r: usize)
    ensures
        r as int == quote_longest(lines.deep_view()),
{
    let ghost lv = lines.deep_view();
    let mut r: usize = 4;
    let mut i: usize = 0;
    assert(lv.take(0) =~~= Seq::<Seq<char>>::empty());
    while i < lines.len()
        invariant
            i <= lines.len(),
            lv == lines.deep_view(),
            lv.len() == lines.len(),
            r as int == quote_longest(lv.take(i as int)),
        decreases lines.len() - i,
    {
        let ghost done = lv.take(i as int);
        assert(lv.take(i as int + 1).drop_last() =~~= done);
        assert(lv.take(i as int + 1).last() == lv[i as int]);
        let n = lines[i].as_str().unicode_len();
        assert(n as int == lv[i as int].len());
        if n > r {
            r = n;
        }
        i = i + 1;
    }
    assert(lv.take(lines@.len() as int) =~~= lv);
    r
}

fn quote_border_exec(left: char, right: char, longest: usize, style: &Style) -> (r: String)
    ensures
        r@ == quote_border(left, right, longest as int, style@),
{
    let mut out = string_chars(&style.reset_dim);
    out.push(' ');
    out.push(' ');
    out.push(left);
    let dashes = make_repeat('\u{2500}', longest);
    push_all(&mut out, &dashes);
    out.push('\u{2500}');
    out.push('\u{2500}');
    out.push('\u{2500}');
    out.push('\u{2500}');
    out.push(right);
    let rs = string_chars(&style.reset);
    push_all(&mut out, &rs);
    assert(out@ =~= quote_border(left, right, longest as int, style@));
    chars_to_string(&out)
}

fn quote_interior_exec(line: &String, longest: usize, style: &Style) -> (r: String)
    requires
        line@.len() <= longest as int,
    ensures
        r@ == quote_interior(line@, longest as int, style@),
{
    let lc = string_chars(line);
    let mut out = string_chars(&style.reset_dim);
    out.push(' ');
    out.push(' ');
    out.push('\u{2502}');
    let rs = string_chars(&style.reset);
    push_all(&mut out, &rs);
    out.push(' ');
    out.push(' ');
    push_all(&mut out, &lc);
    let pad = make_spaces(longest - lc.len());
    push_all(&mut out, &pad);
    out.push(' ');
    out.push(' ');
    let rd = string_chars(&style.reset_dim);
    push_all(&mut out, &rd);
    out.push('\u{2502}');
    let rs2 = string_chars(&style.reset);
    push_all(&mut out, &rs2);
    assert(out@ =~= quote_interior(line@, longest as int, style@));
    chars_to_string(&out)
}

/// Renders the quote piece's lines as a bordered box. See [`quote_box`].
fn quote_box_exec(lines: &Vec<String>, style: &Style) -> (r: Vec<String>)
    ensures
        r.deep_view() == quote_box(lines.deep_view(), style@),
{
    let ghost lv = lines.deep_view();
    proof {
        lemma_quote_longest_bounds(lv);
    }
    let longest = quote_longest_exec(lines);
    let mut r: Vec<String> = Vec::new();
    let top = quote_border_exec('\u{250c}', '\u{2510}', longest, style);
    r.push(top);
    let mut i: usize = 0;
    while i < lines.len()
        invariant
            i <= lines.len(),
            lv == lines.deep_view(),
            lv.len() == lines.len(),
            longest as int == quote_longest(lv),
            forall|k: int| 0 <= k < lv.len() ==> (#[trigger] lv[k]).len() <= longest as int,
            r@.len() == i + 1,
            r.deep_view()[0] == quote_border('\u{250c}', '\u{2510}', longest as int, style@),
            forall|k: int|
                0 <= k < i ==> r.deep_view()[k + 1] == quote_interior(
                    lv[k],
                    longest as int,
                    style@,
                ),
        decreases lines.len() - i,
    {
        let ghost prev = r.deep_view();
        assert(lines[i as int]@ == lv[i as int]);
        let e = quote_interior_exec(&lines[i], longest, style);
        r.push(e);
        assert(r.deep_view() =~~= prev.push(quote_interior(lv[i as int], longest as int, style@)));
        i = i + 1;
    }
    let ghost prev = r.deep_view();
    let bottom = quote_border_exec('\u{2514}', '\u{2518}', longest, style);
    r.push(bottom);
    assert(r.deep_view() =~~= prev.push(
        quote_border('\u{2514}', '\u{2518}', longest as int, style@),
    ));
    assert(r.deep_view() =~~= quote_box(lv, style@));
    r
}

/// Builds the indentation of a list at `depth`: 4 spaces per level.
fn make_indent(depth: usize) -> (r: Vec<char>)
    ensures
        r@ == spaces(4 * depth as int),
{
    let mut r: Vec<char> = Vec::new();
    let mut i: usize = 0;
    while i < depth
        invariant
            i <= depth,
            r@ == spaces(4 * i as int),
        decreases depth - i,
    {
        r.push(' ');
        r.push(' ');
        r.push(' ');
        r.push(' ');
        i = i + 1;
        assert(r@ =~= spaces(4 * i as int));
    }
    r
}

/// Indents continuation lines. See [`hang_continuations`].
fn hang_exec(text: &Vec<char>, hang: &Vec<char>) -> (r: Vec<char>)
    ensures
        r@ == hang_continuations(text@, hang@),
{
    let mut r: Vec<char> = Vec::new();
    let mut i: usize = 0;
    assert(text@.skip(0) =~= text@);
    while i < text.len()
        invariant
            i <= text.len(),
            hang_continuations(text@, hang@) == r@ + hang_continuations(
                text@.skip(i as int),
                hang@,
            ),
        decreases text.len() - i,
    {
        let ghost rest = text@.skip(i as int);
        assert(rest[0] == text@[i as int]);
        assert(rest.drop_first() =~= text@.skip(i as int + 1));
        let ghost prev = r@;
        let c = text[i];
        if c == '\n' {
            r.push('\n');
            push_all(&mut r, hang);
            assert(r@ =~= prev + (seq!['\n'] + hang@));
            assert(prev + ((seq!['\n'] + hang@) + hang_continuations(rest.drop_first(), hang@))
                =~= r@ + hang_continuations(rest.drop_first(), hang@));
        } else {
            r.push(c);
            assert(r@ =~= prev + seq![c]);
            assert(prev + (seq![c] + hang_continuations(rest.drop_first(), hang@)) =~= r@
                + hang_continuations(rest.drop_first(), hang@));
        }
        i = i + 1;
    }
    assert(text@.skip(text@.len() as int) =~= Seq::<char>::empty());
    assert(r@ + Seq::<char>::empty() =~= r@);
    r
}

fn bullet_char_exec(depth: usize) -> (c: char)
    ensures
        c == bullet_char(depth as int),
{
    let m = depth % 3;
    assert(m as int == depth as int % 3);
    if m == 0 {
        '*'
    } else if m == 1 {
        '-'
    } else {
        '.'
    }
}

fn bullet_entry_exec(lines: &Vec<String>, depth: usize, width: usize, style: &Style) -> (r: String)
    ensures
        r@ == bullet_entry(lines.deep_view(), depth as int, width as int, style@),
{
    let joined = join_lines_space(lines);
    let indent = make_indent(depth);
    assert(indent@.len() == 4 * depth as int);
    let a = if width >= indent.len() {
        width - indent.len()
    } else {
        0
    };
    let nw = if a >= 4 {
        a - 4
    } else {
        0
    };
    assert(nw as int == max0(width as int - 4 * depth as int - 4));
    let wrapped = wrap_chars(&joined, nw);
    let mut hang: Vec<char> = Vec::new();
    push_all(&mut hang, &indent);
    hang.push(' ');
    hang.push(' ');
    hang.push(' ');
    hang.push(' ');
    assert(hang@ =~= spaces(4 * depth as int + 4));
    let hung = hang_exec(&wrapped, &hang);
    let mut out: Vec<char> = Vec::new();
    out.push(' ');
    out.push(' ');
    let dim = string_chars(&style.dim_on);
    push_all(&mut out, &dim);
    push_all(&mut out, &indent);
    out.push(bullet_char_exec(depth));
    let rs = string_chars(&style.reset);
    push_all(&mut out, &rs);
    out.push(' ');
    push_all(&mut out, &hung);
    assert(out@ =~= bullet_entry(lines.deep_view(), depth as int, width as int, style@));
    chars_to_string(&out)
}

fn numbered_entry_exec(
    lines: &Vec<String>,
    depth: usize,
    width: usize,
    n: usize,
    style: &Style,
) -> (r: String)
    ensures
        r@ == numbered_entry(lines.deep_view(), depth as int, width as int, n as int, style@),
{
    let joined = join_lines_space(lines);
    let indent = make_indent(depth);
    assert(indent@.len() == 4 * depth as int);
    let ms = format_number(n, depth);
    let marker = string_chars(&ms);
    assert(marker@ == ordinal_text(n as int, depth as int));
    let a = if width >= indent.len() {
        width - indent.len()
    } else {
        0
    };
    let b = if a >= marker.len() {
        a - marker.len()
    } else {
        0
    };
    let nw = if b >= 4 {
        b - 4
    } else {
        0
    };
    assert(nw as int == max0(width as int - 4 * depth as int - marker@.len() - 4));
    let wrapped = wrap_chars(&joined, nw);
    let mut hang: Vec<char> = Vec::new();
    push_all(&mut hang, &indent);
    let mpad = make_spaces(marker.len());
    push_all(&mut hang, &mpad);
    hang.push(' ');
    hang.push(' ');
    hang.push(' ');
    hang.push(' ');
    assert(hang@ =~= spaces(4 * depth as int + marker@.len() + 4));
    let hung = hang_exec(&wrapped, &hang);
    let mut out: Vec<char> = Vec::new();
    out.push(' ');
    out.push(' ');
    let dim = string_chars(&style.dim_on);
    push_all(&mut out, &dim);
    push_all(&mut out, &indent);
    push_all(&mut out, &marker);
    out.push('.');
    let rs = string_chars(&style.reset);
    push_all(&mut out, &rs);
    out.push(' ');
    push_all(&mut out, &hung);
    assert(out@ =~= numbered_entry(
        lines.deep_view(),
        depth as int,
        width as int,
        n as int,
        style@,
    ));
    chars_to_string(&out)
}

/// The per-depth counters of the executable builder, as the model's map.
pub open spec fn counters_view(cs: Seq<usize>) -> Seq<int> {
    cs.map_values(|c: usize| c as int)
}

/// Advances the counter at `depth` and returns the new 1-based count.
fn bump_counter_exec(counters: &mut Vec<usize>, depth: usize) -> (n: usize)
    requires
        counter_at(counters_view(old(counters)@), depth as int) < usize::MAX,
        counter_at(counters_view(old(counters)@), depth as int) >= 0,
    ensures
        counters_view(final(counters)@) == bump_counter(
            counters_view(old(counters)@),
            depth as int,
        ),
        n as int == counter_at(counters_view(old(counters)@), depth as int) + 1,
{
    let ghost cs0 = counters_view(old(counters)@);
    while counters.len() <= depth
        invariant
            counters@.len() >= old(counters)@.len(),
            counters@.len() <= depth + 1 || counters@.len() == old(counters)@.len(),
            forall|k: int| 0 <= k < old(counters)@.len() ==> counters@[k] == old(counters)@[k],
            forall|k: int|
                old(counters)@.len() <= k < counters@.len() ==> counters@[k] == 0usize,
        decreases depth + 1 - counters.len(),
    {
        counters.push(0);
    }
    assert(counters@.len() == if cs0.len() > depth as int {
        cs0.len() as int
    } else {
        depth as int + 1
    });
    let c = counters[depth];
    assert(c as int == counter_at(cs0, depth as int));
    let ghost grown = counters@;
    counters.set(depth, c + 1);
    let ghost bumped = bump_counter(cs0, depth as int);
    assert(counters_view(counters@) =~= bumped) by {
        assert(counters@.len() == bumped.len());
        assert forall|k: int| 0 <= k < bumped.len() implies counters_view(counters@)[k]
            == bumped[k] by {
            assert(counters_view(counters@)[k] == counters@[k] as int);
            if k == depth as int {
                assert(counters@[k] == c + 1);
            } else {
                assert(counters@[k] == grown[k]);
                assert(grown[k] as int == counter_at(cs0, k));
            }
        }
    }
    c + 1
}

/// The state of the executable builder, as a [`BuildState`].
pub open spec fn exec_build_state(
    slides: Seq<SlideView>,
    has_cur: bool,
    header: Seq<char>,
    body: Seq<Seq<char>>,
    counters: Seq<int>,
) -> BuildState {
    BuildState {
        slides: slides,
        current: if has_cur {
            Some((header, body))
        } else {
            None
        },
        counters: counters,
    }
}

/// Closes the open accumulator, if any, into `slides` as a normal slide.
fn flush_current_exec(slides: &mut Vec<Slide>, has_cur: bool, cur_header: String, cur_body: Vec<
    String,
>)
    ensures
        final(slides).deep_view() == flush_current(
            exec_build_state(
                old(slides).deep_view(),
                has_cur,
                cur_header@,
                cur_body.deep_view(),
                Seq::empty(),
            ),
        ),
{
    let ghost prev = slides.deep_view();
    if has_cur {
        let ghost sv = SlideView::Normal { header: cur_header@, body: cur_body.deep_view() };
        slides.push(Slide::Normal { header: cur_header, body: cur_body });
        assert(slides.deep_view() =~~= prev.push(sv));
    }
}

/// Appends body entries to the open accumulator, opening one with an
/// empty header when none is open. See [`append_body`].
fn append_entries(
    has_cur: &mut bool,
    cur_header: &mut String,
    cur_body: &mut Vec<String>,
    entries: Vec<String>,
)
    ensures
        *final(has_cur),
        final(cur_header)@ == if *old(has_cur) {
            old(cur_header)@
        } else {
            Seq::<char>::empty()
        },
        final(cur_body).deep_view() == if *old(has_cur) {
            old(cur_body).deep_view() + entries.deep_view()
        } else {
            entries.deep_view()
        },
{
    let mut entries = entries;
    let ghost ev = entries.deep_view();
    if *has_cur {
        let ghost prev = cur_body.deep_view();
        cur_body.append(&mut entries);
        assert(cur_body.deep_view() =~~= prev + ev);
    } else {
        *has_cur = true;
        *cur_header = String::new();
        *cur_body = entries;
    }
}

/// Builds the ordered slide sequence from the classified pieces, at the
/// given rendering width and style. See [`built_slides`] and
/// [`build_step`] for what each piece contributes.
pub fn make_slides(pieces: Vec<Piece>, width: usize, style: &Style) -> (r: Vec<Slide>)
    ensures
        r.deep_view() == built_slides(pieces.deep_view(), width as int, style@),
{
    let ghost pv = pieces.deep_view();
    let ghost sv = style@;
    let mut slides: Vec<Slide> = Vec::new();
    let mut has_cur: bool = false;
    let mut cur_header: String = String::new();
    let mut cur_body: Vec<String> = Vec::new();
    let mut counters: Vec<usize> = Vec::new();
    let mut i: usize = 0;
    assert(pv.take(0) =~~= Seq::<PieceView>::empty());
    assert(counters_view(counters@) =~~= Seq::<int>::empty());
    while i < pieces.len()
        invariant
            i <= pieces.len(),
            pv == pieces.deep_view(),
            pv.len() == pieces.len(),
            sv == style@,
            build_from(initial_build_state(), pv.take(i as int), width as int, sv)
                == exec_build_state(
                slides.deep_view(),
                has_cur,
                cur_header@,
                cur_body.deep_view(),
                counters_view(counters@),
            ),
            forall|d: int| counter_at(counters_view(counters@), d) <= i as int,
            forall|d: int| counter_at(counters_view(counters@), d) >= 0,
        decreases pieces.len() - i,
    {
        let ghost st = exec_build_state(
            slides.deep_view(),
            has_cur,
            cur_header@,
            cur_body.deep_view(),
            counters_view(counters@),
        );
        proof {
            lemma_build_snoc(initial_build_state(), pv.take(i as int), pv[i as int], width as int, sv);
            assert(pv.take(i as int + 1) =~~= pv.take(i as int).push(pv[i as int]));
        }
        let ghost target = build_step(st, pv[i as int], width as int, sv);
        let piece = &pieces[i];
        assert(piece@ == pv[i as int]);
        match piece.kind {
            PieceKind::Header { level } => {
                if level == 0 {
                    let title = title_line_exec(&piece.lines, width, style);
                    flush_current_exec(&mut slides, has_cur, cur_header, cur_body);
                    has_cur = false;
                    cur_header = String::new();
                    cur_body = Vec::new();
                    let ghost prev = slides.deep_view();
                    slides.push(Slide::Title { header: title });
                    assert(slides.deep_view() =~~= prev.push(
                        SlideView::Title {
                            header: title_text(pv[i as int].lines, width as int, sv),
                        },
                    ));
                    assert(slides.deep_view() =~~= target.slides);
                } else if level == 1 {
                    let title = title_line_exec(&piece.lines, width, style);
                    flush_current_exec(&mut slides, has_cur, cur_header, cur_body);
                    has_cur = true;
                    cur_header = title;
                    cur_body = Vec::new();
                    assert(slides.deep_view() =~~= target.slides);
                    assert(cur_body.deep_view() =~~= Seq::<Seq<char>>::empty());
                } else {
                    let entries = subheading_entries(&piece.lines, width, style);
                    assert(entries.deep_view() == pv[i as int].lines.map_values(
                        |l: Seq<char>| subheading_text(l, width as int, sv),
                    ));
                    append_entries(&mut has_cur, &mut cur_header, &mut cur_body, entries);
                }
            },
            PieceKind::Paragraph => {
                let entries = paragraph_entries(&piece.lines, width);
                assert(entries.deep_view() == pv[i as int].lines.map_values(
                    |l: Seq<char>| wrapped_text(l, width as int),
                ));
                append_entries(&mut has_cur, &mut cur_header, &mut cur_body, entries);
            },
            PieceKind::Quote => {
                let entries = quote_box_exec(&piece.lines, style);
                assert(entries.deep_view() == quote_box(pv[i as int].lines, sv));
                append_entries(&mut has_cur, &mut cur_header, &mut cur_body, entries);
            },
            PieceKind::ListItem { ordered, depth } => {
                if ordered {
                    assert(counter_at(counters_view(counters@), depth as int) < usize::MAX);
                    let ghost cs0 = counters_view(counters@);
                    let n = bump_counter_exec(&mut counters, depth);
                    let e = numbered_entry_exec(&piece.lines, depth, width, n, style);
                    let mut entries: Vec<String> = Vec::new();
                    entries.push(e);
                    assert(entries.deep_view() =~~= seq![
                        numbered_entry(
                            pv[i as int].lines,
                            depth as int,
                            width as int,
                            counter_at(cs0, depth as int) + 1,
                            sv,
                        ),
                    ]);
                    append_entries(&mut has_cur, &mut cur_header, &mut cur_body, entries);
                    proof {
                        assert forall|d: int|
                            counter_at(counters_view(counters@), d) <= i as int + 1 by {
                            lemma_bump_counter_at(cs0, depth as int, d);
                        }
                        assert forall|d: int|
                            counter_at(counters_view(counters@), d) >= 0 by {
                            lemma_bump_counter_at(cs0, depth as int, d);
                        }
                    }
                } else {
                    let e = bullet_entry_exec(&piece.lines, depth, width, style);
                    let mut entries: Vec<String> = Vec::new();
                    entries.push(e);
                    assert(entries.deep_view() =~~= seq![
                        bullet_entry(pv[i as int].lines, depth as int, width as int, sv),
                    ]);
                    append_entries(&mut has_cur, &mut cur_header, &mut cur_body, entries);
                }
            },
        }
        i = i + 1;
        assert(build_from(initial_build_state(), pv.take(i as int), width as int, sv)
            == exec_build_state(
            slides.deep_view(),
            has_cur,
            cur_header@,
            cur_body.deep_view(),
            counters_view(counters@),
        )) by {
            assert(target.slides =~~= slides.deep_view());
            assert(target.counters =~~= counters_view(counters@));
            match target.current {
                Some((h, b)) => {
                    assert(has_cur);
                    assert(h =~~= cur_header@);
                    assert(b =~~= cur_body.deep_view());
                },
                None => {
                    assert(!has_cur);
                },
            }
        }
    }
    assert(pv.take(pieces@.len() as int) =~~= pv);
    flush_current_exec(&mut slides, has_cur, cur_header, cur_body);
    assert(slides.deep_view() =~~= built_slides(pv, width as int, sv));
    slides
}

/// Ordinal counters advance strictly per depth across the whole document:
/// after any piece sequence, the counter at depth `d` equals the number
/// of ordered items met at depth `d`, however other depths interleave; so
/// an ordered item is numbered one more than the ordered items at its
/// depth before it.
pub proof fn lemma_ordinal_counters(ps: Seq<PieceView>, width: int, sty: StyleView, d: int)
    requires
        d >= 0,
    ensures
        counter_at(build_from(initial_build_state(), ps, width, sty).counters, d)
            == count_numbered_at(ps, d),
{
    lemma_build_counters(initial_build_state(), ps, width, sty, d);
}

} // verus!
