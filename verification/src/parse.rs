//! The line classifier: turns the raw document into an ordered sequence of
//! typed structural pieces (headers, paragraphs, list items, quotes).

use vstd::prelude::*;

use crate::chars::chars_to_string;
use crate::chars::join_with;
use crate::chars::split_words;
use crate::chars::str_to_chars;
use crate::chars::words_of;

verus! {

/// The kind of a classified piece of the document.
#[derive(Clone, Copy, Debug, PartialEq, Eq, Structural)]
pub enum PieceKind {
    Paragraph,
    Header { level: usize },
    ListItem { ordered: bool, depth: usize },
    Quote,
}

/// Mathematical model of a [`PieceKind`].
#[verifier::ext_equal]
pub enum PieceKindView {
    Paragraph,
    Header { level: int },
    ListItem { ordered: bool, depth: int },
    Quote,
}

impl View for PieceKind {
    type V = PieceKindView;

    open spec fn view(&self) -> PieceKindView {
        match *self {
            PieceKind::Paragraph => PieceKindView::Paragraph,
            PieceKind::Header { level } => PieceKindView::Header { level: level as int },
            PieceKind::ListItem { ordered, depth } => PieceKindView::ListItem {
                ordered,
                depth: depth as int,
            },
            PieceKind::Quote => PieceKindView::Quote,
        }
    }
}

impl DeepView for PieceKind {
    type V = PieceKindView;

    open spec fn deep_view(&self) -> PieceKindView {
        self.view()
    }
}

/// One classified structural unit of the source document: its kind and its
/// text lines, in insertion order.
#[derive(Debug, PartialEq, Eq)]
pub struct Piece {
    pub kind: PieceKind,
    pub lines: Vec<String>,
}

/// Mathematical model of a [`Piece`].
#[verifier::ext_equal]
pub struct PieceView {
    pub kind: PieceKindView,
    pub lines: Seq<Seq<char>>,
}

impl View for Piece {
    type V = PieceView;

    open spec fn view(&self) -> PieceView {
        PieceView { kind: self.kind@, lines: self.lines.deep_view() }
    }
}

impl DeepView for Piece {
    type V = PieceView;

    open spec fn deep_view(&self) -> PieceView {
        self.view()
    }
}

/// A line is blank when it has no whitespace-delimited token.
pub open spec fn is_blank_line(l: Seq<char>) -> bool {
    words_of(l).len() == 0
}

/// A token made of one or more `#` characters and nothing else.
pub open spec fn is_hash_run(t: Seq<char>) -> bool {
    t.len() > 0 && forall|i: int| 0 <= i < t.len() ==> t[i] == '#'
}

pub open spec fn is_digit_char(c: char) -> bool {
    c == '0' || c == '1' || c == '2' || c == '3' || c == '4' || c == '5' || c == '6' || c == '7'
        || c == '8' || c == '9'
}

/// A token of one or more digits followed by a single trailing period,
/// and nothing else.
pub open spec fn is_ordered_marker(t: Seq<char>) -> bool {
    t.len() >= 2 && t.last() == '.' && forall|i: int| 0 <= i < t.len() - 1 ==> is_digit_char(t[i])
}

/// The number of leading space characters of the line.
pub open spec fn leading_spaces(l: Seq<char>) -> int
    decreases l.len(),
{
    if l.len() == 0 {
        0
    } else if l[0] == ' ' {
        1 + leading_spaces(l.drop_first())
    } else {
        0
    }
}

/// List nesting depth: leading spaces divided by the indent size of 4.
pub open spec fn list_depth(l: Seq<char>) -> int {
    leading_spaces(l) / 4
}

/// The line after its first token: the remaining tokens rejoined with
/// single spaces.
pub open spec fn line_remainder(l: Seq<char>) -> Seq<char> {
    join_with(words_of(l).drop_first(), seq![' '])
}

/// The classifier's state: the pieces emitted so far and the piece still
/// being accumulated, if any.
#[verifier::ext_equal]
pub struct ParseState {
    pub emitted: Seq<PieceView>,
    pub open_piece: Option<PieceView>,
}

/// The emitted pieces once the open piece, if any, is closed.
pub open spec fn flush_open(st: ParseState) -> Seq<PieceView> {
    match st.open_piece {
        None => st.emitted,
        Some(p) => st.emitted.push(p),
    }
}

/// One step of the classifier: how reading one line changes its state.
///
/// In priority order: a blank line closes the open piece; a `#`-run token
/// emits a header; a `>` token continues or opens a quote; a `-` token
/// emits an unordered list item; a digits-and-period token emits an
/// ordered list item; anything else continues or opens a paragraph, which
/// keeps the entire original line.
pub open spec fn classify_line(st: ParseState, l: Seq<char>) -> ParseState {
    let toks = words_of(l);
    if toks.len() == 0 {
        ParseState { emitted: flush_open(st), open_piece: None }
    } else {
        let t0 = toks[0];
        let rest = line_remainder(l);
        if is_hash_run(t0) {
            ParseState {
                emitted: flush_open(st).push(
                    PieceView {
                        kind: PieceKindView::Header { level: t0.len() - 1 },
                        lines: seq![rest],
                    },
                ),
                open_piece: None,
            }
        } else if t0 == seq!['>'] {
            match st.open_piece {
                Some(p) => if p.kind is Quote {
                    ParseState {
                        emitted: st.emitted,
                        open_piece: Some(
                            PieceView { kind: PieceKindView::Quote, lines: p.lines.push(rest) },
                        ),
                    }
                } else {
                    ParseState {
                        emitted: st.emitted.push(p),
                        open_piece: Some(
                            PieceView { kind: PieceKindView::Quote, lines: seq![rest] },
                        ),
                    }
                },
                None => ParseState {
                    emitted: st.emitted,
                    open_piece: Some(PieceView { kind: PieceKindView::Quote, lines: seq![rest] }),
                },
            }
        } else if t0 == seq!['-'] {
            ParseState {
                emitted: flush_open(st).push(
                    PieceView {
                        kind: PieceKindView::ListItem { ordered: false, depth: list_depth(l) },
                        lines: seq![rest],
                    },
                ),
                open_piece: None,
            }
        } else if is_ordered_marker(t0) {
            ParseState {
                emitted: flush_open(st).push(
                    PieceView {
                        kind: PieceKindView::ListItem { ordered: true, depth: list_depth(l) },
                        lines: seq![rest],
                    },
                ),
                open_piece: None,
            }
        } else {
            match st.open_piece {
                Some(p) => if p.kind is Paragraph {
                    ParseState {
                        emitted: st.emitted,
                        open_piece: Some(
                            PieceView { kind: PieceKindView::Paragraph, lines: p.lines.push(l) },
                        ),
                    }
                } else {
                    ParseState {
                        emitted: st.emitted.push(p),
                        open_piece: Some(
                            PieceView { kind: PieceKindView::Paragraph, lines: seq![l] },
                        ),
                    }
                },
                None => ParseState {
                    emitted: st.emitted,
                    open_piece: Some(PieceView { kind: PieceKindView::Paragraph, lines: seq![l] }),
                },
            }
        }
    }
}

/// The classifier's state after reading every line of `ls`, from `st`.
pub open spec fn parse_lines_from(st: ParseState, ls: Seq<Seq<char>>) -> ParseState
    decreases ls.len(),
{
    if ls.len() == 0 {
        st
    } else {
        parse_lines_from(classify_line(st, ls[0]), ls.drop_first())
    }
}

pub open spec fn initial_parse_state() -> ParseState {
    ParseState { emitted: Seq::empty(), open_piece: None }
}

/// The pieces of a document given as its lines: read every line, then
/// close whatever piece remains open.
pub open spec fn parsed_pieces(ls: Seq<Seq<char>>) -> Seq<PieceView> {
    flush_open(parse_lines_from(initial_parse_state(), ls))
}

/// Helper for [`doc_lines`]: splits `s` at every line feed, with `cur` the
/// partial line read so far. Always yields one more part than there are
/// line feeds.
pub open spec fn split_acc(s: Seq<char>, cur: Seq<char>) -> Seq<Seq<char>>
    decreases s.len(),
{
    if s.len() == 0 {
        seq![cur]
    } else if s[0] == '\n' {
        seq![cur] + split_acc(s.drop_first(), Seq::empty())
    } else {
        split_acc(s.drop_first(), cur.push(s[0]))
    }
}

/// Drops a single carriage return at the end of a line, so that documents
/// with either line ending read the same.
pub open spec fn strip_cr(l: Seq<char>) -> Seq<char> {
    if l.len() > 0 && l.last() == '\r' {
        l.drop_last()
    } else {
        l
    }
}

/// The physical lines of a document: split at line feeds, a final empty
/// part (from a trailing line feed) dropped, and a trailing carriage
/// return removed from each line.
pub open spec fn doc_lines(s: Seq<char>) -> Seq<Seq<char>> {
    let parts = split_acc(s, Seq::empty());
    let kept = if parts.last().len() == 0 {
        parts.drop_last()
    } else {
        parts
    };
    kept.map_values(|l: Seq<char>| strip_cr(l))
}

proof fn lemma_split_acc_len(s: Seq<char>, cur: Seq<char>)
    ensures
        split_acc(s, cur).len() >= 1,
    decreases s.len(),
{
    if s.len() == 0 {
    } else if s[0] == '\n' {
        lemma_split_acc_len(s.drop_first(), Seq::empty());
    } else {
        lemma_split_acc_len(s.drop_first(), cur.push(s[0]));
    }
}

fn is_hash_token(t: &Vec<char>) -> (r: bool)
    ensures
        r == is_hash_run(t@),
{
    if t.len() == 0 {
        return false;
    }
    let mut i: usize = 0;
    while i < t.len()
        invariant
            i <= t.len(),
            t@.len() > 0,
            forall|j: int| 0 <= j < i ==> t@[j] == '#',
        decreases t.len() - i,
    {
        if t[i] != '#' {
            return false;
        }
        i = i + 1;
    }
    true
}

fn is_digit(c: char) -> (r: bool)
    ensures
        r == is_digit_char(c),
{
    c == '0' || c == '1' || c == '2' || c == '3' || c == '4' || c == '5' || c == '6' || c == '7'
        || c == '8' || c == '9'
}

fn is_ordered_token(t: &Vec<char>) -> (r: bool)
    ensures
        r == is_ordered_marker(t@),
{
    if t.len() < 2 {
        return false;
    }
    if t[t.len() - 1] != '.' {
        return false;
    }
    let mut i: usize = 0;
    while i < t.len() - 1
        invariant
            t@.len() >= 2,
            i <= t@.len() - 1,
            t@.last() == '.',
            forall|j: int| 0 <= j < i ==> is_digit_char(t@[j]),
        decreases t.len() - i,
    {
        if !is_digit(t[i]) {
            return false;
        }
        i = i + 1;
    }
    true
}

proof fn lemma_leading_spaces_prefix(l: Seq<char>, i: int)
    requires
        0 <= i <= l.len(),
        forall|j: int| 0 <= j < i ==> l[j] == ' ',
        i == l.len() || l[i] != ' ',
    ensures
        leading_spaces(l) == i,
    decreases l.len(),
{
    if l.len() == 0 {
    } else if i == 0 {
    } else {
        assert(l[0] == ' ');
        assert(forall|j: int| 0 <= j < i - 1 ==> l.drop_first()[j] == l[j + 1]);
        assert(i - 1 == l.drop_first().len() || l.drop_first()[i - 1] != ' ');
        lemma_leading_spaces_prefix(l.drop_first(), i - 1);
    }
}

fn leading_space_count(l: &Vec<char>) -> (r: usize)
    ensures
        r as int == leading_spaces(l@),
{
    let mut i: usize = 0;
    while i < l.len() && l[i] == ' '
        invariant
            i <= l.len(),
            forall|j: int| 0 <= j < i ==> l@[j] == ' ',
        decreases l.len() - i,
    {
        i = i + 1;
    }
    proof {
        lemma_leading_spaces_prefix(l@, i as int);
    }
    i
}

/// Splits a document into its physical lines. See [`doc_lines`].
fn split_doc_lines(text: &Vec<char>) -> (r: Vec<Vec<char>>)
    ensures
        r.deep_view() == doc_lines(text@),
{
    let mut parts: Vec<Vec<char>> = Vec::new();
    let mut cur: Vec<char> = Vec::new();
    let mut i: usize = 0;
    assert(text@.skip(0) =~= text@);
    assert(parts.deep_view() + split_acc(text@, cur@) =~~= split_acc(text@, Seq::empty()));
    while i < text.len()
        invariant
            i <= text.len(),
            split_acc(text@, Seq::empty()) == parts.deep_view() + split_acc(
                text@.skip(i as int),
                cur@,
            ),
        decreases text.len() - i,
    {
        let ghost rest = text@.skip(i as int);
        assert(rest[0] == text@[i as int]);
        assert(rest.drop_first() =~= text@.skip(i as int + 1));
        let c = text[i];
        if c == '\n' {
            let ghost prev_parts = parts.deep_view();
            let ghost prev_cur = cur@;
            parts.push(cur);
            cur = Vec::new();
            assert(parts.deep_view() =~~= prev_parts.push(prev_cur));
            assert(cur@ =~= Seq::<char>::empty());
            assert(prev_parts + (seq![prev_cur] + split_acc(rest.drop_first(), Seq::empty()))
                =~~= parts.deep_view() + split_acc(text@.skip(i as int + 1), cur@));
        } else {
            cur.push(c);
        }
        i = i + 1;
    }
    assert(text@.skip(text@.len() as int) =~= Seq::<char>::empty());
    let ghost prev_parts = parts.deep_view();
    let ghost prev_cur = cur@;
    parts.push(cur);
    assert(parts.deep_view() =~~= prev_parts.push(prev_cur));
    assert(prev_parts + seq![prev_cur] =~~= parts.deep_view());
    let ghost raw = split_acc(text@, Seq::empty());
    assert(parts.deep_view() == raw);
    proof {
        lemma_split_acc_len(text@, Seq::empty());
    }
    let ghost kept = if raw.last().len() == 0 {
        raw.drop_last()
    } else {
        raw
    };
    assert(parts.deep_view().last() == raw.last());
    if parts[parts.len() - 1].len() == 0 {
        assert(parts@[parts@.len() - 1]@ == raw.last());
        parts.pop();
        assert(parts.deep_view() =~~= raw.drop_last());
    }
    assert(parts.deep_view() == kept);
    let mut out: Vec<Vec<char>> = Vec::new();
    let mut j: usize = 0;
    while j < parts.len()
        invariant
            j <= parts.len(),
            parts.deep_view() == kept,
            parts@.len() == kept.len(),
            out@.len() == j,
            forall|k: int| 0 <= k < j ==> out.deep_view()[k] == strip_cr(kept[k]),
        decreases parts.len() - j,
    {
        let mut s: Vec<char> = Vec::new();
        crate::chars::push_all(&mut s, &parts[j]);
        assert(s@ == parts@[j as int]@);
        assert(parts@[j as int]@ == kept[j as int]);
        if s.len() > 0 && s[s.len() - 1] == '\r' {
            s.pop();
            assert(s@ =~= kept[j as int].drop_last());
        }
        assert(s@ == strip_cr(kept[j as int]));
        let ghost prev_out = out.deep_view();
        out.push(s);
        assert(out.deep_view() =~~= prev_out.push(strip_cr(kept[j as int])));
        j = j + 1;
    }
    assert(out.deep_view() =~~= kept.map_values(|l: Seq<char>| strip_cr(l)));
    out
}

/// The state of the executable classifier, as a [`ParseState`].
pub open spec fn exec_parse_state(
    emitted: Seq<PieceView>,
    has_open: bool,
    kind: PieceKindView,
    lines: Seq<Seq<char>>,
) -> ParseState {
    ParseState {
        emitted: emitted,
        open_piece: if has_open {
            Some(PieceView { kind: kind, lines: lines })
        } else {
            None
        },
    }
}

/// Closes the open piece, if any, into `out`.
fn flush_open_exec(out: &mut Vec<Piece>, has_open: bool, open_kind: PieceKind, open_lines: Vec<
    String,
>)
    ensures
        final(out).deep_view() == flush_open(
            exec_parse_state(old(out).deep_view(), has_open, open_kind@, open_lines.deep_view()),
        ),
{
    let ghost prev = out.deep_view();
    if has_open {
        let ghost pv = PieceView { kind: open_kind@, lines: open_lines.deep_view() };
        out.push(Piece { kind: open_kind, lines: open_lines });
        assert(out.deep_view() =~~= prev.push(pv));
    }
}

/// Reading one more line advances the classifier by one step.
proof fn lemma_parse_snoc(st: ParseState, ls: Seq<Seq<char>>, l: Seq<char>)
    ensures
        parse_lines_from(st, ls.push(l)) == classify_line(parse_lines_from(st, ls), l),
    decreases ls.len(),
{
    if ls.len() == 0 {
        assert(ls.push(l)[0] == l);
        assert(ls.push(l).drop_first() =~~= Seq::<Seq<char>>::empty());
        assert(parse_lines_from(st, ls.push(l)) == parse_lines_from(
            classify_line(st, l),
            Seq::empty(),
        ));
        assert(parse_lines_from(classify_line(st, l), Seq::empty()) == classify_line(st, l));
        assert(parse_lines_from(st, ls) == st);
    } else {
        assert(ls.push(l)[0] == ls[0]);
        assert(ls.push(l).drop_first() =~~= ls.drop_first().push(l));
        lemma_parse_snoc(classify_line(st, ls[0]), ls.drop_first(), l);
        assert(parse_lines_from(st, ls.push(l)) == parse_lines_from(
            classify_line(st, ls[0]),
            ls.drop_first().push(l),
        ));
        assert(parse_lines_from(st, ls) == parse_lines_from(
            classify_line(st, ls[0]),
            ls.drop_first(),
        ));
    }
}

/// Reading a concatenation reads the first part, then the second.
proof fn lemma_parse_append(st: ParseState, a: Seq<Seq<char>>, b: Seq<Seq<char>>)
    ensures
        parse_lines_from(st, a + b) == parse_lines_from(parse_lines_from(st, a), b),
    decreases a.len(),
{
    if a.len() == 0 {
        assert(a + b =~~= b);
    } else {
        assert((a + b)[0] == a[0]);
        assert((a + b).drop_first() =~~= a.drop_first() + b);
        lemma_parse_append(classify_line(st, a[0]), a.drop_first(), b);
    }
}

/// Any non-empty run of blank lines closes the open piece and leaves the
/// classifier with none, whatever the run's length.
proof fn lemma_parse_blanks(st: ParseState, bs: Seq<Seq<char>>)
    requires
        bs.len() >= 1,
        forall|i: int| 0 <= i < bs.len() ==> is_blank_line(#[trigger] bs[i]),
    ensures
        parse_lines_from(st, bs) == (ParseState { emitted: flush_open(st), open_piece: None }),
    decreases bs.len(),
{
    let st1 = classify_line(st, bs[0]);
    assert(st1 == ParseState { emitted: flush_open(st), open_piece: None });
    if bs.len() == 1 {
        assert(bs.drop_first() =~~= Seq::<Seq<char>>::empty());
    } else {
        assert(forall|i: int|
            0 <= i < bs.drop_first().len() ==> bs.drop_first()[i] == bs[i + 1]);
        lemma_parse_blanks(st1, bs.drop_first());
        assert(flush_open(st1) == st1.emitted);
    }
}

/// Blank-line runs of any length behave exactly like a single blank line:
/// the classifier closes the open piece once and ignores the extra blanks.
pub proof fn lemma_blank_runs_collapse(
    pre: Seq<Seq<char>>,
    blanks: Seq<Seq<char>>,
    one: Seq<char>,
    suf: Seq<Seq<char>>,
)
    requires
        blanks.len() >= 1,
        forall|i: int| 0 <= i < blanks.len() ==> is_blank_line(#[trigger] blanks[i]),
        is_blank_line(one),
    ensures
        parsed_pieces(pre + blanks + suf) == parsed_pieces(pre + seq![one] + suf),
{
    let init = initial_parse_state();
    let st_pre = parse_lines_from(init, pre);
    lemma_parse_append(init, pre + blanks, suf);
    lemma_parse_append(init, pre, blanks);
    lemma_parse_append(init, pre + seq![one], suf);
    lemma_parse_append(init, pre, seq![one]);
    lemma_parse_blanks(st_pre, blanks);
    lemma_parse_blanks(st_pre, seq![one]);
}

/// A header line always closes the open piece, even without a preceding
/// blank line: the open paragraph, quote, or list piece is emitted first,
/// and the header piece right after it.
pub proof fn lemma_header_closes_open_piece(st: ParseState, p: PieceView, l: Seq<char>)
    requires
        st.open_piece == Some(p),
        words_of(l).len() > 0,
        is_hash_run(words_of(l)[0]),
    ensures
        classify_line(st, l).open_piece is None,
        classify_line(st, l).emitted == st.emitted.push(p).push(
            PieceView {
                kind: PieceKindView::Header { level: words_of(l)[0].len() - 1 },
                lines: seq![line_remainder(l)],
            },
        ),
{
}

/// Classifies a document into its pieces, one physical line at a time.
/// See [`classify_line`] for the rules.
pub fn parse_file(file: &str) -> (r: Vec<Piece>)
    ensures
        r.deep_view() == parsed_pieces(doc_lines(file@)),
{
    let cs = str_to_chars(file);
    let lines = split_doc_lines(&cs);
    let ghost lv = lines.deep_view();
    let mut out: Vec<Piece> = Vec::new();
    let mut has_open: bool = false;
    let mut open_kind: PieceKind = PieceKind::Paragraph;
    let mut open_lines: Vec<String> = Vec::new();
    let mut i: usize = 0;
    assert(lv.take(0) =~~= Seq::<Seq<char>>::empty());
    while i < lines.len()
        invariant
            i <= lines.len(),
            lv == lines.deep_view(),
            lv.len() == lines.len(),
            parse_lines_from(initial_parse_state(), lv.take(i as int)) == exec_parse_state(
                out.deep_view(),
                has_open,
                open_kind@,
                open_lines.deep_view(),
            ),
        decreases lines.len() - i,
    {
        let ghost st = exec_parse_state(
            out.deep_view(),
            has_open,
            open_kind@,
            open_lines.deep_view(),
        );
        proof {
            lemma_parse_snoc(initial_parse_state(), lv.take(i as int), lv[i as int]);
            assert(lv.take(i as int + 1) =~~= lv.take(i as int).push(lv[i as int]));
        }
        let line = &lines[i];
        assert(line@ == lv[i as int]);
        let ghost target = classify_line(st, lv[i as int]);
        let toks = split_words(line);
        let ghost tv = toks.deep_view();
        assert(tv == words_of(lv[i as int]));
        if toks.len() == 0 {
            assert(tv.len() == 0);
            flush_open_exec(&mut out, has_open, open_kind, open_lines);
            has_open = false;
            open_lines = Vec::new();
        } else {
            assert(tv.len() > 0);
            let t0 = &toks[0];
            assert(t0@ == tv[0]);
            let rest_chars = crate::chars::join_space_from(&toks, 1);
            assert(tv.skip(1) =~~= tv.drop_first());
            let rest = chars_to_string(&rest_chars);
            assert(rest@ == line_remainder(lv[i as int]));
            if is_hash_token(t0) {
                let level = t0.len() - 1;
                flush_open_exec(&mut out, has_open, open_kind, open_lines);
                has_open = false;
                open_lines = Vec::new();
                let ghost prev = out.deep_view();
                let piece = Piece { kind: PieceKind::Header { level }, lines: vec![rest] };
                assert(piece@.lines =~~= seq![line_remainder(lv[i as int])]);
                out.push(piece);
                assert(out.deep_view() =~~= prev.push(
                    PieceView {
                        kind: PieceKindView::Header { level: tv[0].len() - 1 },
                        lines: seq![line_remainder(lv[i as int])],
                    },
                ));
            } else {
                let is_gt = t0.len() == 1 && t0[0] == '>';
                assert(is_gt == (tv[0] == seq!['>'])) by {
                    if t0@.len() == 1 && t0@[0] == '>' {
                        assert(t0@ =~= seq!['>']);
                    }
                    if tv[0] == seq!['>'] {
                        assert(t0@.len() == 1 && t0@[0] == '>');
                    }
                }
                if is_gt {
                    if has_open && open_kind == PieceKind::Quote {
                        assert(open_kind@ is Quote);
                        open_lines.push(rest);
                        assert(open_lines.deep_view() =~~= st.open_piece->Some_0.lines.push(
                            line_remainder(lv[i as int]),
                        ));
                    } else {
                        flush_open_exec(&mut out, has_open, open_kind, open_lines);
                        has_open = true;
                        open_kind = PieceKind::Quote;
                        open_lines = Vec::new();
                        open_lines.push(rest);
                        assert(open_lines.deep_view() =~~= seq![line_remainder(lv[i as int])]);
                    }
                } else {
                    let is_dash = t0.len() == 1 && t0[0] == '-';
                    assert(is_dash == (tv[0] == seq!['-'])) by {
                        if t0@.len() == 1 && t0@[0] == '-' {
                            assert(t0@ =~= seq!['-']);
                        }
                        if tv[0] == seq!['-'] {
                            assert(t0@.len() == 1 && t0@[0] == '-');
                        }
                    }
                    if is_dash {
                        let depth = leading_space_count(line) / 4;
                        flush_open_exec(&mut out, has_open, open_kind, open_lines);
                        has_open = false;
                        open_lines = Vec::new();
                        let ghost prev = out.deep_view();
                        let piece = Piece {
                            kind: PieceKind::ListItem { ordered: false, depth },
                            lines: vec![rest],
                        };
                        out.push(piece);
                        assert(out.deep_view() =~~= prev.push(
                            PieceView {
                                kind: PieceKindView::ListItem {
                                    ordered: false,
                                    depth: list_depth(lv[i as int]),
                                },
                                lines: seq![line_remainder(lv[i as int])],
                            },
                        ));
                    } else if is_ordered_token(t0) {
                        let depth = leading_space_count(line) / 4;
                        flush_open_exec(&mut out, has_open, open_kind, open_lines);
                        has_open = false;
                        open_lines = Vec::new();
                        let ghost prev = out.deep_view();
                        let piece = Piece {
                            kind: PieceKind::ListItem { ordered: true, depth },
                            lines: vec![rest],
                        };
                        out.push(piece);
                        assert(out.deep_view() =~~= prev.push(
                            PieceView {
                                kind: PieceKindView::ListItem {
                                    ordered: true,
                                    depth: list_depth(lv[i as int]),
                                },
                                lines: seq![line_remainder(lv[i as int])],
                            },
                        ));
                    } else {
                        let whole = chars_to_string(line);
                        assert(whole@ == lv[i as int]);
                        if has_open && open_kind == PieceKind::Paragraph {
                            assert(open_kind@ is Paragraph);
                            open_lines.push(whole);
                            assert(open_lines.deep_view() =~~= st.open_piece->Some_0.lines.push(
                                lv[i as int],
                            ));
                        } else {
                            flush_open_exec(&mut out, has_open, open_kind, open_lines);
                            has_open = true;
                            open_kind = PieceKind::Paragraph;
                            open_lines = Vec::new();
                            open_lines.push(whole);
                            assert(open_lines.deep_view() =~~= seq![lv[i as int]]);
                        }
                    }
                }
            }
        }
        i = i + 1;
        assert(parse_lines_from(initial_parse_state(), lv.take(i as int)) =~~= exec_parse_state(
            out.deep_view(),
            has_open,
            open_kind@,
            open_lines.deep_view(),
        ));
    }
    assert(lv.take(lines.len() as int) =~~= lv);
    flush_open_exec(&mut out, has_open, open_kind, open_lines);
    assert(out.deep_view() =~~= parsed_pieces(doc_lines(file@)));
    out
}

} // verus!
