//! Greedy word-wrap to a target column width, and centering padding.

use vstd::prelude::*;
use vstd::string::StrSliceExecFns;

use crate::chars::chars_to_string;
use crate::chars::join_with;
use crate::chars::lemma_join_snoc;
use crate::chars::lemma_words_single;
use crate::chars::lemma_words_split;
use crate::chars::lemma_words_wf;
use crate::chars::push_all;
use crate::chars::spaces;
use crate::chars::split_words;
use crate::chars::str_to_chars;
use crate::chars::valid_words;
use crate::chars::words_of;

verus! {

/// The lines of the greedy wrap of the words `ws` after `cur`, the line
/// currently being filled: a word is appended to the current line when it
/// fits in `width` together with a separating space, and otherwise starts
/// a new line. A word longer than `width` overflows its line rather than
/// being split.
pub open spec fn wrap_go(ws: Seq<Seq<char>>, width: int, cur: Seq<char>) -> Seq<Seq<char>>
    decreases ws.len(),
{
    if ws.len() == 0 {
        seq![cur]
    } else if cur.len() + 1 + ws[0].len() <= width {
        wrap_go(ws.drop_first(), width, cur + seq![' '] + ws[0])
    } else {
        seq![cur] + wrap_go(ws.drop_first(), width, ws[0])
    }
}

/// The lines of the greedy wrap of the words `ws` to `width`.
pub open spec fn wrap_lines(ws: Seq<Seq<char>>, width: int) -> Seq<Seq<char>> {
    if ws.len() == 0 {
        Seq::empty()
    } else {
        wrap_go(ws.drop_first(), width, ws[0])
    }
}

/// The greedy wrap of `text` to `width`, as one newline-joined text.
/// A text without words wraps to the empty text.
pub open spec fn wrapped_text(text: Seq<char>, width: int) -> Seq<char> {
    join_with(wrap_lines(words_of(text), width), seq!['\n'])
}

/// The padding that centers `text` in a row of `width` columns: half the
/// leftover columns, rounded down, and none when `text` is too wide.
pub open spec fn centered_pad(text: Seq<char>, width: int) -> Seq<char> {
    spaces((if width >= text.len() { width - text.len() } else { 0int }) / 2)
}

/// The wrap never returns an empty sequence of lines once a line is open.
proof fn lemma_wrap_go_len(ws: Seq<Seq<char>>, width: int, cur: Seq<char>)
    ensures
        wrap_go(ws, width, cur).len() >= 1,
    decreases ws.len(),
{
    if ws.len() == 0 {
    } else if cur.len() + 1 + ws[0].len() <= width {
        lemma_wrap_go_len(ws.drop_first(), width, cur + seq![' '] + ws[0]);
    } else {
        lemma_wrap_go_len(ws.drop_first(), width, ws[0]);
    }
}

/// The words of the wrapped text are the line words followed by the
/// pending words: wrapping rearranges whitespace only.
proof fn lemma_wrap_go_words(ws: Seq<Seq<char>>, width: int, cur: Seq<char>)
    requires
        valid_words(ws),
    ensures
        words_of(join_with(wrap_go(ws, width, cur), seq!['\n'])) == words_of(cur) + ws,
    decreases ws.len(),
{
    if ws.len() == 0 {
        assert(join_with(seq![cur], seq!['\n']) == cur);
        assert(words_of(cur) + ws =~~= words_of(cur));
    } else {
        let w0 = ws[0];
        assert(w0.len() > 0 && crate::chars::space_free(w0));
        assert(valid_words(ws.drop_first())) by {
            assert(forall|i: int|
                0 <= i < ws.drop_first().len() ==> ws.drop_first()[i] == ws[i + 1]);
        }
        if cur.len() + 1 + w0.len() <= width {
            let cur2 = cur + seq![' '] + w0;
            lemma_wrap_go_words(ws.drop_first(), width, cur2);
            lemma_words_split(cur, ' ', w0);
            lemma_words_single(w0);
            assert(words_of(cur2) =~~= words_of(cur) + seq![w0]);
            assert((words_of(cur) + seq![w0]) + ws.drop_first() =~~= words_of(cur) + ws);
        } else {
            let rest = wrap_go(ws.drop_first(), width, w0);
            lemma_wrap_go_len(ws.drop_first(), width, w0);
            lemma_wrap_go_words(ws.drop_first(), width, w0);
            let parts = seq![cur] + rest;
            assert(parts.len() >= 2);
            assert(parts[0] == cur);
            assert(parts.drop_first() =~~= rest);
            assert(join_with(parts, seq!['\n']) == cur + seq!['\n'] + join_with(
                rest,
                seq!['\n'],
            ));
            lemma_words_split(cur, '\n', join_with(rest, seq!['\n']));
            lemma_words_single(w0);
            assert(words_of(cur) + (seq![w0] + ws.drop_first()) =~~= words_of(cur) + ws);
        }
    }
}

/// Wrapping preserves the word sequence of the text.
pub proof fn lemma_wrap_words_preserved(text: Seq<char>, width: int)
    ensures
        words_of(wrapped_text(text, width)) == words_of(text),
{
    let ws = words_of(text);
    lemma_words_wf(text);
    if ws.len() == 0 {
        assert(wrapped_text(text, width) == Seq::<char>::empty());
        assert(words_of(Seq::<char>::empty()) =~~= Seq::<Seq<char>>::empty());
        assert(ws =~~= Seq::<Seq<char>>::empty());
    } else {
        assert(valid_words(ws.drop_first())) by {
            assert(forall|i: int|
                0 <= i < ws.drop_first().len() ==> ws.drop_first()[i] == ws[i + 1]);
        }
        lemma_wrap_go_words(ws.drop_first(), width, ws[0]);
        lemma_words_single(ws[0]);
        assert(seq![ws[0]] + ws.drop_first() =~~= ws);
    }
}

/// Word-wrap is idempotent: wrapping wrapped text at the same width
/// reproduces it unchanged.
pub proof fn lemma_wrap_idempotent(text: Seq<char>, width: int)
    ensures
        wrapped_text(wrapped_text(text, width), width) == wrapped_text(text, width),
{
    lemma_wrap_words_preserved(text, width);
}

/// Greedy word-wrap of `text` to `width` columns, producing a
/// newline-joined string. See [`wrapped_text`].
pub fn wrap_words(text: &str, width: usize) -> (r: String)
    ensures
        r@ == wrapped_text(text@, width as int),
{
    let text_chars = str_to_chars(text);
    let out = wrap_chars(&text_chars, width);
    chars_to_string(&out)
}

/// Greedy word-wrap over character vectors. See [`wrapped_text`].
pub(crate) fn wrap_chars(text: &Vec<char>, width: usize) -> (r: Vec<char>)
    ensures
        r@ == wrapped_text(text@, width as int),
{
    let ws = split_words(text);
    let ghost wsv = ws.deep_view();
    if ws.len() == 0 {
        assert(wrap_lines(wsv, width as int) =~~= Seq::<Seq<char>>::empty());
        let out: Vec<char> = Vec::new();
        return out;
    }
    proof {
        lemma_words_wf(text@);
    }
    let mut out: Vec<char> = Vec::new();
    let mut cur: Vec<char> = Vec::new();
    push_all(&mut cur, &ws[0]);
    assert(cur@ =~= wsv[0]);
    assert(cur@.len() > 0);
    let ghost mut flushed: Seq<Seq<char>> = Seq::empty();
    let mut i: usize = 1;
    assert(wsv.skip(1) =~~= wsv.drop_first());
    assert(wrap_lines(wsv, width as int) == flushed + wrap_go(
        wsv.skip(1),
        width as int,
        cur@,
    )) by {
        assert(Seq::<Seq<char>>::empty() + wrap_go(wsv.drop_first(), width as int, wsv[0])
            =~~= wrap_go(wsv.drop_first(), width as int, wsv[0]));
    }
    while i < ws.len()
        invariant
            1 <= i <= ws.len(),
            wsv == ws.deep_view(),
            wsv.len() == ws.len(),
            wrap_lines(wsv, width as int) == flushed + wrap_go(
                wsv.skip(i as int),
                width as int,
                cur@,
            ),
            out@ == join_with(flushed, seq!['\n']),
            flushed.len() == 0 <==> out@.len() == 0,
            cur@.len() > 0,
            valid_words(wsv),
        decreases ws.len() - i,
    {
        let ghost rem = wsv.skip(i as int);
        assert(rem[0] == wsv[i as int]);
        assert(rem.drop_first() =~~= wsv.skip(i as int + 1));
        assert(ws[i as int]@ == wsv[i as int]);
        let w = &ws[i];
        let fits = cur.len() < width && w.len() <= width - cur.len() - 1;
        assert(fits == (cur@.len() + 1 + rem[0].len() <= width as int));
        if fits {
            let ghost prev_cur = cur@;
            cur.push(' ');
            push_all(&mut cur, w);
            assert(cur@ =~= prev_cur + seq![' '] + rem[0]);
        } else {
            let ghost prev_flushed = flushed;
            let ghost prev_cur = cur@;
            proof {
                lemma_join_snoc(prev_flushed, prev_cur, seq!['\n']);
            }
            if out.len() > 0 {
                out.push('\n');
            } else {
                assert(prev_flushed.len() == 0);
            }
            push_all(&mut out, &cur);
            proof {
                flushed = prev_flushed.push(prev_cur);
            }
            assert(out@ == join_with(flushed, seq!['\n']));
            cur.clear();
            push_all(&mut cur, w);
            assert(cur@ =~= rem[0]);
            assert(wrap_go(rem, width as int, prev_cur) == seq![prev_cur] + wrap_go(
                rem.drop_first(),
                width as int,
                rem[0],
            ));
            assert(prev_flushed + (seq![prev_cur] + wrap_go(
                rem.drop_first(),
                width as int,
                rem[0],
            )) =~~= flushed + wrap_go(rem.drop_first(), width as int, rem[0]));
        }
        i = i + 1;
        assert(wrap_lines(wsv, width as int) == flushed + wrap_go(
            wsv.skip(i as int),
            width as int,
            cur@,
        ));
    }
    assert(wsv.skip(ws.len() as int) =~~= Seq::<Seq<char>>::empty());
    assert(wrap_go(Seq::empty(), width as int, cur@) == seq![cur@]);
    proof {
        lemma_join_snoc(flushed, cur@, seq!['\n']);
        assert(flushed.push(cur@) =~~= flushed + seq![cur@]);
    }
    if out.len() > 0 {
        out.push('\n');
    } else {
        assert(flushed.len() == 0);
    }
    push_all(&mut out, &cur);
    assert(out@ == wrapped_text(text@, width as int));
    out
}

/// The run of spaces that centers `text` in `width` columns. See
/// [`centered_pad`].
pub fn centered_padding(text: &str, width: usize) -> (r: String)
    ensures
        r@ == centered_pad(text@, width as int),
{
    let n = text.unicode_len();
    let k = if width >= n {
        (width - n) / 2
    } else {
        0
    };
    let v = crate::chars::make_spaces(k);
    chars_to_string(&v)
}

} // verus!
