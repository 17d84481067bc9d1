//! Character-sequence utilities shared by the classifier and the renderer:
//! whitespace tokenizing, joining, padding, and `String` conversions.

use vstd::prelude::*;
use vstd::string::StrSliceExecFns;

verus! {

/// Whitespace for tokenizing: space, tab, carriage return, line feed.
pub open spec fn is_space_char(c: char) -> bool {
    c == ' ' || c == '\t' || c == '\r' || c == '\n'
}

pub(crate) fn is_space(c: char) -> (r: bool)
    ensures
        r == is_space_char(c),
{
    c == ' ' || c == '\t' || c == '\r' || c == '\n'
}

/// A word that contains no whitespace character.
pub open spec fn space_free(w: Seq<char>) -> bool {
    forall|j: int| 0 <= j < w.len() ==> !is_space_char(w[j])
}

/// Every word is non-empty and free of whitespace.
pub open spec fn valid_words(ws: Seq<Seq<char>>) -> bool {
    forall|i: int| 0 <= i < ws.len() ==> (#[trigger] ws[i]).len() > 0 && space_free(ws[i])
}

/// Helper for [`words_of`]: splits `s` into maximal non-whitespace runs,
/// with `cur` the partial word read so far.
pub open spec fn words_acc(s: Seq<char>, cur: Seq<char>) -> Seq<Seq<char>>
    decreases s.len(),
{
    if s.len() == 0 {
        if cur.len() == 0 {
            Seq::empty()
        } else {
            seq![cur]
        }
    } else if is_space_char(s[0]) {
        (if cur.len() == 0 {
            Seq::empty()
        } else {
            seq![cur]
        }) + words_acc(s.drop_first(), Seq::empty())
    } else {
        words_acc(s.drop_first(), cur.push(s[0]))
    }
}

/// The whitespace-delimited words of `s`, in order.
pub open spec fn words_of(s: Seq<char>) -> Seq<Seq<char>> {
    words_acc(s, Seq::empty())
}

/// The parts joined with `sep` between consecutive parts.
pub open spec fn join_with(parts: Seq<Seq<char>>, sep: Seq<char>) -> Seq<char>
    decreases parts.len(),
{
    if parts.len() == 0 {
        Seq::empty()
    } else if parts.len() == 1 {
        parts[0]
    } else {
        parts[0] + sep + join_with(parts.drop_first(), sep)
    }
}

/// `n` copies of `c` (none when `n` is negative).
pub open spec fn repeat_char(c: char, n: int) -> Seq<char> {
    Seq::new((if n < 0 { 0int } else { n }) as nat, |i: int| c)
}

/// `n` spaces.
pub open spec fn spaces(n: int) -> Seq<char> {
    repeat_char(' ', n)
}

/// Appending one part to the joined text appends a separator (when the
/// joined text was non-empty) and the part.
pub proof fn lemma_join_snoc(parts: Seq<Seq<char>>, x: Seq<char>, sep: Seq<char>)
    ensures
        join_with(parts.push(x), sep) == if parts.len() == 0 {
            x
        } else {
            join_with(parts, sep) + sep + x
        },
    decreases parts.len(),
{
    if parts.len() == 0 {
        assert(parts.push(x) =~= seq![x]);
    } else {
        lemma_join_snoc(parts.drop_first(), x, sep);
        assert(parts.push(x).drop_first() =~= parts.drop_first().push(x));
        if parts.len() == 1 {
            assert(join_with(parts.drop_first().push(x), sep) == x);
            assert(join_with(parts, sep) == parts[0]);
        }
    }
}

/// Splitting into words ignores how the text is cut at a whitespace
/// character: the words of `a + [c] + b` are the words of `a` followed by
/// the words of `b`.
pub proof fn lemma_words_acc_split(a: Seq<char>, c: char, b: Seq<char>, cur: Seq<char>)
    requires
        is_space_char(c),
    ensures
        words_acc(a + seq![c] + b, cur) == words_acc(a, cur) + words_acc(b, Seq::empty()),
    decreases a.len(),
{
    let s = a + seq![c] + b;
    if a.len() == 0 {
        assert(s =~= seq![c] + b);
        assert(s.drop_first() =~= b);
    } else {
        assert(s[0] == a[0]);
        assert(s.drop_first() =~= a.drop_first() + seq![c] + b);
        if is_space_char(a[0]) {
            lemma_words_acc_split(a.drop_first(), c, b, Seq::empty());
        } else {
            lemma_words_acc_split(a.drop_first(), c, b, cur.push(a[0]));
        }
    }
}

/// See [`lemma_words_acc_split`], stated over [`words_of`].
pub proof fn lemma_words_split(a: Seq<char>, c: char, b: Seq<char>)
    requires
        is_space_char(c),
    ensures
        words_of(a + seq![c] + b) == words_of(a) + words_of(b),
{
    lemma_words_acc_split(a, c, b, Seq::empty());
}

/// A whitespace-free, non-empty text is a single word.
pub proof fn lemma_words_acc_single(w: Seq<char>, cur: Seq<char>)
    requires
        space_free(w),
        cur.len() + w.len() > 0,
    ensures
        words_acc(w, cur) == seq![cur + w],
    decreases w.len(),
{
    if w.len() == 0 {
        assert(cur + w =~= cur);
    } else {
        assert(space_free(w.drop_first()));
        lemma_words_acc_single(w.drop_first(), cur.push(w[0]));
        assert(cur.push(w[0]) + w.drop_first() =~= cur + w);
    }
}

/// See [`lemma_words_acc_single`], stated over [`words_of`].
pub proof fn lemma_words_single(w: Seq<char>)
    requires
        space_free(w),
        w.len() > 0,
    ensures
        words_of(w) == seq![w],
{
    lemma_words_acc_single(w, Seq::empty());
    assert(Seq::<char>::empty() + w =~= w);
}

/// The words of any text are non-empty and whitespace-free.
pub proof fn lemma_words_acc_wf(s: Seq<char>, cur: Seq<char>)
    requires
        space_free(cur),
    ensures
        valid_words(words_acc(s, cur)),
    decreases s.len(),
{
    if s.len() == 0 {
    } else if is_space_char(s[0]) {
        lemma_words_acc_wf(s.drop_first(), Seq::empty());
        let rest = words_acc(s.drop_first(), Seq::empty());
        let whole = words_acc(s, cur);
        if cur.len() == 0 {
            assert(whole =~= rest);
        } else {
            assert forall|i: int| 0 <= i < whole.len() implies (#[trigger] whole[i]).len() > 0
                && space_free(whole[i]) by {
                if i == 0 {
                    assert(whole[0] == cur);
                } else {
                    assert(whole[i] == rest[i - 1]);
                }
            }
        }
    } else {
        assert(space_free(cur.push(s[0]))) by {
            assert(forall|j: int|
                0 <= j < cur.push(s[0]).len() ==> cur.push(s[0])[j] == if j < cur.len() {
                    cur[j]
                } else {
                    s[0]
                });
        }
        lemma_words_acc_wf(s.drop_first(), cur.push(s[0]));
    }
}

/// The words of any text are non-empty and whitespace-free.
pub proof fn lemma_words_wf(s: Seq<char>)
    ensures
        valid_words(words_of(s)),
{
    lemma_words_acc_wf(s, Seq::empty());
}

/// Builds a vector of `n` spaces.
pub(crate) fn make_spaces(n: usize) -> (r: Vec<char>)
    ensures
        r@ == spaces(n as int),
{
    let mut r: Vec<char> = Vec::new();
    let mut i: usize = 0;
    while i < n
        invariant
            i <= n,
            r@ == spaces(i as int),
        decreases n - i,
    {
        r.push(' ');
        i = i + 1;
        assert(r@ =~= spaces(i as int));
    }
    r
}

/// Appends every character of `src` to `dst`.
pub(crate) fn push_all(dst: &mut Vec<char>, src: &Vec<char>)
    ensures
        final(dst)@ == old(dst)@ + src@,
{
    let mut i: usize = 0;
    while i < src.len()
        invariant
            i <= src.len(),
            dst@ == old(dst)@ + src@.take(i as int),
        decreases src.len() - i,
    {
        dst.push(src[i]);
        i = i + 1;
        assert(dst@ =~= old(dst)@ + src@.take(i as int));
    }
    assert(src@.take(src@.len() as int) =~= src@);
}

/// The characters of `s`, in order.
pub(crate) fn str_to_chars(s: &str) -> (r: Vec<char>)
    ensures
        r@ == s@,
{
    let n = s.unicode_len();
    let mut r: Vec<char> = Vec::new();
    let mut i: usize = 0;
    while i < n
        invariant
            i <= n,
            n == s@.len(),
            r@ == s@.take(i as int),
        decreases n - i,
    {
        r.push(s.get_char(i));
        i = i + 1;
        assert(r@ =~= s@.take(i as int));
    }
    assert(s@.take(n as int) =~= s@);
    r
}

/// Relies on `String: FromIterator<char>` (through `Iterator::collect`):
/// the collected string holds exactly the iterated characters, in order.
#[verifier::external_body]
pub(crate) fn chars_to_string(v: &Vec<char>) -> (r: String)
    ensures
        r@ == v@,
{
    v.iter().collect()
}

/// Splits `text` into its whitespace-delimited words.
pub(crate) fn split_words(text: &Vec<char>) -> (r: Vec<Vec<char>>)
    ensures
        r.deep_view() == words_of(text@),
{
    let mut out: Vec<Vec<char>> = Vec::new();
    let mut cur: Vec<char> = Vec::new();
    let mut i: usize = 0;
    assert(text@.skip(0) =~= text@);
    assert(out.deep_view() =~~= Seq::<Seq<char>>::empty());
    assert(out.deep_view() + words_acc(text@, cur@) =~~= words_acc(text@, cur@));
    while i < text.len()
        invariant
            i <= text.len(),
            words_of(text@) == out.deep_view() + words_acc(text@.skip(i as int), cur@),
        decreases text.len() - i,
    {
        let ghost prev_out = out.deep_view();
        let ghost prev_cur = cur@;
        let ghost rest = text@.skip(i as int);
        assert(rest[0] == text@[i as int]);
        assert(rest.drop_first() =~= text@.skip(i as int + 1));
        let c = text[i];
        if is_space(c) {
            if cur.len() > 0 {
                out.push(cur);
                cur = Vec::new();
                assert(out.deep_view() =~~= prev_out.push(prev_cur));
                assert(cur@ =~= Seq::<char>::empty());
                assert(words_acc(rest, prev_cur) == seq![prev_cur] + words_acc(
                    rest.drop_first(),
                    Seq::empty(),
                ));
                assert(prev_out + (seq![prev_cur] + words_acc(rest.drop_first(), Seq::empty()))
                    =~~= out.deep_view() + words_acc(text@.skip(i as int + 1), cur@));
            } else {
                assert(prev_cur =~= Seq::<char>::empty());
                assert(words_acc(rest, prev_cur) == words_acc(rest.drop_first(), Seq::empty()));
            }
        } else {
            cur.push(c);
            assert(words_acc(rest, prev_cur) == words_acc(rest.drop_first(), prev_cur.push(c)));
        }
        i = i + 1;
    }
    assert(text@.skip(text@.len() as int) =~= Seq::<char>::empty());
    if cur.len() > 0 {
        let ghost prev_out = out.deep_view();
        let ghost prev_cur = cur@;
        out.push(cur);
        assert(out.deep_view() =~~= prev_out.push(prev_cur));
        assert(prev_out + seq![prev_cur] =~~= out.deep_view());
    } else {
        assert(cur@ =~= Seq::<char>::empty());
        assert(out.deep_view() + Seq::<Seq<char>>::empty() =~~= out.deep_view());
    }
    out
}

/// Joins `parts[start..]` with a single space between consecutive parts.
pub(crate) fn join_space_from(parts: &Vec<Vec<char>>, start: usize) -> (r: Vec<char>)
    requires
        start <= parts.len(),
    ensures
        r@ == join_with(parts.deep_view().skip(start as int), seq![' ']),
{
    let ghost tail = parts.deep_view().skip(start as int);
    let mut r: Vec<char> = Vec::new();
    let mut i: usize = start;
    while i < parts.len()
        invariant
            start <= i <= parts.len(),
            tail == parts.deep_view().skip(start as int),
            parts.deep_view().len() == parts.len(),
            r@ == join_with(tail.take(i - start), seq![' ']),
        decreases parts.len() - i,
    {
        let ghost done = tail.take(i - start);
        assert(tail.take(i + 1 - start) =~= done.push(parts.deep_view()[i as int]));
        proof {
            lemma_join_snoc(done, parts.deep_view()[i as int], seq![' ']);
        }
        if i > start {
            r.push(' ');
        }
        push_all(&mut r, &parts[i]);
        assert(parts.deep_view()[i as int] == parts[i as int]@);
        i = i + 1;
    }
    assert(tail.take(tail.len() as int) =~= tail);
    r
}

} // verus!
