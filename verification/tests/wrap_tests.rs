use slidetext::ordinal::format_number;
use slidetext::wrap::centered_padding;
use slidetext::wrap::wrap_words;

#[test]
fn wrap_short_text_fits_on_one_line() {
    assert_eq!(wrap_words("hello world", 100), "hello world");
}

#[test]
fn wrap_greedy_lines() {
    assert_eq!(
        wrap_words("The quick brown fox jumps over the lazy dog", 10),
        "The quick\nbrown fox\njumps over\nthe lazy\ndog"
    );
}

#[test]
fn wrap_long_word_overflows_without_splitting() {
    assert_eq!(wrap_words("aaaa bb", 3), "aaaa\nbb");
    assert_eq!(wrap_words("abcdef", 3), "abcdef");
}

#[test]
fn wrap_word_of_exact_width() {
    assert_eq!(wrap_words("abcd", 4), "abcd");
    assert_eq!(wrap_words("ab cd", 5), "ab cd");
    assert_eq!(wrap_words("abc de", 5), "abc\nde");
}

#[test]
fn wrap_empty_and_whitespace_only() {
    assert_eq!(wrap_words("", 5), "");
    assert_eq!(wrap_words("   ", 5), "");
    assert_eq!(wrap_words("\t\n", 5), "");
}

#[test]
fn wrap_collapses_whitespace_runs() {
    assert_eq!(wrap_words("a   b", 10), "a b");
    assert_eq!(wrap_words("  a \t b  ", 10), "a b");
}

#[test]
fn wrap_is_idempotent_on_its_output() {
    let once = wrap_words("The quick brown fox jumps over the lazy dog", 10);
    let twice = wrap_words(&once, 10);
    assert_eq!(twice, once);
}

#[test]
fn wrap_is_idempotent_even_with_overflowing_words() {
    let once = wrap_words("abcdefgh ij", 4);
    let twice = wrap_words(&once, 4);
    assert_eq!(twice, once);
}

#[test]
fn centered_padding_halves_leftover_columns() {
    assert_eq!(centered_padding("abc", 11), "    ");
    assert_eq!(centered_padding("abc", 10), "   ");
    assert_eq!(centered_padding("", 5), "  ");
}

#[test]
fn centered_padding_is_empty_when_text_too_wide() {
    assert_eq!(centered_padding("abc", 2), "");
    assert_eq!(centered_padding("abc", 3), "");
}

#[test]
fn format_number_decimal_at_depth_zero() {
    assert_eq!(format_number(1, 0), "1");
    assert_eq!(format_number(12, 0), "12");
    assert_eq!(format_number(305, 0), "305");
    assert_eq!(format_number(0, 0), "0");
}

#[test]
fn format_number_letters_at_depth_one() {
    assert_eq!(format_number(1, 1), "a");
    assert_eq!(format_number(2, 1), "b");
    assert_eq!(format_number(3, 1), "c");
    assert_eq!(format_number(4, 1), "d");
    assert_eq!(format_number(5, 1), "?");
}

#[test]
fn format_number_roman_at_depth_two() {
    assert_eq!(format_number(1, 2), "i");
    assert_eq!(format_number(2, 2), "ii");
    assert_eq!(format_number(3, 2), "iii");
    assert_eq!(format_number(4, 2), "iv");
    assert_eq!(format_number(5, 2), "?");
}

#[test]
fn format_number_depth_cycles_by_three() {
    assert_eq!(format_number(7, 3), "7");
    assert_eq!(format_number(2, 4), "b");
    assert_eq!(format_number(2, 5), "ii");
}
