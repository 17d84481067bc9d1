use slidetext::parse::parse_file;
use slidetext::parse::Piece;
use slidetext::parse::PieceKind;

fn piece(kind: PieceKind, lines: &[&str]) -> Piece {
    Piece { kind, lines: lines.iter().map(|l| l.to_string()).collect() }
}

#[test]
fn parse_empty_document() {
    assert_eq!(parse_file(""), vec![]);
}

#[test]
fn parse_blank_only_document() {
    assert_eq!(parse_file("\n\n  \n"), vec![]);
}

#[test]
fn parse_paragraph_groups_consecutive_lines() {
    assert_eq!(
        parse_file("hello\nworld"),
        vec![piece(PieceKind::Paragraph, &["hello", "world"])]
    );
}

#[test]
fn parse_blank_line_separates_paragraphs() {
    assert_eq!(
        parse_file("a\n\nb"),
        vec![
            piece(PieceKind::Paragraph, &["a"]),
            piece(PieceKind::Paragraph, &["b"]),
        ]
    );
}

#[test]
fn parse_blank_runs_act_like_one_blank() {
    assert_eq!(parse_file("a\n\n\n\n\nb"), parse_file("a\n\nb"));
}

#[test]
fn parse_paragraph_keeps_entire_original_line() {
    assert_eq!(
        parse_file("  hello   there"),
        vec![piece(PieceKind::Paragraph, &["  hello   there"])]
    );
}

#[test]
fn parse_header_levels_from_hash_run_length() {
    assert_eq!(
        parse_file("# One"),
        vec![piece(PieceKind::Header { level: 0 }, &["One"])]
    );
    assert_eq!(
        parse_file("## Two"),
        vec![piece(PieceKind::Header { level: 1 }, &["Two"])]
    );
    assert_eq!(
        parse_file("### Three deep"),
        vec![piece(PieceKind::Header { level: 2 }, &["Three deep"])]
    );
}

#[test]
fn parse_header_with_no_text_keeps_one_empty_line() {
    assert_eq!(parse_file("#"), vec![piece(PieceKind::Header { level: 0 }, &[""])]);
}

#[test]
fn parse_remainder_rejoins_tokens_with_single_spaces() {
    assert_eq!(
        parse_file("#   a    b  "),
        vec![piece(PieceKind::Header { level: 0 }, &["a b"])]
    );
}

#[test]
fn parse_header_terminates_open_paragraph_without_blank() {
    assert_eq!(
        parse_file("text line\n# Head"),
        vec![
            piece(PieceKind::Paragraph, &["text line"]),
            piece(PieceKind::Header { level: 0 }, &["Head"]),
        ]
    );
}

#[test]
fn parse_header_terminates_open_quote_without_blank() {
    assert_eq!(
        parse_file("> quoted\n## Head"),
        vec![
            piece(PieceKind::Quote, &["quoted"]),
            piece(PieceKind::Header { level: 1 }, &["Head"]),
        ]
    );
}

#[test]
fn parse_quote_lines_accumulate() {
    assert_eq!(
        parse_file("> one\n> two"),
        vec![piece(PieceKind::Quote, &["one", "two"])]
    );
}

#[test]
fn parse_quote_then_paragraph() {
    assert_eq!(
        parse_file("> one\nafter"),
        vec![
            piece(PieceKind::Quote, &["one"]),
            piece(PieceKind::Paragraph, &["after"]),
        ]
    );
}

#[test]
fn parse_unordered_items_and_depth() {
    assert_eq!(
        parse_file("- item"),
        vec![piece(PieceKind::ListItem { ordered: false, depth: 0 }, &["item"])]
    );
    assert_eq!(
        parse_file("    - nested item"),
        vec![piece(PieceKind::ListItem { ordered: false, depth: 1 }, &["nested item"])]
    );
    assert_eq!(
        parse_file("  - shallow"),
        vec![piece(PieceKind::ListItem { ordered: false, depth: 0 }, &["shallow"])]
    );
    assert_eq!(
        parse_file("        - deep"),
        vec![piece(PieceKind::ListItem { ordered: false, depth: 2 }, &["deep"])]
    );
}

#[test]
fn parse_ordered_items() {
    assert_eq!(
        parse_file("1. first"),
        vec![piece(PieceKind::ListItem { ordered: true, depth: 0 }, &["first"])]
    );
    assert_eq!(
        parse_file("12. twelfth"),
        vec![piece(PieceKind::ListItem { ordered: true, depth: 0 }, &["twelfth"])]
    );
    assert_eq!(
        parse_file("    3. nested"),
        vec![piece(PieceKind::ListItem { ordered: true, depth: 1 }, &["nested"])]
    );
}

#[test]
fn parse_list_items_close_each_other() {
    assert_eq!(
        parse_file("- a\n- b"),
        vec![
            piece(PieceKind::ListItem { ordered: false, depth: 0 }, &["a"]),
            piece(PieceKind::ListItem { ordered: false, depth: 0 }, &["b"]),
        ]
    );
}

#[test]
fn parse_marker_must_be_standalone_first_token() {
    assert_eq!(
        parse_file("-x not a list"),
        vec![piece(PieceKind::Paragraph, &["-x not a list"])]
    );
    assert_eq!(
        parse_file("word - dash inside"),
        vec![piece(PieceKind::Paragraph, &["word - dash inside"])]
    );
}

#[test]
fn parse_non_digit_markers_are_paragraphs() {
    assert_eq!(
        parse_file("1a. nope"),
        vec![piece(PieceKind::Paragraph, &["1a. nope"])]
    );
    assert_eq!(
        parse_file("+5. nope"),
        vec![piece(PieceKind::Paragraph, &["+5. nope"])]
    );
    assert_eq!(
        parse_file("1.2. nope"),
        vec![piece(PieceKind::Paragraph, &["1.2. nope"])]
    );
    assert_eq!(
        parse_file(". nope"),
        vec![piece(PieceKind::Paragraph, &[". nope"])]
    );
}

#[test]
fn parse_large_ordered_marker() {
    assert_eq!(
        parse_file("123456789012345678901234567890. big"),
        vec![piece(PieceKind::ListItem { ordered: true, depth: 0 }, &["big"])]
    );
}

#[test]
fn parse_crlf_line_endings() {
    assert_eq!(
        parse_file("a\r\nb\r\n"),
        vec![piece(PieceKind::Paragraph, &["a", "b"])]
    );
}

#[test]
fn parse_trailing_newline_adds_no_line() {
    assert_eq!(parse_file("a\n"), parse_file("a"));
}

#[test]
fn parse_tab_separated_tokens() {
    assert_eq!(
        parse_file("#\tTitle"),
        vec![piece(PieceKind::Header { level: 0 }, &["Title"])]
    );
}

#[test]
fn parse_mixed_document() {
    assert_eq!(
        parse_file("# Title Slide\n\n## Section\nHello world.\n\n- item one\n- item two\n"),
        vec![
            piece(PieceKind::Header { level: 0 }, &["Title Slide"]),
            piece(PieceKind::Header { level: 1 }, &["Section"]),
            piece(PieceKind::Paragraph, &["Hello world."]),
            piece(PieceKind::ListItem { ordered: false, depth: 0 }, &["item one"]),
            piece(PieceKind::ListItem { ordered: false, depth: 0 }, &["item two"]),
        ]
    );
}
