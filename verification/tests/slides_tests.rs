use slidetext::parse::parse_file;
use slidetext::parse::Piece;
use slidetext::parse::PieceKind;
use slidetext::slides::make_slides;
use slidetext::slides::Slide;
use slidetext::slides::Style;

fn piece(kind: PieceKind, lines: &[&str]) -> Piece {
    Piece { kind, lines: lines.iter().map(|l| l.to_string()).collect() }
}

fn marked_style() -> Style {
    Style {
        emphasis_on: "<T>".to_string(),
        reset: "</>".to_string(),
        dim_on: "<d>".to_string(),
        reset_italic: "<i>".to_string(),
        reset_dim: "<rd>".to_string(),
    }
}

fn body(slide: &Slide) -> Vec<String> {
    match slide {
        Slide::Title { .. } => panic!("expected a normal slide"),
        Slide::Normal { body, .. } => body.clone(),
    }
}

#[test]
fn empty_document_yields_no_slides() {
    assert_eq!(make_slides(parse_file(""), 20, &Style::plain()), vec![]);
}

#[test]
fn title_and_section_scenario() {
    let pieces = parse_file("# Title Slide\n\n## Section\nHello world.\n\n- item one\n- item two\n");
    let slides = make_slides(pieces, 20, &Style::plain());
    assert_eq!(
        slides,
        vec![
            Slide::Title { header: "    Title Slide".to_string() },
            Slide::Normal {
                header: "      Section".to_string(),
                body: vec![
                    "Hello world.".to_string(),
                    "  * item one".to_string(),
                    "  * item two".to_string(),
                ],
            },
        ]
    );
}

#[test]
fn quote_box_pads_to_longest_line() {
    let pieces = vec![piece(PieceKind::Quote, &["short", "a longer line"])];
    let slides = make_slides(pieces, 40, &Style::plain());
    assert_eq!(slides.len(), 1);
    let b = body(&slides[0]);
    let rule = "\u{2500}".repeat(17);
    assert_eq!(
        b,
        vec![
            format!("  \u{250c}{}\u{2510}", rule),
            format!("  \u{2502}  short{}  \u{2502}", " ".repeat(8)),
            format!("  \u{2502}  a longer line  \u{2502}"),
            format!("  \u{2514}{}\u{2518}", rule),
        ]
    );
    for line in &b {
        assert_eq!(line.chars().count(), 13 + 8);
    }
}

#[test]
fn quote_box_minimum_interior_width() {
    let pieces = vec![piece(PieceKind::Quote, &["ab"])];
    let b = body(&make_slides(pieces, 40, &Style::plain())[0]);
    for line in &b {
        assert_eq!(line.chars().count(), 4 + 8);
    }
    assert_eq!(b[1], "  \u{2502}  ab    \u{2502}");
}

#[test]
fn ordinal_counters_increment_per_depth() {
    let pieces = parse_file(" 1. a\n 1. b\n    2. sub\n 1. c");
    let slides = make_slides(pieces, 30, &Style::plain());
    assert_eq!(
        body(&slides[0]),
        vec![
            "  1. a".to_string(),
            "  2. b".to_string(),
            "      a. sub".to_string(),
            "  3. c".to_string(),
        ]
    );
}

#[test]
fn ordinal_counters_do_not_reset_at_slide_boundaries() {
    let pieces = parse_file("1. a\n\n## S\n\n1. b");
    let slides = make_slides(pieces, 10, &Style::plain());
    assert_eq!(slides.len(), 2);
    assert_eq!(body(&slides[0]), vec!["  1. a".to_string()]);
    assert_eq!(body(&slides[1]), vec!["  2. b".to_string()]);
}

#[test]
fn ordinal_letters_fall_back_to_placeholder() {
    let pieces = parse_file("    1. a\n    1. b\n    1. c\n    1. d\n    1. e");
    let b = body(&make_slides(pieces, 30, &Style::plain())[0]);
    assert_eq!(
        b,
        vec![
            "      a. a".to_string(),
            "      b. b".to_string(),
            "      c. c".to_string(),
            "      d. d".to_string(),
            "      ?. e".to_string(),
        ]
    );
}

#[test]
fn unordered_markers_cycle_with_depth() {
    let pieces = parse_file("- a\n    - b\n        - c\n            - d");
    let b = body(&make_slides(pieces, 60, &Style::plain())[0]);
    assert_eq!(
        b,
        vec![
            "  * a".to_string(),
            "      - b".to_string(),
            "          . c".to_string(),
            "              * d".to_string(),
        ]
    );
}

#[test]
fn bullet_continuation_lines_align_under_text() {
    let pieces = vec![piece(PieceKind::ListItem { ordered: false, depth: 0 }, &["word word word word"])];
    let b = body(&make_slides(pieces, 14, &Style::plain())[0]);
    assert_eq!(b, vec!["  * word word\n    word word".to_string()]);
}

#[test]
fn numbered_continuation_indent_counts_marker_width() {
    let pieces = vec![piece(PieceKind::ListItem { ordered: true, depth: 0 }, &["aaa bbb ccc"])];
    let b = body(&make_slides(pieces, 12, &Style::plain())[0]);
    assert_eq!(b, vec!["  1. aaa bbb\n     ccc".to_string()]);
}

#[test]
fn subheading_is_centered_with_flanking_rules() {
    let pieces = parse_file("### Sub");
    let slides = make_slides(pieces, 20, &Style::plain());
    assert_eq!(
        slides,
        vec![Slide::Normal {
            header: "".to_string(),
            body: vec!["     \u{2014}\u{2014} Sub \u{2014}\u{2014}".to_string()],
        }]
    );
}

#[test]
fn paragraph_lines_wrap_independently() {
    let pieces = vec![piece(PieceKind::Paragraph, &["one two three", "four"])];
    let b = body(&make_slides(pieces, 8, &Style::plain())[0]);
    assert_eq!(b, vec!["one two\nthree".to_string(), "four".to_string()]);
}

#[test]
fn slide_count_counts_headers_plus_leading_content() {
    let pieces = parse_file("intro\n\n# T\n## S\ntext");
    let slides = make_slides(pieces, 10, &Style::plain());
    assert_eq!(slides.len(), 3);
    assert!(matches!(slides[0], Slide::Normal { .. }));
    assert!(matches!(slides[1], Slide::Title { .. }));
    assert!(matches!(slides[2], Slide::Normal { .. }));
}

#[test]
fn content_after_title_opens_headerless_slide() {
    let pieces = parse_file("# T\npara");
    let slides = make_slides(pieces, 10, &Style::plain());
    assert_eq!(slides.len(), 2);
    assert_eq!(
        slides[1],
        Slide::Normal { header: "".to_string(), body: vec!["para".to_string()] }
    );
}

#[test]
fn style_marks_are_placed_around_spans() {
    let sty = marked_style();
    let slides = make_slides(parse_file("# Hi"), 10, &sty);
    assert_eq!(slides, vec![Slide::Title { header: "    <T>Hi</>".to_string() }]);

    let b = body(&make_slides(parse_file("- x"), 10, &sty)[0]);
    assert_eq!(b, vec!["  <d>*</> x".to_string()]);

    let b = body(&make_slides(parse_file("1. x"), 10, &sty)[0]);
    assert_eq!(b, vec!["  <d>1.</> x".to_string()]);

    let b = body(&make_slides(parse_file("### S"), 16, &sty)[0]);
    assert_eq!(
        b,
        vec!["    <d>\u{2014}\u{2014} <i>S<rd> \u{2014}\u{2014}</>".to_string()]
    );
}

#[test]
fn ansi_escape_style_matches_terminal_output() {
    let sty = Style {
        emphasis_on: "\u{1b}[1;4m".to_string(),
        reset: "\u{1b}[0m".to_string(),
        dim_on: "\u{1b}[2m".to_string(),
        reset_italic: "\u{1b}[0;3m".to_string(),
        reset_dim: "\u{1b}[0;2m".to_string(),
    };
    let slides = make_slides(parse_file("# Hi\n- x"), 10, &sty);
    assert_eq!(
        slides,
        vec![
            Slide::Title { header: "    \u{1b}[1;4mHi\u{1b}[0m".to_string() },
            Slide::Normal {
                header: "".to_string(),
                body: vec!["  \u{1b}[2m*\u{1b}[0m x".to_string()],
            },
        ]
    );
}

#[test]
fn header_levels_beyond_two_are_subheadings_too() {
    let slides = make_slides(parse_file("#### Four"), 20, &Style::plain());
    assert_eq!(
        body(&slides[0]),
        vec!["     \u{2014}\u{2014} Four \u{2014}\u{2014}".to_string()]
    );
}

#[test]
fn quote_padding_counts_characters_not_bytes() {
    let pieces = vec![piece(PieceKind::Quote, &["h\u{e9}\u{e9}", "aaaaa"])];
    let b = body(&make_slides(pieces, 40, &Style::plain())[0]);
    assert_eq!(b[1], "  \u{2502}  h\u{e9}\u{e9}    \u{2502}");
    for line in &b {
        assert_eq!(line.chars().count(), 5 + 8);
    }
}

#[test]
fn centering_counts_characters_not_bytes() {
    let slides = make_slides(parse_file("# \u{e9}\u{e9}"), 6, &Style::plain());
    assert_eq!(slides, vec![Slide::Title { header: "  \u{e9}\u{e9}".to_string() }]);
}

#[test]
fn subheading_joins_the_open_slide() {
    let slides = make_slides(parse_file("## S\n\n### T\ntext"), 20, &Style::plain());
    assert_eq!(
        slides,
        vec![Slide::Normal {
            header: "         S".to_string(),
            body: vec![
                "      \u{2014}\u{2014} T \u{2014}\u{2014}".to_string(),
                "text".to_string(),
            ],
        }]
    );
}

#[test]
fn narrow_width_degrades_to_zero_wrap_width() {
    let pieces = vec![piece(PieceKind::ListItem { ordered: false, depth: 0 }, &["a b"])];
    let b = body(&make_slides(pieces, 2, &Style::plain())[0]);
    assert_eq!(b, vec!["  * a\n    b".to_string()]);
}
