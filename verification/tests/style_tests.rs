use fpy::render::wrap_styled_line;
use fpy::style::{
    render_styled_line, render_styled_segment, semantic_style, style_to_ansi, styled_line_width, Color, Modifier, Style,
    StyledLine, StyledSegment, TextStyle, UiStyle,
};

#[test]
fn maps_semantic_styles_to_ratatui_styles() {
    assert_eq!(semantic_style(UiStyle::InputPrompt).fg, Some(Color::Cyan));
    assert_eq!(semantic_style(UiStyle::OutputPrompt).fg, Some(Color::Red));
    assert_eq!(semantic_style(UiStyle::Runtime).fg, Some(Color::Indexed(244)));
    assert_eq!(semantic_style(UiStyle::FooterHint).fg, Some(Color::DarkGray));
    assert_eq!(semantic_style(UiStyle::ModeInsert).bg, Some(Color::Cyan));
}

#[test]
fn converts_ratatui_style_to_ansi() {
    let style = Style::plain()
        .fg(Color::Rgb(1, 2, 3))
        .bg(Color::Indexed(4))
        .add_modifier(Modifier { bold: true, italic: true, ..Modifier::empty() });

    assert_eq!(style_to_ansi(style), "\x1b[38;2;1;2;3m\x1b[48;5;4m\x1b[1m\x1b[3m");
}

#[test]
fn reset_colors_use_targeted_sgr_codes() {
    assert_eq!(style_to_ansi(Style::plain().fg(Color::Reset)), "\x1b[39m");
    assert_eq!(style_to_ansi(Style::plain().bg(Color::Reset)), "\x1b[49m");
}

#[test]
fn renders_whole_line_with_resets_between_segments() {
    let rendered = render_styled_line(&StyledLine::new(vec![
        StyledSegment::semantic("in".to_string(), UiStyle::InputPrompt),
        StyledSegment::raw("raw".to_string(), Style::plain().fg(Color::Red)),
        StyledSegment::semantic("plain".to_string(), UiStyle::Plain),
    ]));

    assert_eq!(rendered, "\x1b[36min\x1b[0m\x1b[31mraw\x1b[0mplain");
}

#[test]
fn renders_plain_after_styled_without_style_bleed() {
    let rendered = render_styled_line(&StyledLine::new(vec![
        StyledSegment::semantic("styled".to_string(), UiStyle::OutputPrompt),
        StyledSegment::semantic("plain".to_string(), UiStyle::Plain),
    ]));

    assert_eq!(rendered, "\x1b[31mstyled\x1b[0mplain");
}

#[test]
fn resets_line_end_for_styled_segment() {
    let rendered = render_styled_segment("x", TextStyle::Semantic(UiStyle::InputPrompt));

    assert!(rendered.ends_with("\x1b[0m"));
}

#[test]
fn measures_styled_line_by_visible_width() {
    let line = StyledLine::new(vec![
        StyledSegment::semantic("ab".to_string(), UiStyle::InputPrompt),
        StyledSegment::raw("語".to_string(), Style::plain().fg(Color::Red)),
    ]);

    assert_eq!(styled_line_width(&line), 4);
}

#[test]
fn wraps_styled_line_preserving_segment_styles() {
    let rows = wrap_styled_line(
        &StyledLine::new(vec![
            StyledSegment::semantic("abc".to_string(), UiStyle::InputPrompt),
            StyledSegment::semantic("def".to_string(), UiStyle::OutputPrompt),
        ]),
        4,
    );

    assert_eq!(rows.len(), 2);
    assert_eq!(rows[0].segments[0].text, "abc");
    assert_eq!(rows[0].segments[1].text, "d");
    assert_eq!(rows[0].segments[1].style, TextStyle::Semantic(UiStyle::OutputPrompt));
    assert_eq!(rows[1].segments[0].text, "ef");
    assert_eq!(styled_line_width(&rows[0]), 4);
    assert_eq!(styled_line_width(&rows[1]), 2);
}

#[test]
fn wraps_styled_line_on_newlines() {
    let rows = wrap_styled_line(&StyledLine::new(vec![StyledSegment::semantic("a\nb".to_string(), UiStyle::InputPrompt)]), 10);

    assert_eq!(rows.len(), 2);
    assert_eq!(rows[0].segments[0].text, "a");
    assert_eq!(rows[1].segments[0].text, "b");
}

#[test]
fn wide_character_that_does_not_fit_starts_a_new_row() {
    let rows = wrap_styled_line(&StyledLine::new(vec![StyledSegment::semantic("a語".to_string(), UiStyle::Plain)]), 2);

    assert_eq!(rows.len(), 2);
    assert_eq!(rows[0].segments[0].text, "a");
    assert_eq!(rows[1].segments[0].text, "語");
}

#[test]
fn every_wrapped_row_fits_the_width() {
    let line = StyledLine::new(vec![
        StyledSegment::semantic("print(".to_string(), UiStyle::InputPrompt),
        StyledSegment::semantic("'語語語 wide'".to_string(), UiStyle::Plain),
        StyledSegment::semantic(")".to_string(), UiStyle::OutputPrompt),
    ]);
    for width in 2..12u16 {
        let rows = wrap_styled_line(&line, width);
        assert!(!rows.is_empty());
        for row in &rows {
            assert!(styled_line_width(row) <= usize::from(width), "width {width}: {row:?}");
        }
    }
}
