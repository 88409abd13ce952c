use trycli::ansi::{ansi_color, ansi_color_256, ansi_to_text, apply_sgr, Color, Style};

fn plain() -> Style {
    Style::plain()
}

#[test]
fn bold_red_segment_then_reset() {
    let t = ansi_to_text("\x1b[1;31mHELLO\x1b[0m");
    assert_eq!(t.lines.len(), 1);
    assert_eq!(t.lines[0].spans.len(), 1);
    let span = &t.lines[0].spans[0];
    assert_eq!(span.text, b"HELLO".to_vec());
    let mut expected = plain();
    expected.bold = true;
    expected.fg = Some(Color::Red);
    assert_eq!(span.style, expected);
}

#[test]
fn text_after_reset_is_plain() {
    let t = ansi_to_text("\x1b[1;31mHELLO\x1b[0m world");
    assert_eq!(t.lines.len(), 1);
    assert_eq!(t.lines[0].spans.len(), 2);
    assert_eq!(t.lines[0].spans[1].text, b" world".to_vec());
    assert_eq!(t.lines[0].spans[1].style, plain());
}

#[test]
fn palette_table_entries() {
    assert_eq!(ansi_color_256(16), Color::Rgb(0, 0, 0));
    assert_eq!(ansi_color_256(21), Color::Rgb(0, 0, 255));
    assert_eq!(ansi_color_256(232), Color::Rgb(8, 8, 8));
    assert_eq!(ansi_color_256(255), Color::Rgb(238, 238, 238));
    assert_eq!(ansi_color_256(254), Color::Rgb(228, 228, 228));
    assert_eq!(ansi_color_256(196), Color::Rgb(255, 0, 0));
    assert_eq!(ansi_color_256(59), Color::Rgb(95, 95, 95));
    assert_eq!(ansi_color_256(9), Color::LightRed);
}

#[test]
fn standard_colors() {
    assert_eq!(ansi_color(0), Color::Black);
    assert_eq!(ansi_color(7), Color::Gray);
    assert_eq!(ansi_color(8), Color::DarkGray);
    assert_eq!(ansi_color(15), Color::White);
    assert_eq!(ansi_color(16), Color::Reset);
}

#[test]
fn extended_foreground_and_background() {
    let mut s = plain();
    apply_sgr(b"38;5;21;48;2;1;2;3", &mut s);
    assert_eq!(s.fg, Some(Color::Rgb(0, 0, 255)));
    assert_eq!(s.bg, Some(Color::Rgb(1, 2, 3)));
}

#[test]
fn incomplete_extended_color_is_skipped() {
    let mut s = plain();
    apply_sgr(b"38;5", &mut s);
    assert_eq!(s, plain());
    let mut s = plain();
    apply_sgr(b"38;2;1;2;1", &mut s);
    assert_eq!(s.fg, Some(Color::Rgb(1, 2, 1)));
    let mut s = plain();
    apply_sgr(b"48;2;1;2", &mut s);
    assert_eq!(s.bg, None);
}

#[test]
fn attribute_codes_set_and_clear() {
    let mut s = plain();
    apply_sgr(b"1;2;3;4;7", &mut s);
    assert!(s.bold && s.dim && s.italic && s.underlined && s.reversed);
    apply_sgr(b"22", &mut s);
    assert!(!s.bold && !s.dim && s.italic);
    apply_sgr(b"23;24;27", &mut s);
    assert_eq!(s, plain());
}

#[test]
fn bright_and_default_colors() {
    let mut s = plain();
    apply_sgr(b"92;104", &mut s);
    assert_eq!(s.fg, Some(Color::LightGreen));
    assert_eq!(s.bg, Some(Color::LightBlue));
    apply_sgr(b"39;49", &mut s);
    assert_eq!(s.fg, Some(Color::Reset));
    assert_eq!(s.bg, Some(Color::Reset));
    apply_sgr(b"44", &mut s);
    assert_eq!(s.bg, Some(Color::Blue));
}

#[test]
fn empty_parameters_reset() {
    let mut s = plain();
    s.bold = true;
    apply_sgr(b"", &mut s);
    assert_eq!(s, plain());
}

#[test]
fn unknown_and_oversized_codes_are_ignored() {
    let mut s = plain();
    apply_sgr(b"5;70000;;1", &mut s);
    let mut expected = plain();
    expected.bold = true;
    assert_eq!(s, expected);
}

#[test]
fn newlines_split_lines_and_style_carries() {
    let t = ansi_to_text("\x1b[32mab\ncd\r\n\nx");
    assert_eq!(t.lines.len(), 4);
    assert_eq!(t.lines[0].spans[0].text, b"ab".to_vec());
    assert_eq!(t.lines[1].spans[0].text, b"cd".to_vec());
    assert_eq!(t.lines[1].spans[0].style.fg, Some(Color::Green));
    assert_eq!(t.lines[2].spans.len(), 0);
    assert_eq!(t.lines[3].spans[0].text, b"x".to_vec());
    assert_eq!(t.lines[3].spans[0].style.fg, Some(Color::Green));
}

#[test]
fn other_control_sequences_are_dropped() {
    let t = ansi_to_text("a\x1b[2Kb\x1b[");
    assert_eq!(t.lines.len(), 1);
    assert_eq!(t.lines[0].spans.len(), 2);
    assert_eq!(t.lines[0].spans[0].text, b"a".to_vec());
    assert_eq!(t.lines[0].spans[1].text, b"b".to_vec());
    assert_eq!(t.lines[0].spans[1].style, plain());
}

#[test]
fn empty_input_has_no_lines() {
    assert_eq!(ansi_to_text("").lines.len(), 0);
    assert_eq!(ansi_to_text("\x1b[1m").lines.len(), 0);
}

#[test]
fn decoding_is_repeatable() {
    let a = ansi_to_text("\x1b[1mx\x1b[0my\nz");
    let b = ansi_to_text("\x1b[1mx\x1b[0my\nz");
    assert_eq!(format!("{:?}", a), format!("{:?}", b));
}
