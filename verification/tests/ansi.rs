use herdr::ansi::{apply_sgr, parse, AnsiColor, AnsiStyle};

fn style() -> AnsiStyle {
    AnsiStyle::plain()
}

#[test]
fn sgr_sequences_become_styled_spans() {
    let lines = parse(
        b"\x1b[1;38;2;10;20;30mbold\x1b[0m plain\n\x1b[48;5;22m\x1b[31mred\x1b[39mbg\x1b[m\n",
    );

    assert_eq!(lines.len(), 2);
    assert_eq!(lines[0].spans[0].text, "bold");
    assert_eq!(
        lines[0].spans[0].style,
        AnsiStyle {
            fg: Some(AnsiColor::Rgb(10, 20, 30)),
            bold: true,
            ..style()
        }
    );
    assert_eq!(lines[0].spans[1].style, style());
    assert_eq!(
        lines[1].spans[0].style,
        AnsiStyle {
            fg: Some(AnsiColor::Indexed(1)),
            bg: Some(AnsiColor::Indexed(22)),
            ..style()
        }
    );
    assert_eq!(
        lines[1].spans[1].style,
        AnsiStyle {
            bg: Some(AnsiColor::Indexed(22)),
            ..style()
        }
    );
}

#[test]
fn style_carries_across_lines_and_other_escapes_are_dropped() {
    let lines =
        parse(b"\x1b[32mgreen\x1b[K\nstill\x1b]8;;http://x\x1b\\link\x1b]8;;\x07\n\ta\r");

    assert_eq!(lines[0].spans[0].text, "green");
    assert_eq!(lines[1].spans[0].text, "stilllink");
    assert_eq!(lines[1].spans[0].style.fg, Some(AnsiColor::Indexed(2)));
    assert_eq!(lines[2].spans[0].text, "        a");
}

#[test]
fn attributes_turn_on_and_off() {
    let chars = |s: &str| s.chars().collect::<Vec<char>>();
    let on = apply_sgr(style(), &chars("1;2;3;4;7;9"));
    assert!(on.bold && on.dim && on.italic && on.underlined && on.reversed && on.crossed_out);
    let off = apply_sgr(on, &chars("22;23;24;27;29"));
    assert_eq!(off, style());
    assert_eq!(apply_sgr(on, &chars("")), style());
}

#[test]
fn bright_and_indexed_colors() {
    let chars = |s: &str| s.chars().collect::<Vec<char>>();
    let s = apply_sgr(style(), &chars("91;102"));
    assert_eq!(s.fg, Some(AnsiColor::Indexed(9)));
    assert_eq!(s.bg, Some(AnsiColor::Indexed(10)));
    let s = apply_sgr(s, &chars("38:5:300;49"));
    assert_eq!(s.fg, Some(AnsiColor::Indexed(44)));
    assert_eq!(s.bg, None);
}

#[test]
fn cut_short_colors_take_the_rest_and_unknown_codes_are_ignored() {
    let chars = |s: &str| s.chars().collect::<Vec<char>>();
    let s = apply_sgr(style(), &chars("38;2;1;2"));
    assert_eq!(s, style());
    let s = apply_sgr(style(), &chars("48;7;1"));
    assert_eq!(s, AnsiStyle { reversed: true, bold: true, ..style() });
    let s = apply_sgr(style(), &chars("abc;31"));
    assert_eq!(s.fg, Some(AnsiColor::Indexed(1)));
}

#[test]
fn tabs_stop_every_eight_columns_and_empty_output_has_no_lines() {
    let lines = parse(b"ab\tc\n");
    assert_eq!(lines.len(), 1);
    assert_eq!(lines[0].spans[0].text, "ab      c");
    assert!(parse(b"").is_empty());
    let lines = parse(b"\x1b[31m\n\nx");
    assert_eq!(lines.len(), 3);
    assert!(lines[0].spans.is_empty());
    assert_eq!(lines[2].spans[0].style.fg, Some(AnsiColor::Indexed(1)));
}
