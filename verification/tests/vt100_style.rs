//! How cells are drawn.
use ratatui::style::Modifier;
use tttt::vt100::cell;
use tttt::vt100::parser::Parser;
use tttt::vt100_style::{cell_style, convert_color, Color, Style};

/// The style that a drawn cell has on a terminal.
fn terminal_style(style: Style) -> ratatui::style::Style {
    let mut s = ratatui::style::Style::default();
    if let Some(c) = style.fg {
        s = s.fg(terminal_color(c));
    }
    if let Some(c) = style.bg {
        s = s.bg(terminal_color(c));
    }
    let modifiers = [
        (style.bold, Modifier::BOLD),
        (style.dim, Modifier::DIM),
        (style.italic, Modifier::ITALIC),
        (style.underlined, Modifier::UNDERLINED),
        (style.reversed, Modifier::REVERSED),
    ];
    for (set, modifier) in modifiers {
        if set {
            s = s.add_modifier(modifier);
        }
    }
    s
}

fn terminal_color(color: Color) -> ratatui::style::Color {
    match color {
        Color::DarkGray => ratatui::style::Color::DarkGray,
        Color::Indexed(i) => ratatui::style::Color::Indexed(i),
        Color::Rgb(r, g, b) => ratatui::style::Color::Rgb(r, g, b),
    }
}

fn make_parser_with(input: &[u8]) -> Parser {
    let mut parser = Parser::new(2, 10, 0);
    parser.process(input);
    parser
}

#[test]
fn test_default_color_returns_none() {
    assert_eq!(convert_color(cell::Color::Default), None);
}

#[test]
fn test_indexed_color_converts() {
    assert_eq!(convert_color(cell::Color::Idx(5)), Some(Color::Indexed(5)));
}

#[test]
fn test_rgb_color_converts() {
    assert_eq!(
        convert_color(cell::Color::Rgb(255, 128, 0)),
        Some(Color::Rgb(255, 128, 0))
    );
}

#[test]
fn test_cell_style_default() {
    // A plain character with no attributes should yield Style::default()
    let parser = make_parser_with(b"X");
    let cell = parser.screen().cell(0, 0).unwrap();
    assert_eq!(terminal_style(cell_style(cell)), ratatui::style::Style::default());
}

#[test]
fn test_cell_style_bold() {
    // ESC[1m sets bold
    let parser = make_parser_with(b"\x1b[1mX");
    let cell = parser.screen().cell(0, 0).unwrap();
    let style = terminal_style(cell_style(cell));
    assert!(style.add_modifier == Modifier::BOLD || style.add_modifier.contains(Modifier::BOLD));
}

#[test]
fn test_cell_style_multiple_attrs() {
    // ESC[1;3;4m = bold + italic + underline
    let parser = make_parser_with(b"\x1b[1;3;4mX");
    let cell = parser.screen().cell(0, 0).unwrap();
    let style = terminal_style(cell_style(cell));
    assert!(style.add_modifier.contains(Modifier::BOLD));
    assert!(style.add_modifier.contains(Modifier::ITALIC));
    assert!(style.add_modifier.contains(Modifier::UNDERLINED));
}

#[test]
fn test_cell_style_with_colors() {
    // ESC[31m = red fg (indexed color 1), ESC[42m = green bg (indexed color 2)
    let parser = make_parser_with(b"\x1b[31;42mX");
    let cell = parser.screen().cell(0, 0).unwrap();
    let style = terminal_style(cell_style(cell));
    assert_eq!(style.fg, Some(ratatui::style::Color::Indexed(1)));
    assert_eq!(style.bg, Some(ratatui::style::Color::Indexed(2)));
}

#[test]
fn test_cell_style_inverse() {
    // ESC[7m = reverse video
    let parser = make_parser_with(b"\x1b[7mX");
    let cell = parser.screen().cell(0, 0).unwrap();
    let style = terminal_style(cell_style(cell));
    assert!(style.add_modifier.contains(Modifier::REVERSED));
}
