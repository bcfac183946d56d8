use amazons::{BoardStyle, Color, Move, Pos, Style, StyleElem};

fn p(x: u8, y: u8) -> Pos {
    Pos { x, y }
}

#[test]
fn square_notation_is_letter_then_digit() {
    assert_eq!(p(0, 0).to_text(), "a0");
    assert_eq!(p(3, 3).to_text(), "d3");
    assert_eq!(p(9, 9).to_text(), "j9");
}

#[test]
fn move_notation_is_slash_separated() {
    let mov = Move {
        from: p(3, 3),
        to: p(3, 6),
        arrow: p(0, 6),
    };
    assert_eq!(mov.to_text(), "d3/d6/a6");
}

#[test]
fn style_wraps_text_in_escape_codes() {
    let bold = Style::new().with(StyleElem::bold());
    assert_eq!(bold.fmt("x"), "\x1b[22mx\x1b[0m");

    let red = Style::from_elem(StyleElem::from_code(Color::Red.fg()));
    assert_eq!(red.fmt("!"), "\x1b[31m!\x1b[0m");

    let both = Style::from_elem(StyleElem::from_code(Color::Red.fg())).with(StyleElem::bold());
    assert_eq!(both.fmt("!"), "\x1b[31;22m!\x1b[0m");
}

#[test]
fn combine_chains_two_sequences() {
    let a = Style::from_elem(StyleElem::from_code(Color::White.bg()));
    let b = Style::from_elem(StyleElem::from_code(Color::Black.fg()));
    assert_eq!(a.combine(&b).fmt("·"), "\x1b[47m\x1b[30m·\x1b[0m");
}

#[test]
fn color_codes_shift_by_range() {
    assert_eq!(
        Style::from_elem(StyleElem::from_code(Color::White.bg_bright())).fmt(" "),
        "\x1b[107m \x1b[0m"
    );
    assert_eq!(
        Style::from_elem(StyleElem::from_code(Color::Black.fg_bright())).fmt(" "),
        "\x1b[90m \x1b[0m"
    );
    assert_eq!(
        Style::from_elem(StyleElem::from_code(Color::Reset.fg())).fmt(" "),
        "\x1b[0m \x1b[0m"
    );
}

#[test]
fn default_board_style_codes() {
    let styles = BoardStyle::default();
    assert_eq!(styles.checker_light.fmt("  "), "\x1b[107m  \x1b[0m");
    assert_eq!(styles.checker_dark.fmt("  "), "\x1b[47m  \x1b[0m");
    assert_eq!(styles.amazon_dark.fmt("[]"), "\x1b[30;22m[]\x1b[0m");
}
