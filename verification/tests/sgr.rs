use crab_city::vt::{format_row, CellAttrs, CellInfo, TermColor};

fn attrs(fg: TermColor, bold: bool) -> CellAttrs {
    CellAttrs { fg, bg: TermColor::Default, bold, italic: false, underline: false, inverse: false }
}

fn cell(s: &str, a: CellAttrs) -> Option<CellInfo> {
    Some(CellInfo { contents: s.to_string(), attrs: a, wide_continuation: false })
}

fn render(cells: &[Option<CellInfo>]) -> String {
    let mut out = Vec::new();
    format_row(cells, &mut out);
    String::from_utf8(out).unwrap()
}

#[test]
fn plain_cells_render_as_text() {
    let p = attrs(TermColor::Default, false);
    assert_eq!(render(&[cell("a", p), cell("", p), None, cell("b", p)]), "a  b");
}

#[test]
fn added_attributes_are_emitted_once() {
    let red_bold = attrs(TermColor::Idx(1), true);
    assert_eq!(render(&[cell("a", red_bold), cell("b", red_bold)]), "\x1b[1m\x1b[38;5;1mab");
}

#[test]
fn dropped_attribute_resets_and_restates() {
    let red_bold = attrs(TermColor::Idx(1), true);
    let red = attrs(TermColor::Idx(1), false);
    assert_eq!(
        render(&[cell("a", red_bold), cell("b", red)]),
        "\x1b[1m\x1b[38;5;1ma\x1b[0m\x1b[38;5;1m\x1b[49mb"
    );
}

#[test]
fn rgb_background_and_wide_continuation() {
    let a = CellAttrs {
        fg: TermColor::Default,
        bg: TermColor::Rgb(10, 20, 30),
        bold: false,
        italic: true,
        underline: true,
        inverse: true,
    };
    let wide = Some(CellInfo { contents: "行".to_string(), attrs: a, wide_continuation: false });
    let cont = Some(CellInfo { contents: String::new(), attrs: a, wide_continuation: true });
    assert_eq!(render(&[wide, cont]), "\x1b[3m\x1b[4m\x1b[7m\x1b[48;2;10;20;30m行");
}
