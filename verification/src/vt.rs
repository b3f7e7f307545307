//! A virtual terminal between clients and a PTY: a `vt100` screen buffer,
//! keyframe snapshots, the raw output since the last keyframe, and the
//! terminal size negotiated across the clients' viewports (the smallest
//! active one wins).

use vstd::prelude::*;
use vstd::utf8::encode_utf8;
use crate::text::decimal;
use crate::wire::push_bytes;
use crate::keyed::{
    find_key, keyed_map, keys_unique, lemma_keyed_entry, lemma_keyed_push, lemma_keyed_remove, lemma_keyed_set,
};

verus! {

/// A `vt100::Parser`. Its declaration as an outside type is refused (its
/// callback parameter is bounded by an outside trait), so it is held here
/// opaquely and reached only through the functions below.
#[verifier::external_body]
pub struct RawParser {
    inner: vt100::Parser,
}

/// A vt100 parser, with the size its screen was made with or last set to.
pub struct ScreenParser {
    raw: RawParser,
    size: Ghost<(u16, u16)>,
}

impl ScreenParser {
    /// The size (rows, cols) of the parser's screen.
    pub closed spec fn size(&self) -> (u16, u16) {
        self.size@
    }
}

#[verifier::external_type_specification]
#[verifier::external_body]
pub struct ExScreen(vt100::Screen);

/// The kind of client connection.
#[derive(Debug, Clone, Copy, PartialEq, Eq, Structural)]
pub enum ClientType {
    Web,
    Terminal,
}

/// A client's viewport.
#[derive(Debug, Clone, Copy, PartialEq, Eq, Structural)]
pub struct ClientViewport {
    pub rows: u16,
    pub cols: u16,
    pub client_type: ClientType,
    pub is_active: bool,
}

/// Some viewport is active.
pub open spec fn has_active(vs: Seq<ClientViewport>) -> bool {
    exists|i: int| 0 <= i < vs.len() && (#[trigger] vs[i]).is_active
}

/// `(r, c)` are the smallest rows and columns over the active viewports.
pub open spec fn is_min_dims(vs: Seq<ClientViewport>, r: u16, c: u16) -> bool {
    &&& exists|i: int| 0 <= i < vs.len() && (#[trigger] vs[i]).is_active && vs[i].rows == r
    &&& exists|j: int| 0 <= j < vs.len() && (#[trigger] vs[j]).is_active && vs[j].cols == c
    &&& forall|i: int| 0 <= i < vs.len() && (#[trigger] vs[i]).is_active ==> r <= vs[i].rows && c <= vs[i].cols
}

/// What negotiating over `vs` gives: the smallest rows and columns of the
/// active viewports, or nothing when none is active.
pub open spec fn dims_outcome(vs: Seq<ClientViewport>, res: Option<(u16, u16)>) -> bool {
    match res {
        None => !has_active(vs),
        Some((r, c)) => is_min_dims(vs, r, c),
    }
}

/// The smallest rows and columns across the active viewports, or `None`
/// when no viewport is active.
pub fn calculate_effective_dims(viewports: &[ClientViewport]) -> (res: Option<(u16, u16)>)
    ensures
        dims_outcome(viewports@, res),
{
    let mut best: Option<(u16, u16)> = None;
    let mut k: usize = 0;
    while k < viewports.len()
        invariant
            0 <= k <= viewports@.len(),
            dims_outcome(viewports@.take(k as int), best),
        decreases viewports.len() - k,
    {
        let v = viewports[k];
        let ghost pre = viewports@.take(k as int);
        let ghost post = viewports@.take(k + 1);
        assert(post =~= pre.push(v));
        if v.is_active {
            let next = match best {
                None => (v.rows, v.cols),
                Some((r, c)) => (if v.rows < r {
                    v.rows
                } else {
                    r
                }, if v.cols < c {
                    v.cols
                } else {
                    c
                }),
            };
            proof {
                assert(post[k as int] == v);
                match best {
                    None => {
                        assert forall|i: int| 0 <= i < post.len() && (#[trigger] post[i]).is_active implies next.0
                            <= post[i].rows && next.1 <= post[i].cols by {
                            if i < k {
                                assert(pre[i] == post[i]);
                                assert(has_active(pre));
                            }
                        }
                    },
                    Some((r, c)) => {
                        assert forall|i: int| 0 <= i < post.len() && (#[trigger] post[i]).is_active implies next.0
                            <= post[i].rows && next.1 <= post[i].cols by {
                            if i < k {
                                assert(pre[i] == post[i]);
                            }
                        }
                        let wi = choose|i: int| 0 <= i < pre.len() && (#[trigger] pre[i]).is_active && pre[i].rows == r;
                        let wj = choose|j: int| 0 <= j < pre.len() && (#[trigger] pre[j]).is_active && pre[j].cols == c;
                        assert(post[wi] == pre[wi]);
                        assert(post[wj] == pre[wj]);
                    },
                }
            }
            best = Some(next);
        } else {
            proof {
                match best {
                    None => {
                        assert forall|i: int| 0 <= i < post.len() implies !(#[trigger] post[i]).is_active by {
                            if i < k {
                                assert(pre[i] == post[i]);
                                assert(!has_active(pre));
                            }
                        }
                    },
                    Some((r, c)) => {
                        assert forall|i: int| 0 <= i < post.len() && (#[trigger] post[i]).is_active implies r
                            <= post[i].rows && c <= post[i].cols by {
                            assert(pre[i] == post[i]);
                        }
                        let wi = choose|i: int| 0 <= i < pre.len() && (#[trigger] pre[i]).is_active && pre[i].rows == r;
                        let wj = choose|j: int| 0 <= j < pre.len() && (#[trigger] pre[j]).is_active && pre[j].cols == c;
                        assert(post[wi] == pre[wi]);
                        assert(post[wj] == pre[wj]);
                    },
                }
            }
        }
        k = k + 1;
    }
    assert(viewports@.take(viewports@.len() as int) =~= viewports@);
    best
}

/// Some viewport of the map is active.
pub open spec fn map_has_active(m: Map<Seq<char>, ClientViewport>) -> bool {
    exists|k: Seq<char>| m.dom().contains(k) && (#[trigger] m[k]).is_active
}

/// `(r, c)` are the smallest rows and columns over the map's active
/// viewports.
pub open spec fn map_min_dims(m: Map<Seq<char>, ClientViewport>, r: u16, c: u16) -> bool {
    &&& exists|k: Seq<char>| m.dom().contains(k) && (#[trigger] m[k]).is_active && m[k].rows == r
    &&& exists|k: Seq<char>| m.dom().contains(k) && (#[trigger] m[k]).is_active && m[k].cols == c
    &&& forall|k: Seq<char>| m.dom().contains(k) && (#[trigger] m[k]).is_active ==> r <= m[k].rows && c <= m[k].cols
}

/// Negotiating over the parallel vectors is negotiating over the map.
proof fn lemma_dims_outcome_map(ids: Seq<String>, vps: Seq<ClientViewport>, res: Option<(u16, u16)>)
    requires
        keys_unique(ids),
        ids.len() == vps.len(),
        dims_outcome(vps, res),
    ensures
        match res {
            None => !map_has_active(keyed_map(ids, vps)),
            Some((r, c)) => map_min_dims(keyed_map(ids, vps), r, c),
        },
{
    let m = keyed_map(ids, vps);
    assert forall|k: Seq<char>| m.dom().contains(k) implies exists|i: int|
        0 <= i < ids.len() && ids[i]@ == k && #[trigger] m[k] == vps[i] by {
        let i = choose|i: int| 0 <= i < ids.len() && (#[trigger] ids[i])@ == k;
        lemma_keyed_entry(ids, vps, i);
    }
    match res {
        None => {
            if map_has_active(m) {
                let k = choose|k: Seq<char>| m.dom().contains(k) && (#[trigger] m[k]).is_active;
                let i = choose|i: int| 0 <= i < ids.len() && ids[i]@ == k && #[trigger] m[k] == vps[i];
                assert(vps[i].is_active);
            }
        },
        Some((r, c)) => {
            let wi = choose|i: int| 0 <= i < vps.len() && (#[trigger] vps[i]).is_active && vps[i].rows == r;
            let wj = choose|j: int| 0 <= j < vps.len() && (#[trigger] vps[j]).is_active && vps[j].cols == c;
            lemma_keyed_entry(ids, vps, wi);
            lemma_keyed_entry(ids, vps, wj);
            assert(m[ids[wi]@].is_active && m[ids[wi]@].rows == r);
            assert(m[ids[wj]@].is_active && m[ids[wj]@].cols == c);
            assert forall|k: Seq<char>| m.dom().contains(k) && (#[trigger] m[k]).is_active implies r <= m[k].rows
                && c <= m[k].cols by {
                let i = choose|i: int| 0 <= i < ids.len() && ids[i]@ == k && #[trigger] m[k] == vps[i];
                assert(vps[i].is_active);
            }
        },
    }
}

#[verifier::external_type_specification]
#[verifier::external_body]
pub struct ExColor(vt100::Color);

/// A cell color.
#[derive(Debug, Clone, Copy, PartialEq, Eq, Structural)]
pub enum TermColor {
    Default,
    Idx(u8),
    Rgb(u8, u8, u8),
}

/// The display attributes of a cell.
#[derive(Debug, Clone, Copy, PartialEq, Eq, Structural)]
pub struct CellAttrs {
    pub fg: TermColor,
    pub bg: TermColor,
    pub bold: bool,
    pub italic: bool,
    pub underline: bool,
    pub inverse: bool,
}

/// What rendering reads of a screen cell.
#[derive(Debug, Clone, PartialEq, Eq)]
pub struct CellInfo {
    pub contents: String,
    pub attrs: CellAttrs,
    pub wide_continuation: bool,
}

/// Plain attributes: default colors, no flags.
pub open spec fn plain_attrs() -> CellAttrs {
    CellAttrs {
        fg: TermColor::Default,
        bg: TermColor::Default,
        bold: false,
        italic: false,
        underline: false,
        inverse: false,
    }
}

/// The ASCII bytes of the decimal representation of `n`.
pub open spec fn ascii_decimal(n: nat) -> Seq<u8> {
    decimal(n).map_values(|c: char| c as u8)
}

/// `ESC [ 0 m`: reset all attributes.
pub open spec fn sgr_reset() -> Seq<u8> {
    seq![27u8, 91u8, 48u8, 109u8]
}

/// `ESC [ n m` for a one-digit attribute code `n` (1 bold, 3 italic,
/// 4 underline, 7 inverse).
pub open spec fn sgr_flag(code: u8) -> Seq<u8> {
    seq![27u8, 91u8, code, 109u8]
}

/// The escape that selects color `c`: `ESC [ <d>9 m` for the default,
/// `ESC [ <d>8 ; 5 ; n m` for an indexed color and
/// `ESC [ <d>8 ; 2 ; r ; g ; b m` for RGB, where `<d>` is `3` for the
/// foreground and `4` for the background (`layer`).
pub open spec fn color_seq(c: TermColor, layer: u8) -> Seq<u8> {
    match c {
        TermColor::Default => seq![27u8, 91u8, layer, 57u8, 109u8],
        TermColor::Idx(n) => seq![27u8, 91u8, layer, 56u8, 59u8, 53u8, 59u8] + ascii_decimal(n as nat) + seq![109u8],
        TermColor::Rgb(r, g, b) => seq![27u8, 91u8, layer, 56u8, 59u8, 50u8, 59u8] + ascii_decimal(r as nat) + seq![
            59u8,
        ] + ascii_decimal(g as nat) + seq![59u8] + ascii_decimal(b as nat) + seq![109u8],
    }
}

/// `code` when `on`, nothing otherwise.
pub open spec fn when(on: bool, code: Seq<u8>) -> Seq<u8> {
    if on {
        code
    } else {
        Seq::empty()
    }
}

/// Going from `cur` to `a` drops an attribute, which takes a reset.
pub open spec fn needs_reset(cur: CellAttrs, a: CellAttrs) -> bool {
    ||| cur.bold && !a.bold
    ||| cur.italic && !a.italic
    ||| cur.underline && !a.underline
    ||| cur.inverse && !a.inverse
    ||| cur.fg != TermColor::Default && a.fg == TermColor::Default
    ||| cur.bg != TermColor::Default && a.bg == TermColor::Default
}

/// The escapes that switch from attributes `cur` to `a`: nothing when they
/// agree; a reset and all of `a` when an attribute is dropped; otherwise
/// only what `a` adds or changes.
pub open spec fn sgr_transition(cur: CellAttrs, a: CellAttrs) -> Seq<u8> {
    if cur == a {
        Seq::empty()
    } else if needs_reset(cur, a) {
        sgr_restate(a)
    } else {
        sgr_changes(cur, a)
    }
}

/// A reset, then every attribute of `a`.
pub open spec fn sgr_restate(a: CellAttrs) -> Seq<u8> {
    sgr_reset() + when(a.bold, sgr_flag(49)) + when(a.italic, sgr_flag(51)) + when(a.underline, sgr_flag(52))
        + when(a.inverse, sgr_flag(55)) + color_seq(a.fg, 51) + color_seq(a.bg, 52)
}

/// The flags that `a` turns on and the colors it changes, relative to `cur`.
pub open spec fn sgr_changes(cur: CellAttrs, a: CellAttrs) -> Seq<u8> {
    when(!cur.bold && a.bold, sgr_flag(49)) + when(!cur.italic && a.italic, sgr_flag(51)) + when(
        !cur.underline && a.underline,
        sgr_flag(52),
    ) + when(!cur.inverse && a.inverse, sgr_flag(55)) + when(cur.fg != a.fg, color_seq(a.fg, 51)) + when(
        cur.bg != a.bg,
        color_seq(a.bg, 52),
    )
}

/// The text of a cell: its contents, or a space when it has none.
pub open spec fn cell_text(c: CellInfo) -> Seq<u8> {
    if c.contents@.len() == 0 {
        seq![32u8]
    } else {
        encode_utf8(c.contents@)
    }
}

/// Rendering one cell with current attributes `cur`: the bytes, and the
/// attributes after it. A missing cell is a space; the second half of a
/// wide character renders as nothing.
pub open spec fn cell_step(c: Option<CellInfo>, cur: CellAttrs) -> (Seq<u8>, CellAttrs) {
    match c {
        None => (seq![32u8], cur),
        Some(cell) => if cell.wide_continuation {
            (Seq::empty(), cur)
        } else {
            (sgr_transition(cur, cell.attrs) + cell_text(cell), cell.attrs)
        },
    }
}

/// Rendering a row of cells from plain attributes, left to right, with no
/// cursor movement: the bytes and the attributes at the end.
pub open spec fn render_row(cells: Seq<Option<CellInfo>>) -> (Seq<u8>, CellAttrs)
    decreases cells.len(),
{
    if cells.len() == 0 {
        (Seq::empty(), plain_attrs())
    } else {
        let (b, st) = render_row(cells.drop_last());
        let (b2, st2) = cell_step(cells.last(), st);
        (b + b2, st2)
    }
}

/// Appends the ASCII decimal digits of `n`.
fn push_ascii_decimal(out: &mut Vec<u8>, n: u64)
    ensures
        final(out)@ == old(out)@ + ascii_decimal(n as nat),
    decreases n,
{
    if n >= 10 {
        push_ascii_decimal(out, n / 10);
    }
    let d: u8 = (n % 10) as u8;
    out.push(48u8 + d);
    proof {
        let dc = crate::text::digit_char((n % 10) as nat);
        assert(dc as u8 == 48u8 + d) by {
            assert(seq!['0', '1', '2', '3', '4', '5', '6', '7', '8', '9'][d as int] as u8 == 48 + d);
        }
        if n >= 10 {
            assert(decimal(n as nat) == decimal((n / 10) as nat).push(dc));
        }
        assert(ascii_decimal(n as nat) =~= if n >= 10 {
            ascii_decimal((n / 10) as nat).push(dc as u8)
        } else {
            seq![dc as u8]
        });
    }
    assert(out@ =~= old(out)@ + ascii_decimal(n as nat));
}

/// Appends the escape for color `c` on `layer` (3 foreground, 4 background
/// as ASCII digits 51 and 52).
fn push_color(out: &mut Vec<u8>, c: TermColor, layer: u8)
    ensures
        final(out)@ == old(out)@ + color_seq(c, layer),
{
    let ghost start = out@;
    out.push(27u8);
    out.push(91u8);
    out.push(layer);
    match c {
        TermColor::Default => {
            out.push(57u8);
            out.push(109u8);
        },
        TermColor::Idx(n) => {
            out.push(56u8);
            out.push(59u8);
            out.push(53u8);
            out.push(59u8);
            push_ascii_decimal(out, n as u64);
            out.push(109u8);
        },
        TermColor::Rgb(r, g, b) => {
            out.push(56u8);
            out.push(59u8);
            out.push(50u8);
            out.push(59u8);
            push_ascii_decimal(out, r as u64);
            out.push(59u8);
            push_ascii_decimal(out, g as u64);
            out.push(59u8);
            push_ascii_decimal(out, b as u64);
            out.push(109u8);
        },
    }
    assert(out@ =~= start + color_seq(c, layer));
}

/// Appends `ESC [ code m`.
fn push_flag(out: &mut Vec<u8>, code: u8)
    ensures
        final(out)@ == old(out)@ + sgr_flag(code),
{
    out.push(27u8);
    out.push(91u8);
    out.push(code);
    out.push(109u8);
    assert(out@ =~= old(out)@ + sgr_flag(code));
}

/// Appends a flag escape when `on`.
fn push_flag_if(out: &mut Vec<u8>, on: bool, code: u8)
    ensures
        final(out)@ == old(out)@ + when(on, sgr_flag(code)),
{
    if on {
        push_flag(out, code);
    }
    assert(out@ =~= old(out)@ + when(on, sgr_flag(code)));
}

/// Appends a reset and every attribute of `a`.
fn push_restate(out: &mut Vec<u8>, a: CellAttrs)
    ensures
        final(out)@ == old(out)@ + sgr_restate(a),
{
    let ghost start = out@;
    out.push(27u8);
    out.push(91u8);
    out.push(48u8);
    out.push(109u8);
    assert(out@ =~= start + sgr_reset());
    push_flag_if(out, a.bold, 49);
    push_flag_if(out, a.italic, 51);
    push_flag_if(out, a.underline, 52);
    push_flag_if(out, a.inverse, 55);
    push_color(out, a.fg, 51);
    push_color(out, a.bg, 52);
    assert(out@ =~= start + sgr_restate(a));
}

/// Appends what `a` adds or changes relative to `cur`.
#[verifier::rlimit(50)]
fn push_changes(out: &mut Vec<u8>, cur: CellAttrs, a: CellAttrs)
    ensures
        final(out)@ == old(out)@ + sgr_changes(cur, a),
{
    let ghost start = out@;
    push_flag_if(out, !cur.bold && a.bold, 49);
    let ghost s1 = out@;
    push_flag_if(out, !cur.italic && a.italic, 51);
    let ghost s2 = out@;
    push_flag_if(out, !cur.underline && a.underline, 52);
    let ghost s3 = out@;
    push_flag_if(out, !cur.inverse && a.inverse, 55);
    let ghost s4 = out@;
    let fg_changed = cur.fg != a.fg;
    let bg_changed = cur.bg != a.bg;
    push_color_if(out, fg_changed, a.fg, 51);
    let ghost s5 = out@;
    push_color_if(out, bg_changed, a.bg, 52);
    assert(s1 =~= start + when(!cur.bold && a.bold, sgr_flag(49)));
    assert(out@ =~= start + sgr_changes(cur, a));
}

/// Appends a color escape when `on`.
fn push_color_if(out: &mut Vec<u8>, on: bool, c: TermColor, layer: u8)
    ensures
        final(out)@ == old(out)@ + when(on, color_seq(c, layer)),
{
    if on {
        push_color(out, c, layer);
    }
    assert(out@ =~= old(out)@ + when(on, color_seq(c, layer)));
}

/// Appends the escapes that switch from `cur` to `a`.
fn push_transition(out: &mut Vec<u8>, cur: CellAttrs, a: CellAttrs)
    ensures
        final(out)@ == old(out)@ + sgr_transition(cur, a),
{
    if cur == a {
        assert(out@ =~= old(out)@ + sgr_transition(cur, a));
        return;
    }
    let needs = (cur.bold && !a.bold) || (cur.italic && !a.italic) || (cur.underline && !a.underline) || (
    cur.inverse && !a.inverse) || (cur.fg != TermColor::Default && a.fg == TermColor::Default) || (cur.bg
        != TermColor::Default && a.bg == TermColor::Default);
    if needs {
        push_restate(out, a);
    } else {
        push_changes(out, cur, a);
    }
}

/// Renders a row of cells as styled text with no cursor movement, from
/// plain attributes; see `render_row`.
pub fn format_row(cells: &[Option<CellInfo>], out: &mut Vec<u8>)
    ensures
        final(out)@ == old(out)@ + render_row(cells@).0,
{
    let ghost start = out@;
    let mut cur = CellAttrs {
        fg: TermColor::Default,
        bg: TermColor::Default,
        bold: false,
        italic: false,
        underline: false,
        inverse: false,
    };
    let mut k: usize = 0;
    while k < cells.len()
        invariant
            0 <= k <= cells@.len(),
            out@ == start + render_row(cells@.take(k as int)).0,
            cur == render_row(cells@.take(k as int)).1,
        decreases cells.len() - k,
    {
        let ghost before = out@;
        assert(cells@.take(k + 1).drop_last() =~= cells@.take(k as int));
        match &cells[k] {
            None => {
                out.push(32u8);
            },
            Some(cell) => {
                if !cell.wide_continuation {
                    push_transition(out, cur, cell.attrs);
                    let text = cell.contents.as_str().as_bytes();
                    if text.len() == 0 {
                        out.push(32u8);
                    } else {
                        push_bytes(out, text);
                    }
                    cur = cell.attrs;
                }
            },
        }
        assert(out@ =~= start + render_row(cells@.take(k + 1)).0);
        k = k + 1;
    }
    assert(cells@.take(cells@.len() as int) =~= cells@);
}

/// `vt100::Color` as a plain value, variant for variant.
#[verifier::external_body]
fn term_color(c: vt100::Color) -> TermColor {
    match c {
        vt100::Color::Default => TermColor::Default,
        vt100::Color::Idx(n) => TermColor::Idx(n),
        vt100::Color::Rgb(r, g, b) => TermColor::Rgb(r, g, b),
    }
}

/// `vt100::Screen::cell(row, col)`, with the cell's contents, colors,
/// flags and wide-continuation mark copied out. Nothing is stated of the
/// result: it is the screen's state.
#[verifier::external_body]
fn screen_cell(screen: &vt100::Screen, row: u16, col: u16) -> Option<CellInfo> {
    match screen.cell(row, col) {
        None => None,
        Some(c) => Some(CellInfo {
            contents: c.contents().to_string(),
            attrs: CellAttrs {
                fg: term_color(c.fgcolor()),
                bg: term_color(c.bgcolor()),
                bold: c.bold(),
                italic: c.italic(),
                underline: c.underline(),
                inverse: c.inverse(),
            },
            wide_continuation: c.is_wide_continuation(),
        }),
    }
}

/// `vt100::Parser::new(rows, cols, scrollback_len)`; the parser's grid
/// needs at least one row and one column.
#[verifier::external_body]
fn raw_new(rows: u16, cols: u16, scrollback_len: usize) -> RawParser
    requires
        rows >= 1,
        cols >= 1,
{
    RawParser { inner: vt100::Parser::new(rows, cols, scrollback_len) }
}

/// A parser with a `rows` by `cols` screen and `scrollback_len` lines of
/// scrollback.
fn parser_new(rows: u16, cols: u16, scrollback_len: usize) -> (res: ScreenParser)
    requires
        rows >= 1,
        cols >= 1,
    ensures
        res.size() == (rows, cols),
{
    ScreenParser { raw: raw_new(rows, cols, scrollback_len), size: Ghost((rows, cols)) }
}

/// `vt100::Parser::process(bytes)`: feeds terminal output to the parser.
#[verifier::external_body]
fn raw_process(raw: &mut RawParser, bytes: &[u8]) {
    raw.inner.process(bytes)
}

/// Feeds terminal output to the parser; the screen keeps its size.
fn parser_process(parser: &mut ScreenParser, bytes: &[u8])
    ensures
        final(parser).size() == old(parser).size(),
{
    raw_process(&mut parser.raw, bytes)
}

/// `vt100::Parser::screen()`.
#[verifier::external_body]
fn parser_screen(parser: &ScreenParser) -> &vt100::Screen {
    parser.raw.inner.screen()
}

/// `vt100::Screen::size()` of the parser's screen: (rows, cols). vt100
/// changes a screen's size only in `Screen::set_size`, so it is the size the
/// parser was made with or last set to.
#[verifier::external_body]
fn parser_size(parser: &ScreenParser) -> (res: (u16, u16))
    ensures
        res == parser.size(),
{
    parser.raw.inner.screen().size()
}

/// `vt100::Screen::set_size(rows, cols)` on the parser's screen; the grid
/// needs at least one row and one column.
#[verifier::external_body]
fn raw_set_size(raw: &mut RawParser, rows: u16, cols: u16)
    requires
        rows >= 1,
        cols >= 1,
{
    raw.inner.screen_mut().set_size(rows, cols)
}

/// Gives the parser's screen the size `rows` by `cols`.
fn parser_set_size(parser: &mut ScreenParser, rows: u16, cols: u16)
    requires
        rows >= 1,
        cols >= 1,
    ensures
        final(parser).size() == (rows, cols),
{
    raw_set_size(&mut parser.raw, rows, cols);
    parser.size = Ghost((rows, cols));
}

/// `vt100::Screen::set_scrollback(rows)` on the parser's screen: scrolls the
/// view back by `rows` (clamped to the scrollback held).
#[verifier::external_body]
fn raw_set_scrollback(raw: &mut RawParser, rows: usize) {
    raw.inner.screen_mut().set_scrollback(rows)
}

/// Scrolls the parser's view back by `rows`; the screen keeps its size.
fn parser_set_scrollback(parser: &mut ScreenParser, rows: usize)
    ensures
        final(parser).size() == old(parser).size(),
{
    raw_set_scrollback(&mut parser.raw, rows)
}

/// `vt100::Screen::scrollback()`: the current scrollback offset.
#[verifier::external_body]
fn screen_scrollback(screen: &vt100::Screen) -> usize {
    screen.scrollback()
}

/// `vt100::Screen::cursor_position()`: (row, col), 0-based.
#[verifier::external_body]
fn screen_cursor_position(screen: &vt100::Screen) -> (u16, u16) {
    screen.cursor_position()
}

/// `vt100::Screen::contents_formatted()`: the visible screen as escape
/// sequences.
#[verifier::external_body]
fn screen_contents_formatted(screen: &vt100::Screen) -> Vec<u8> {
    screen.contents_formatted()
}

/// The cells of row `row`, columns `0..cols`, as the screen holds them.
fn read_row(screen: &vt100::Screen, row: u16, cols: u16) -> (res: Vec<Option<CellInfo>>)
    ensures
        res@.len() == cols,
{
    let mut cells: Vec<Option<CellInfo>> = Vec::new();
    let mut col: u16 = 0;
    while col < cols
        invariant
            col <= cols,
            cells@.len() == col,
        decreases cols - col,
    {
        cells.push(screen_cell(screen, row, col));
        col = col + 1;
    }
    cells
}

/// Renders row `row` of the screen as styled text with no cursor
/// movement.
fn format_row_no_cup(screen: &vt100::Screen, row: u16, cols: u16, out: &mut Vec<u8>)
    ensures
        exists|cells: Seq<Option<CellInfo>>|
            cells.len() == cols && final(out)@ == old(out)@ + #[trigger] render_row(cells).0,
{
    let cells = read_row(screen, row, cols);
    format_row(cells.as_slice(), out);
}

/// Renders row `row` and ends it.
fn push_scrollback_row(screen: &vt100::Screen, row: u16, cols: u16, out: &mut Vec<u8>)
    ensures
        exists|cells: Seq<Option<CellInfo>>|
            cells.len() == cols && final(out)@ == old(out)@ + #[trigger] render_row(cells).0 + row_end(),
{
    let ghost start = out@;
    format_row_no_cup(screen, row, cols, out);
    let ghost cells = choose|cells: Seq<Option<CellInfo>>|
        cells.len() == cols && out@ == start + #[trigger] render_row(cells).0;
    let ghost mid = out@;
    out.push(27u8);
    out.push(91u8);
    out.push(48u8);
    out.push(109u8);
    out.push(13u8);
    out.push(10u8);
    assert(out@ =~= mid + row_end());
    assert(out@ == start + render_row(cells).0 + row_end());
}

/// `ESC [ H ESC [ 2 J ESC [ 0 m`: home, clear the screen, reset attributes.
pub open spec fn clear_screen() -> Seq<u8> {
    seq![27u8, 91u8, 72u8, 27u8, 91u8, 50u8, 74u8, 27u8, 91u8, 48u8, 109u8]
}

/// `ESC [ row+1 ; col+1 H`: moves the cursor to 0-based `(row, col)`.
pub open spec fn cursor_to(row: u16, col: u16) -> Seq<u8> {
    seq![27u8, 91u8] + ascii_decimal(row as nat + 1) + seq![59u8] + ascii_decimal(col as nat + 1) + seq![72u8]
}

/// A snapshot of the screen: clear, the formatted contents, then the
/// cursor placed.
pub open spec fn is_snapshot(s: Seq<u8>) -> bool {
    exists|formatted: Seq<u8>, row: u16, col: u16| s == clear_screen() + formatted + cursor_to(row, col)
}

/// `ESC [ 0 m CR LF`: ends a scrollback row.
pub open spec fn row_end() -> Seq<u8> {
    seq![27u8, 91u8, 48u8, 109u8, 13u8, 10u8]
}

/// Scrollback rows, each rendered and ended.
pub open spec fn scrollback_bytes(rows: Seq<Seq<Option<CellInfo>>>) -> Seq<u8>
    decreases rows.len(),
{
    if rows.len() == 0 {
        Seq::empty()
    } else {
        scrollback_bytes(rows.drop_last()) + render_row(rows.last()).0 + row_end()
    }
}

/// `ESC [ rows ; 1 H` then `rows` line feeds: scrolls the lines on a
/// client's screen into its scrollback.
pub open spec fn scroll_out(rows: u16) -> Seq<u8> {
    seq![27u8, 91u8] + ascii_decimal(rows as nat) + seq![59u8, 49u8, 72u8] + Seq::new(rows as nat, |i: int| 10u8)
}

/// Appends the snapshot of the current screen.
fn push_snapshot(parser: &ScreenParser, out: &mut Vec<u8>)
    ensures
        exists|formatted: Seq<u8>, row: u16, col: u16|
            final(out)@ == old(out)@ + clear_screen() + formatted + cursor_to(row, col),
{
    let ghost start = out@;
    let screen = parser_screen(parser);
    out.push(27u8);
    out.push(91u8);
    out.push(72u8);
    out.push(27u8);
    out.push(91u8);
    out.push(50u8);
    out.push(74u8);
    out.push(27u8);
    out.push(91u8);
    out.push(48u8);
    out.push(109u8);
    assert(out@ =~= start + clear_screen());
    let ghost s1 = out@;
    let formatted = screen_contents_formatted(screen);
    push_bytes(out, formatted.as_slice());
    let ghost s2 = out@;
    let (row, col) = screen_cursor_position(screen);
    out.push(27u8);
    out.push(91u8);
    push_ascii_decimal(out, row as u64 + 1);
    out.push(59u8);
    push_ascii_decimal(out, col as u64 + 1);
    out.push(72u8);
    assert(out@ =~= s2 + cursor_to(row, col));
    assert(out@ =~= start + clear_screen() + formatted@ + cursor_to(row, col));
}

/// A virtual terminal: the screen, the clients' viewports, the negotiated
/// size, the last keyframe and the output since.
pub struct VirtualTerminal {
    parser: ScreenParser,
    ids: Vec<String>,
    viewports: Vec<ClientViewport>,
    effective_dims: (u16, u16),
    keyframe: Option<Vec<u8>>,
    deltas: Vec<u8>,
    max_delta_bytes: usize,
}

impl VirtualTerminal {
    /// Each client has one viewport, at least one row and one column in
    /// size.
    pub closed spec fn wf(&self) -> bool {
        &&& self.ids@.len() == self.viewports@.len()
        &&& keys_unique(self.ids@)
        &&& forall|i: int| 0 <= i < self.viewports@.len() ==> (#[trigger] self.viewports@[i]).rows >= 1
            && self.viewports@[i].cols >= 1
    }

    /// The viewports by connection id.
    pub closed spec fn viewport_map(&self) -> Map<Seq<char>, ClientViewport> {
        keyed_map(self.ids@, self.viewports@)
    }

    /// The size of the screen buffer.
    pub closed spec fn screen_dims(&self) -> (u16, u16) {
        self.parser.size()
    }

    /// The negotiated size.
    pub closed spec fn dims(&self) -> (u16, u16) {
        self.effective_dims
    }

    /// The last keyframe, if any.
    pub closed spec fn keyframe_view(&self) -> Option<Seq<u8>> {
        match self.keyframe {
            Some(k) => Some(k@),
            None => None,
        }
    }

    /// The output since the last keyframe.
    pub closed spec fn deltas_view(&self) -> Seq<u8> {
        self.deltas@
    }

    /// The output size above which the terminal compacts.
    pub closed spec fn max_deltas(&self) -> usize {
        self.max_delta_bytes
    }

    /// A terminal of the given size with no clients, keyframe or output.
    pub fn new(rows: u16, cols: u16, max_delta_bytes: usize, scrollback_lines: usize) -> (res: Self)
        requires
            rows >= 1,
            cols >= 1,
        ensures
            res.wf(),
            res.viewport_map() == Map::<Seq<char>, ClientViewport>::empty(),
            res.dims() == (rows, cols),
            res.keyframe_view() is None,
            res.deltas_view() == Seq::<u8>::empty(),
            res.max_deltas() == max_delta_bytes,
    {
        let res = VirtualTerminal {
            parser: parser_new(rows, cols, scrollback_lines),
            ids: Vec::new(),
            viewports: Vec::new(),
            effective_dims: (rows, cols),
            keyframe: None,
            deltas: Vec::new(),
            max_delta_bytes,
        };
        assert(res.viewport_map() =~= Map::<Seq<char>, ClientViewport>::empty());
        res
    }

    /// The underlying screen, for cell-level reads.
    pub fn screen(&self) -> &vt100::Screen {
        parser_screen(&self.parser)
    }

    /// The cursor position (row, col), 0-based.
    pub fn cursor_position(&self) -> (u16, u16) {
        screen_cursor_position(parser_screen(&self.parser))
    }

    /// The output since the last keyframe.
    pub fn deltas(&self) -> (res: &Vec<u8>)
        ensures
            res@ == self.deltas_view(),
    {
        &self.deltas
    }

    /// The last keyframe, if any.
    pub fn keyframe(&self) -> (res: &Option<Vec<u8>>)
        ensures
            match *res {
                Some(k) => self.keyframe_view() == Some(k@),
                None => self.keyframe_view() is None,
            },
    {
        &self.keyframe
    }

    /// The viewport of a connection, if it has one.
    pub fn viewport(&self, connection_id: &str) -> (res: Option<ClientViewport>)
        requires
            self.wf(),
        ensures
            res == (if self.viewport_map().dom().contains(connection_id@) {
                Some(self.viewport_map()[connection_id@])
            } else {
                None
            }),
    {
        match find_key(&self.ids, connection_id) {
            Some(i) => {
                proof {
                    lemma_keyed_entry(self.ids@, self.viewports@, i as int);
                }
                Some(self.viewports[i])
            },
            None => None,
        }
    }

    /// Takes a keyframe of the screen and drops the output since the last
    /// one.
    pub fn compact(&mut self)
        ensures
            final(self).keyframe_view() matches Some(k) && is_snapshot(k),
            final(self).deltas_view() == Seq::<u8>::empty(),
            final(self).viewport_map() == old(self).viewport_map(),
            final(self).dims() == old(self).dims(),
            final(self).max_deltas() == old(self).max_deltas(),
            old(self).wf() ==> final(self).wf(),
    {
        let mut kf: Vec<u8> = Vec::new();
        push_snapshot(&self.parser, &mut kf);
        assert(is_snapshot(kf@)) by {
            let (f, r, c) = choose|formatted: Seq<u8>, row: u16, col: u16|
                kf@ == Seq::<u8>::empty() + clear_screen() + formatted + cursor_to(row, col);
            assert(kf@ == clear_screen() + f + cursor_to(r, c));
        }
        self.keyframe = Some(kf);
        self.deltas.clear();
    }

    /// Feeds PTY output to the screen and records it; past the size
    /// threshold, compacts.
    pub fn process_output(&mut self, data: &[u8])
        ensures
            if old(self).deltas_view().len() + data@.len() > old(self).max_deltas() {
                &&& final(self).keyframe_view() matches Some(k) && is_snapshot(k)
                &&& final(self).deltas_view() == Seq::<u8>::empty()
            } else {
                &&& final(self).keyframe_view() == old(self).keyframe_view()
                &&& final(self).deltas_view() == old(self).deltas_view() + data@
            },
            final(self).viewport_map() == old(self).viewport_map(),
            final(self).dims() == old(self).dims(),
            final(self).max_deltas() == old(self).max_deltas(),
            old(self).wf() ==> final(self).wf(),
    {
        parser_process(&mut self.parser, data);
        push_bytes(&mut self.deltas, data);
        if self.deltas.len() > self.max_delta_bytes {
            self.compact();
        }
    }
}

/// What recomputing the negotiated size does: with an active viewport
/// whose smallest size differs from the current one, the terminal takes
/// that size, drops its keyframe and output, and reports the size;
/// otherwise nothing changes and nothing is reported.
pub open spec fn resize_outcome(
    m: Map<Seq<char>, ClientViewport>,
    old_dims: (u16, u16),
    old_keyframe: Option<Seq<u8>>,
    old_deltas: Seq<u8>,
    new_dims: (u16, u16),
    new_keyframe: Option<Seq<u8>>,
    new_deltas: Seq<u8>,
    res: Option<(u16, u16)>,
) -> bool {
    if map_has_active(m) && !map_min_dims(m, old_dims.0, old_dims.1) {
        &&& map_min_dims(m, new_dims.0, new_dims.1)
        &&& res == Some(new_dims)
        &&& new_keyframe is None
        &&& new_deltas == Seq::<u8>::empty()
    } else {
        &&& res is None
        &&& new_dims == old_dims
        &&& new_keyframe == old_keyframe
        &&& new_deltas == old_deltas
    }
}

/// The smallest size is unique.
proof fn lemma_min_dims_unique(m: Map<Seq<char>, ClientViewport>, r1: u16, c1: u16, r2: u16, c2: u16)
    requires
        map_min_dims(m, r1, c1),
        map_min_dims(m, r2, c2),
    ensures
        r1 == r2,
        c1 == c2,
{
    let k1 = choose|k: Seq<char>| m.dom().contains(k) && (#[trigger] m[k]).is_active && m[k].rows == r1;
    let k2 = choose|k: Seq<char>| m.dom().contains(k) && (#[trigger] m[k]).is_active && m[k].rows == r2;
    let j1 = choose|k: Seq<char>| m.dom().contains(k) && (#[trigger] m[k]).is_active && m[k].cols == c1;
    let j2 = choose|k: Seq<char>| m.dom().contains(k) && (#[trigger] m[k]).is_active && m[k].cols == c2;
    assert(m[k1].is_active && m[k2].is_active && m[j1].is_active && m[j2].is_active);
}

impl VirtualTerminal {
    /// The negotiated size.
    pub fn effective_dims(&self) -> (res: (u16, u16))
        ensures
            res == self.dims(),
    {
        self.effective_dims
    }

    /// Resizes the screen.
    pub fn resize(&mut self, rows: u16, cols: u16)
        requires
            rows >= 1,
            cols >= 1,
        ensures
            final(self).viewport_map() == old(self).viewport_map(),
            final(self).dims() == old(self).dims(),
            final(self).keyframe_view() == old(self).keyframe_view(),
            final(self).deltas_view() == old(self).deltas_view(),
            final(self).max_deltas() == old(self).max_deltas(),
            old(self).wf() ==> final(self).wf(),
            final(self).screen_dims() == (rows, cols),
    {
        parser_set_size(&mut self.parser, rows, cols);
    }

    /// Recomputes the negotiated size from the active viewports.
    fn recalculate_effective_dims(&mut self) -> (res: Option<(u16, u16)>)
        requires
            old(self).wf(),
        ensures
            final(self).wf(),
            final(self).viewport_map() == old(self).viewport_map(),
            final(self).max_deltas() == old(self).max_deltas(),
            resize_outcome(
                old(self).viewport_map(),
                old(self).dims(),
                old(self).keyframe_view(),
                old(self).deltas_view(),
                final(self).dims(),
                final(self).keyframe_view(),
                final(self).deltas_view(),
                res,
            ),
    {
        let new_dims = calculate_effective_dims(self.viewports.as_slice());
        proof {
            lemma_dims_outcome_map(self.ids@, self.viewports@, new_dims);
        }
        match new_dims {
            Some((rows, cols)) => {
                proof {
                    if map_min_dims(self.viewport_map(), self.effective_dims.0, self.effective_dims.1) {
                        lemma_min_dims_unique(self.viewport_map(), rows, cols, self.effective_dims.0, self.effective_dims.1);
                    }
                    let k = choose|k: Seq<char>| self.viewport_map().dom().contains(k) && (#[trigger] self.viewport_map()[k]).is_active
                        && self.viewport_map()[k].rows == rows;
                    let j = choose|k: Seq<char>| self.viewport_map().dom().contains(k) && (#[trigger] self.viewport_map()[k]).is_active
                        && self.viewport_map()[k].cols == cols;
                    let i1 = choose|i: int| 0 <= i < self.ids@.len() && (#[trigger] self.ids@[i])@ == k;
                    let i2 = choose|i: int| 0 <= i < self.ids@.len() && (#[trigger] self.ids@[i])@ == j;
                    lemma_keyed_entry(self.ids@, self.viewports@, i1);
                    lemma_keyed_entry(self.ids@, self.viewports@, i2);
                    assert(rows >= 1 && cols >= 1);
                }
                if rows != self.effective_dims.0 || cols != self.effective_dims.1 {
                    self.effective_dims = (rows, cols);
                    parser_set_size(&mut self.parser, rows, cols);
                    self.keyframe = None;
                    self.deltas.clear();
                    return Some((rows, cols));
                }
                None
            },
            None => None,
        }
    }

    /// Sets a client's viewport, making it active, and renegotiates.
    pub fn update_viewport(&mut self, connection_id: &str, rows: u16, cols: u16, client_type: ClientType) -> (res:
        Option<(u16, u16)>)
        requires
            old(self).wf(),
            rows >= 1,
            cols >= 1,
        ensures
            final(self).wf(),
            final(self).viewport_map() == old(self).viewport_map().insert(
                connection_id@,
                ClientViewport { rows, cols, client_type, is_active: true },
            ),
            final(self).max_deltas() == old(self).max_deltas(),
            resize_outcome(
                final(self).viewport_map(),
                old(self).dims(),
                old(self).keyframe_view(),
                old(self).deltas_view(),
                final(self).dims(),
                final(self).keyframe_view(),
                final(self).deltas_view(),
                res,
            ),
    {
        let vp = ClientViewport { rows, cols, client_type, is_active: true };
        let ghost old_map = self.viewport_map();
        match find_key(&self.ids, connection_id) {
            Some(i) => {
                self.viewports.set(i, vp);
                proof {
                    lemma_keyed_set(self.ids@, old(self).viewports@, i as int, vp);
                }
            },
            None => {
                let ghost old_ids = self.ids@;
                let owned = connection_id.to_owned();
                let ghost owned_view = owned;
                self.ids.push(owned);
                self.viewports.push(vp);
                proof {
                    lemma_keyed_push(old_ids, old(self).viewports@, owned_view, vp);
                }
            },
        }
        self.recalculate_effective_dims()
    }

    /// Marks a client's viewport active or not, and renegotiates.
    pub fn set_active(&mut self, connection_id: &str, active: bool) -> (res: Option<(u16, u16)>)
        requires
            old(self).wf(),
        ensures
            final(self).wf(),
            final(self).viewport_map() == if old(self).viewport_map().dom().contains(connection_id@) {
                old(self).viewport_map().insert(
                    connection_id@,
                    ClientViewport { is_active: active, ..old(self).viewport_map()[connection_id@] },
                )
            } else {
                old(self).viewport_map()
            },
            final(self).max_deltas() == old(self).max_deltas(),
            resize_outcome(
                final(self).viewport_map(),
                old(self).dims(),
                old(self).keyframe_view(),
                old(self).deltas_view(),
                final(self).dims(),
                final(self).keyframe_view(),
                final(self).deltas_view(),
                res,
            ),
    {
        match find_key(&self.ids, connection_id) {
            Some(i) => {
                let old_vp = self.viewports[i];
                let vp = ClientViewport { is_active: active, ..old_vp };
                proof {
                    lemma_keyed_entry(self.ids@, self.viewports@, i as int);
                }
                self.viewports.set(i, vp);
                proof {
                    lemma_keyed_set(self.ids@, old(self).viewports@, i as int, vp);
                }
            },
            None => {
                proof {
                    assert(!old(self).viewport_map().dom().contains(connection_id@));
                }
            },
        }
        self.recalculate_effective_dims()
    }

    /// Forgets a client's viewport, and renegotiates.
    pub fn remove_client(&mut self, connection_id: &str) -> (res: Option<(u16, u16)>)
        requires
            old(self).wf(),
        ensures
            final(self).wf(),
            final(self).viewport_map() == old(self).viewport_map().remove(connection_id@),
            final(self).max_deltas() == old(self).max_deltas(),
            resize_outcome(
                final(self).viewport_map(),
                old(self).dims(),
                old(self).keyframe_view(),
                old(self).deltas_view(),
                final(self).dims(),
                final(self).keyframe_view(),
                final(self).deltas_view(),
                res,
            ),
    {
        match find_key(&self.ids, connection_id) {
            Some(i) => {
                let ghost old_ids = self.ids@;
                let ghost old_vps = self.viewports@;
                self.ids.remove(i);
                self.viewports.remove(i);
                proof {
                    lemma_keyed_remove(old_ids, old_vps, i as int);
                }
            },
            None => {
                proof {
                    assert(old(self).viewport_map().remove(connection_id@) =~= old(self).viewport_map());
                }
            },
        }
        self.recalculate_effective_dims()
    }
}

/// What a replay sends: the scrollback rows; when there are any, the lines
/// on the client's screen scrolled into its scrollback; then a snapshot of
/// the screen.
pub open spec fn is_replay(res: Seq<u8>, client_rows: u16) -> bool {
    exists|rows: Seq<Seq<Option<CellInfo>>>, shown: bool, formatted: Seq<u8>, row: u16, col: u16|
        (!shown ==> rows.len() == 0) && res == scrollback_bytes(rows) + when(shown, scroll_out(client_rows))
            + clear_screen() + formatted + cursor_to(row, col)
}

/// Appends `ESC [ rows ; 1 H` and `rows` line feeds.
fn push_scroll_out(out: &mut Vec<u8>, rows: u16)
    ensures
        final(out)@ == old(out)@ + scroll_out(rows),
{
    let ghost start = out@;
    out.push(27u8);
    out.push(91u8);
    push_ascii_decimal(out, rows as u64);
    out.push(59u8);
    out.push(49u8);
    out.push(72u8);
    let ghost head = out@;
    let mut i: u16 = 0;
    while i < rows
        invariant
            i <= rows,
            out@ == head + Seq::new(i as nat, |j: int| 10u8),
        decreases rows - i,
    {
        out.push(10u8);
        assert(out@ =~= head + Seq::new((i + 1) as nat, |j: int| 10u8));
        i = i + 1;
    }
    assert(out@ =~= start + scroll_out(rows));
}

impl VirtualTerminal {
    /// Appends the scrollback, oldest row first, one screen page at a
    /// time, each row rendered without cursor movement and ended with a
    /// reset and CR LF. Returns whether there was scrollback; leaves the
    /// view at the live screen.
    fn append_scrollback_replay(&mut self, out: &mut Vec<u8>) -> (res: bool)
        ensures
            exists|rows: Seq<Seq<Option<CellInfo>>>|
                (!res ==> rows.len() == 0) && final(out)@ == old(out)@ + #[trigger] scrollback_bytes(rows),
            final(self).viewport_map() == old(self).viewport_map(),
            final(self).dims() == old(self).dims(),
            final(self).keyframe_view() == old(self).keyframe_view(),
            final(self).deltas_view() == old(self).deltas_view(),
            final(self).max_deltas() == old(self).max_deltas(),
            old(self).wf() ==> final(self).wf(),
    {
        let ghost start = out@;
        parser_set_scrollback(&mut self.parser, usize::MAX);
        let total = screen_scrollback(parser_screen(&self.parser));
        if total == 0 {
            parser_set_scrollback(&mut self.parser, 0);
            assert(out@ =~= start + scrollback_bytes(Seq::<Seq<Option<CellInfo>>>::empty()));
            return false;
        }
        let (rows, cols) = parser_size(&self.parser);
        let rows_usize = rows as usize;
        let ghost mut acc: Seq<Seq<Option<CellInfo>>> = Seq::empty();
        let mut remaining = total;
        while remaining > 0
            invariant
                out@ == start + scrollback_bytes(acc),
                rows_usize == rows as usize,
                self.ids == old(self).ids,
                self.viewports == old(self).viewports,
                self.effective_dims == old(self).effective_dims,
                self.keyframe == old(self).keyframe,
                self.deltas == old(self).deltas,
                self.max_delta_bytes == old(self).max_delta_bytes,
            decreases remaining,
        {
            if rows_usize == 0 {
                break;
            }
            parser_set_scrollback(&mut self.parser, remaining);
            let page = if remaining < rows_usize {
                remaining
            } else {
                rows_usize
            };
            let mut i: usize = 0;
            while i < page
                invariant
                    i <= page <= rows_usize,
                    rows_usize == rows as usize,
                    out@ == start + scrollback_bytes(acc),
                decreases page - i,
            {
                let ghost before = out@;
                push_scrollback_row(parser_screen(&self.parser), i as u16, cols, out);
                proof {
                    let cells = choose|cells: Seq<Option<CellInfo>>|
                        cells.len() == cols && out@ == before + #[trigger] render_row(cells).0 + row_end();
                    let acc2 = acc.push(cells);
                    assert(acc2.drop_last() =~= acc);
                    acc = acc2;
                }
                i = i + 1;
            }
            remaining = remaining - page;
        }
        parser_set_scrollback(&mut self.parser, 0);
        true
    }

    /// Everything a newly attached client needs: compacts, then sends the
    /// scrollback, scrolls the client's visible lines (`client_rows` of
    /// them) into its own scrollback when there was any, and a snapshot of
    /// the screen.
    pub fn replay(&mut self, client_rows: u16) -> (res: Vec<u8>)
        ensures
            is_replay(res@, client_rows),
            final(self).keyframe_view() matches Some(k) && is_snapshot(k),
            final(self).deltas_view() == Seq::<u8>::empty(),
            final(self).viewport_map() == old(self).viewport_map(),
            final(self).dims() == old(self).dims(),
            final(self).max_deltas() == old(self).max_deltas(),
            old(self).wf() ==> final(self).wf(),
    {
        self.compact();
        let mut result: Vec<u8> = Vec::new();
        let shown = self.append_scrollback_replay(&mut result);
        let ghost rows = choose|rows: Seq<Seq<Option<CellInfo>>>|
            (!shown ==> rows.len() == 0) && result@ == Seq::<u8>::empty() + #[trigger] scrollback_bytes(rows);
        assert(result@ =~= scrollback_bytes(rows));
        let ghost sb = result@;
        if shown {
            push_scroll_out(&mut result, client_rows);
        }
        assert(result@ =~= sb + when(shown, scroll_out(client_rows)));
        let ghost before = result@;
        push_snapshot(&self.parser, &mut result);
        proof {
            let (f, r, c) = choose|formatted: Seq<u8>, row: u16, col: u16|
                result@ == before + clear_screen() + formatted + cursor_to(row, col);
            assert(result@ == scrollback_bytes(rows) + when(shown, scroll_out(client_rows)) + clear_screen() + f
                + cursor_to(r, c));
        }
        result
    }
}

/// After any renegotiation, with some viewport active, the negotiated
/// size is the smallest active one.
pub proof fn law_negotiated_size_is_smallest_active(
    m: Map<Seq<char>, ClientViewport>,
    old_dims: (u16, u16),
    old_keyframe: Option<Seq<u8>>,
    old_deltas: Seq<u8>,
    new_dims: (u16, u16),
    new_keyframe: Option<Seq<u8>>,
    new_deltas: Seq<u8>,
    res: Option<(u16, u16)>,
)
    requires
        resize_outcome(m, old_dims, old_keyframe, old_deltas, new_dims, new_keyframe, new_deltas, res),
        map_has_active(m),
    ensures
        map_min_dims(m, new_dims.0, new_dims.1),
        res is Some <==> new_dims != old_dims,
{
    if map_min_dims(m, old_dims.0, old_dims.1) {
        assert(new_dims == old_dims);
    } else {
        if new_dims == old_dims {
            assert(false);
        }
    }
}

/// With no viewport active, renegotiating changes nothing.
pub proof fn law_no_active_viewport_keeps_size(
    m: Map<Seq<char>, ClientViewport>,
    old_dims: (u16, u16),
    old_keyframe: Option<Seq<u8>>,
    old_deltas: Seq<u8>,
    new_dims: (u16, u16),
    new_keyframe: Option<Seq<u8>>,
    new_deltas: Seq<u8>,
    res: Option<(u16, u16)>,
)
    requires
        resize_outcome(m, old_dims, old_keyframe, old_deltas, new_dims, new_keyframe, new_deltas, res),
        !map_has_active(m),
    ensures
        res is None,
        new_dims == old_dims,
        new_keyframe == old_keyframe,
        new_deltas == old_deltas,
{
}

} // verus!
