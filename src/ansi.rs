//! Decoder from text holding ANSI SGR escape sequences to styled lines.

use vstd::prelude::*;
use vstd::string::StringSliceAdditionalSpecFns;

verus! {

/// A terminal colour.
#[derive(Clone, Copy, Debug, PartialEq, Eq, Structural)]
pub enum Color {
    Reset,
    Black,
    Red,
    Green,
    Yellow,
    Blue,
    Magenta,
    Cyan,
    Gray,
    DarkGray,
    LightRed,
    LightGreen,
    LightYellow,
    LightBlue,
    LightMagenta,
    LightCyan,
    White,
    Rgb(u8, u8, u8),
}

/// Display attributes of a run of text. `None` colours leave the terminal's own.
#[derive(Clone, Copy, Debug, PartialEq, Eq, Structural)]
pub struct Style {
    pub fg: Option<Color>,
    pub bg: Option<Color>,
    pub bold: bool,
    pub dim: bool,
    pub italic: bool,
    pub underlined: bool,
    pub reversed: bool,
}

/// The style with no attribute set.
pub open spec fn plain_style() -> Style {
    Style {
        fg: None,
        bg: None,
        bold: false,
        dim: false,
        italic: false,
        underlined: false,
        reversed: false,
    }
}

impl Style {
    pub fn plain() -> (s: Style)
        ensures
            s == plain_style(),
    {
        Style {
            fg: None,
            bg: None,
            bold: false,
            dim: false,
            italic: false,
            underlined: false,
            reversed: false,
        }
    }
}

/// The sixteen standard colours, by their index; any other index is `Reset`.
pub open spec fn standard_color(n: int) -> Color {
    if n == 0 {
        Color::Black
    } else if n == 1 {
        Color::Red
    } else if n == 2 {
        Color::Green
    } else if n == 3 {
        Color::Yellow
    } else if n == 4 {
        Color::Blue
    } else if n == 5 {
        Color::Magenta
    } else if n == 6 {
        Color::Cyan
    } else if n == 7 {
        Color::Gray
    } else if n == 8 {
        Color::DarkGray
    } else if n == 9 {
        Color::LightRed
    } else if n == 10 {
        Color::LightGreen
    } else if n == 11 {
        Color::LightYellow
    } else if n == 12 {
        Color::LightBlue
    } else if n == 13 {
        Color::LightMagenta
    } else if n == 14 {
        Color::LightCyan
    } else if n == 15 {
        Color::White
    } else {
        Color::Reset
    }
}

/// Channel intensity of step `k` (0..5) of the 6x6x6 colour cube:
/// 0, 95, 135, 175, 215, 255.
pub open spec fn cube_level(k: int) -> int {
    if k == 0 {
        0
    } else {
        55 + 40 * k
    }
}

/// Entry `n` of the 256-colour palette.
pub open spec fn palette_color(n: int) -> Color {
    if n < 16 {
        standard_color(n)
    } else if n < 232 {
        let m = n - 16;
        Color::Rgb(
            cube_level(m / 36) as u8,
            cube_level((m / 6) % 6) as u8,
            cube_level(m % 6) as u8,
        )
    } else {
        let v = (8 + (n - 232) * 10) as u8;
        Color::Rgb(v, v, v)
    }
}

pub fn ansi_color(n: u8) -> (c: Color)
    ensures
        c == standard_color(n as int),
{
    match n {
        0 => Color::Black,
        1 => Color::Red,
        2 => Color::Green,
        3 => Color::Yellow,
        4 => Color::Blue,
        5 => Color::Magenta,
        6 => Color::Cyan,
        7 => Color::Gray,
        8 => Color::DarkGray,
        9 => Color::LightRed,
        10 => Color::LightGreen,
        11 => Color::LightYellow,
        12 => Color::LightBlue,
        13 => Color::LightMagenta,
        14 => Color::LightCyan,
        15 => Color::White,
        _ => Color::Reset,
    }
}

fn cube_step(k: u8) -> (r: u8)
    requires
        k < 6,
    ensures
        r as int == cube_level(k as int),
{
    if k == 0 {
        0
    } else {
        55 + 40 * k
    }
}

pub fn ansi_color_256(n: u8) -> (c: Color)
    ensures
        c == palette_color(n as int),
{
    if n < 16 {
        ansi_color(n)
    } else if n < 232 {
        let m = n - 16;
        Color::Rgb(cube_step(m / 36), cube_step((m / 6) % 6), cube_step(m % 6))
    } else {
        let v = 8 + (n - 232) * 10;
        Color::Rgb(v, v, v)
    }
}

/// Value of a run of decimal digits.
pub open spec fn decimal_value(f: Seq<u8>) -> nat
    decreases f.len(),
{
    if f.len() == 0 {
        0
    } else {
        decimal_value(f.drop_last()) * 10 + (f.last() - 48) as nat
    }
}

pub open spec fn is_digit(b: u8) -> bool {
    48 <= b <= 57
}

/// A field of digits read as a `u16`: present when the field is non-empty and
/// its value fits.
pub open spec fn field_code(f: Seq<u8>) -> Option<u16> {
    if f.len() > 0 && decimal_value(f) <= 65535 {
        Some(decimal_value(f) as u16)
    } else {
        None
    }
}

/// Number of bytes from `i` up to the next `;` or the end.
pub open spec fn field_len(p: Seq<u8>, i: int) -> nat
    decreases p.len() - i,
{
    if 0 <= i < p.len() && p[i] != 59 {
        1 + field_len(p, i + 1)
    } else {
        0
    }
}

/// The codes of the `;`-separated fields of `p` from position `i` on; fields
/// that do not read as a `u16` (empty ones included) are left out.
pub open spec fn codes_from(p: Seq<u8>, i: int) -> Seq<u16>
    decreases p.len() - i,
{
    if i < 0 || i > p.len() {
        seq![]
    } else {
        let k = i + field_len(p, i);
        let rest = if k < p.len() {
            codes_from(p, k + 1)
        } else {
            seq![]
        };
        match field_code(p.subrange(i, k)) {
            Some(c) => seq![c] + rest,
            None => rest,
        }
    }
}

/// The codes of an SGR parameter string; an empty one stands for a reset.
pub open spec fn sgr_codes(p: Seq<u8>) -> Seq<u16> {
    if p.len() == 0 {
        seq![0u16]
    } else {
        codes_from(p, 0)
    }
}

/// The colour that an extended-colour introducer at `j` selects, and how many
/// further codes it consumes: `5;N` (palette) or `2;R;G;B` (direct).
pub open spec fn extended_spec(codes: Seq<u16>, j: int) -> Option<(Color, usize)> {
    if j + 1 < codes.len() && codes[j + 1] == 5 {
        if j + 2 < codes.len() {
            Some((palette_color((codes[j + 2] % 256) as int), 2))
        } else {
            None
        }
    } else if j + 1 < codes.len() && codes[j + 1] == 2 {
        if j + 4 < codes.len() {
            Some(
                (
                    Color::Rgb(
                        (codes[j + 2] % 256) as u8,
                        (codes[j + 3] % 256) as u8,
                        (codes[j + 4] % 256) as u8,
                    ),
                    4,
                ),
            )
        } else {
            None
        }
    } else {
        None
    }
}

/// The effect of one SGR code other than an extended-colour introducer.
pub open spec fn apply_code(c: u16, s: Style) -> Style {
    if c == 0 {
        plain_style()
    } else if c == 1 {
        Style { bold: true, ..s }
    } else if c == 2 {
        Style { dim: true, ..s }
    } else if c == 3 {
        Style { italic: true, ..s }
    } else if c == 4 {
        Style { underlined: true, ..s }
    } else if c == 7 {
        Style { reversed: true, ..s }
    } else if c == 22 {
        Style { bold: false, dim: false, ..s }
    } else if c == 23 {
        Style { italic: false, ..s }
    } else if c == 24 {
        Style { underlined: false, ..s }
    } else if c == 27 {
        Style { reversed: false, ..s }
    } else if 30 <= c <= 37 {
        Style { fg: Some(standard_color(c - 30)), ..s }
    } else if c == 39 {
        Style { fg: Some(Color::Reset), ..s }
    } else if 40 <= c <= 47 {
        Style { bg: Some(standard_color(c - 40)), ..s }
    } else if c == 49 {
        Style { bg: Some(Color::Reset), ..s }
    } else if 90 <= c <= 97 {
        Style { fg: Some(standard_color(c - 90 + 8)), ..s }
    } else if 100 <= c <= 107 {
        Style { bg: Some(standard_color(c - 100 + 8)), ..s }
    } else {
        s
    }
}

/// The style after applying `codes[j..]` in order to `s`.
pub open spec fn apply_codes(codes: Seq<u16>, j: int, s: Style) -> Style
    decreases codes.len() - j,
{
    if j < 0 || j >= codes.len() {
        s
    } else if codes[j] == 38 || codes[j] == 48 {
        match extended_spec(codes, j) {
            Some((c, n)) => {
                let s2 = if codes[j] == 38 {
                    Style { fg: Some(c), ..s }
                } else {
                    Style { bg: Some(c), ..s }
                };
                apply_codes(codes, j + n + 1, s2)
            },
            None => apply_codes(codes, j + 1, s),
        }
    } else {
        apply_codes(codes, j + 1, apply_code(codes[j], s))
    }
}

/// Splits an SGR parameter string (digits and `;`) into its numeric codes.
fn parse_codes(params: &[u8]) -> (codes: Vec<u16>)
    requires
        forall|k: int| 0 <= k < params@.len() ==> is_digit(params@[k]) || params@[k] == 59,
    ensures
        codes@ == sgr_codes(params@),
{
    let ghost p = params@;
    let mut codes: Vec<u16> = Vec::new();
    if params.len() == 0 {
        codes.push(0);
        return codes;
    }
    let mut i: usize = 0;
    let mut done = false;
    while !done
        invariant
            p == params@,
            p.len() > 0,
            i <= p.len(),
            forall|k: int| 0 <= k < p.len() ==> is_digit(p[k]) || p[k] == 59,
            !done ==> codes@ + codes_from(p, i as int) == codes_from(p, 0),
            done ==> codes@ == codes_from(p, 0),
        decreases p.len() + 1 - i + (if done { 0int } else { 1int }),
    {
        let start = i;
        let mut value: u32 = 0;
        while i < params.len() && params[i] != 59
            invariant
                p == params@,
                start <= i <= p.len(),
                forall|k: int| 0 <= k < p.len() ==> is_digit(p[k]) || p[k] == 59,
                forall|k: int| start <= k < i ==> p[k] != 59,
                field_len(p, start as int) == (i - start) + field_len(p, i as int),
                value <= 655359,
                value <= 65535 ==> value == decimal_value(p.subrange(start as int, i as int)),
                value > 65535 ==> decimal_value(p.subrange(start as int, i as int)) > 65535,
            decreases p.len() - i,
        {
            let d = params[i];
            let ghost f = p.subrange(start as int, i as int);
            let ghost f2 = p.subrange(start as int, i + 1);
            assert(f2.drop_last() =~= f);
            assert(f2.last() == d);
            if value <= 65535 {
                value = value * 10 + (d - 48) as u32;
            }
            i = i + 1;
        }
        assert(field_len(p, i as int) == 0);
        let ghost f = p.subrange(start as int, i as int);
        let ghost rest = if i < p.len() { codes_from(p, i + 1) } else { seq![] };
        assert(codes_from(p, start as int) == match field_code(f) {
            Some(c) => seq![c] + rest,
            None => rest,
        });
        if i > start && value <= 65535 {
            codes.push(value as u16);
            assert(codes@ + rest =~= codes@.drop_last() + (seq![value as u16] + rest));
        }
        if i < params.len() {
            i = i + 1;
        } else {
            assert(codes@ + rest =~= codes@);
            done = true;
        }
    }
    codes
}

/// Reads an extended colour (`5;N` or `2;R;G;B`) after the introducer at `base`.
/// Returns the colour and how many further codes it used.
fn extended_color(codes: &Vec<u16>, base: usize) -> (r: Option<(Color, usize)>)
    requires
        base < codes@.len(),
    ensures
        r == extended_spec(codes@, base as int),
{
    let avail = codes.len() - base;
    if avail > 1 && codes[base + 1] == 5 {
        if avail > 2 {
            let n = (codes[base + 2] % 256) as u8;
            Some((ansi_color_256(n), 2))
        } else {
            None
        }
    } else if avail > 1 && codes[base + 1] == 2 {
        if avail > 4 {
            let r = (codes[base + 2] % 256) as u8;
            let g = (codes[base + 3] % 256) as u8;
            let b = (codes[base + 4] % 256) as u8;
            Some((Color::Rgb(r, g, b), 4))
        } else {
            None
        }
    } else {
        None
    }
}

/// Applies the SGR parameter string `params` to `style`.
pub fn apply_sgr(params: &[u8], style: &mut Style)
    requires
        forall|k: int| 0 <= k < params@.len() ==> is_digit(params@[k]) || params@[k] == 59,
    ensures
        *final(style) == apply_codes(sgr_codes(params@), 0, *old(style)),
{
    let codes = parse_codes(params);
    let ghost s0 = *style;
    let mut j: usize = 0;
    while j < codes.len()
        invariant
            apply_codes(codes@, j as int, *style) == apply_codes(codes@, 0, s0),
            codes@ == sgr_codes(params@),
        decreases codes.len() - j,
    {
        let c = codes[j];
        if c == 38 || c == 48 {
            match extended_color(&codes, j) {
                Some((col, n)) => {
                    if c == 38 {
                        style.fg = Some(col);
                    } else {
                        style.bg = Some(col);
                    }
                    j = j + n;
                },
                None => {},
            }
        } else if c == 0 {
            *style = Style::plain();
        } else if c == 1 {
            style.bold = true;
        } else if c == 2 {
            style.dim = true;
        } else if c == 3 {
            style.italic = true;
        } else if c == 4 {
            style.underlined = true;
        } else if c == 7 {
            style.reversed = true;
        } else if c == 22 {
            style.bold = false;
            style.dim = false;
        } else if c == 23 {
            style.italic = false;
        } else if c == 24 {
            style.underlined = false;
        } else if c == 27 {
            style.reversed = false;
        } else if 30 <= c && c <= 37 {
            style.fg = Some(ansi_color((c - 30) as u8));
        } else if c == 39 {
            style.fg = Some(Color::Reset);
        } else if 40 <= c && c <= 47 {
            style.bg = Some(ansi_color((c - 40) as u8));
        } else if c == 49 {
            style.bg = Some(Color::Reset);
        } else if 90 <= c && c <= 97 {
            style.fg = Some(ansi_color((c - 90 + 8) as u8));
        } else if 100 <= c && c <= 107 {
            style.bg = Some(ansi_color((c - 100 + 8) as u8));
        }
        j = j + 1;
    }
}

/// A run of text bytes shown in one style.
#[derive(Debug)]
pub struct Span {
    pub text: Vec<u8>,
    pub style: Style,
}

/// One display line: its spans in order.
#[derive(Debug)]
pub struct Line {
    pub spans: Vec<Span>,
}

/// Decoded text: its lines in order.
#[derive(Debug)]
pub struct Text {
    pub lines: Vec<Line>,
}

pub type SpanView = (Seq<u8>, Style);

impl View for Span {
    type V = SpanView;

    open spec fn view(&self) -> SpanView {
        (self.text@, self.style)
    }
}

impl View for Line {
    type V = Seq<SpanView>;

    open spec fn view(&self) -> Seq<SpanView> {
        self.spans@.map_values(|s: Span| s@)
    }
}

impl View for Text {
    type V = Seq<Seq<SpanView>>;

    open spec fn view(&self) -> Seq<Seq<SpanView>> {
        self.lines@.map_values(|l: Line| l@)
    }
}

/// Scanner state: current style, pending text, spans of the open line, closed lines.
pub type DecodeState = (Style, Seq<u8>, Seq<SpanView>, Seq<Seq<SpanView>>);

pub open spec fn is_param_byte(b: u8) -> bool {
    is_digit(b) || b == 59
}

/// Number of parameter bytes (digits and `;`) from position `i` on.
pub open spec fn param_len(b: Seq<u8>, i: int) -> nat
    decreases b.len() - i,
{
    if 0 <= i < b.len() && is_param_byte(b[i]) {
        1 + param_len(b, i + 1)
    } else {
        0
    }
}

/// The open line's spans after closing the pending text as a span, if any.
pub open spec fn flushed(buf: Seq<u8>, style: Style, spans: Seq<SpanView>) -> Seq<SpanView> {
    if buf.len() > 0 {
        spans.push((buf, style))
    } else {
        spans
    }
}

/// Scans `b` from position `i` on, starting in state `st`.
/// `ESC [ params final` closes the pending text; when `final` is `m` the
/// parameters update the style, any other sequence is dropped. A newline closes
/// the line, a carriage return is dropped, any other byte is text.
pub open spec fn decode_from(b: Seq<u8>, i: int, st: DecodeState) -> DecodeState
    decreases b.len() - i,
{
    if i < 0 || i >= b.len() {
        st
    } else if b[i] == 27 && i + 1 < b.len() && b[i + 1] == 91 {
        let e = i + 2 + param_len(b, i + 2);
        let style = if e < b.len() && b[e] == 109 {
            apply_codes(sgr_codes(b.subrange(i + 2, e)), 0, st.0)
        } else {
            st.0
        };
        let next = if e < b.len() {
            e + 1
        } else {
            b.len() as int
        };
        decode_from(b, next, (style, seq![], flushed(st.1, st.0, st.2), st.3))
    } else if b[i] == 10 {
        decode_from(b, i + 1, (st.0, seq![], seq![], st.3.push(flushed(st.1, st.0, st.2))))
    } else if b[i] == 13 {
        decode_from(b, i + 1, st)
    } else {
        decode_from(b, i + 1, (st.0, st.1.push(b[i]), st.2, st.3))
    }
}

/// The lines that `b` decodes to: the scan from the plain style, then the
/// pending text and an open line that is not empty are closed.
pub open spec fn decode(b: Seq<u8>) -> Seq<Seq<SpanView>> {
    let st = decode_from(b, 0, (plain_style(), seq![], seq![], seq![]));
    let last = flushed(st.1, st.0, st.2);
    if last.len() > 0 {
        st.3.push(last)
    } else {
        st.3
    }
}

/// Closes the pending text `buf` as a span in `style`.
fn flush(buf: &mut Vec<u8>, style: Style, spans: &mut Vec<Span>)
    ensures
        final(buf)@.len() == 0,
        final(spans)@.map_values(|s: Span| s@) == flushed(
            old(buf)@,
            style,
            old(spans)@.map_values(|s: Span| s@),
        ),
{
    if buf.len() > 0 {
        let mut text: Vec<u8> = Vec::new();
        std::mem::swap(buf, &mut text);
        let ghost before = spans@;
        spans.push(Span { text, style });
        assert(spans@.map_values(|s: Span| s@) =~= before.map_values(|s: Span| s@).push(
            (text@, style),
        ));
    }
}

/// Decodes text holding SGR escape sequences into styled lines.
pub fn ansi_to_text(s: &str) -> (t: Text)
    ensures
        t@ == decode(s.spec_bytes()),
{
    let bytes = s.as_bytes();
    let ghost b = bytes@;
    let mut lines: Vec<Line> = Vec::new();
    let mut spans: Vec<Span> = Vec::new();
    let mut style = Style::plain();
    let mut buf: Vec<u8> = Vec::new();
    let mut i: usize = 0;
    assert(spans@.map_values(|x: Span| x@) =~= Seq::<SpanView>::empty());
    assert(lines@.map_values(|l: Line| l@) =~= Seq::<Seq<SpanView>>::empty());
    assert(buf@ =~= Seq::<u8>::empty());
    while i < bytes.len()
        invariant
            b == bytes@,
            i <= b.len(),
            decode_from(
                b,
                i as int,
                (
                    style,
                    buf@,
                    spans@.map_values(|x: Span| x@),
                    lines@.map_values(|l: Line| l@),
                ),
            ) == decode_from(b, 0, (plain_style(), seq![], seq![], seq![])),
        decreases b.len() - i,
    {
        let ghost st = (
            style,
            buf@,
            spans@.map_values(|x: Span| x@),
            lines@.map_values(|l: Line| l@),
        );
        let ghost i0 = i as int;
        if bytes[i] == 27 && i + 1 < bytes.len() && bytes[i + 1] == 91 {
            flush(&mut buf, style, &mut spans);
            let start = i + 2;
            let mut j = start;
            while j < bytes.len() && (is_digit_byte(bytes[j]) || bytes[j] == 59)
                invariant
                    b == bytes@,
                    start <= j <= b.len(),
                    param_len(b, start as int) == (j - start) + param_len(b, j as int),
                    forall|k: int| start <= k < j ==> is_param_byte(b[k]),
                decreases b.len() - j,
            {
                j = j + 1;
            }
            let ghost e = j as int;
            let ghost old_style = style;
            if j < bytes.len() {
                if bytes[j] == 109 {
                    let params = vstd::slice::slice_subrange(bytes, start, j);
                    apply_sgr(params, &mut style);
                }
                i = j + 1;
            } else {
                i = j;
            }
            assert(buf@ =~= Seq::<u8>::empty());
            assert(param_len(b, e) == 0);
            assert(e == start + param_len(b, start as int));
            assert(decode_from(b, i0, st) == decode_from(
                b,
                i as int,
                (style, buf@, spans@.map_values(|x: Span| x@), lines@.map_values(|l: Line| l@)),
            ));
        } else if bytes[i] == 10 {
            flush(&mut buf, style, &mut spans);
            let ghost before = lines@;
            lines.push(Line { spans });
            spans = Vec::new();
            assert(lines@.map_values(|l: Line| l@) =~= before.map_values(|l: Line| l@).push(
                flushed(st.1, style, st.2),
            ));
            assert(spans@.map_values(|x: Span| x@) =~= Seq::<SpanView>::empty());
            assert(buf@ =~= Seq::<u8>::empty());
            i = i + 1;
            assert(decode_from(b, i0, st) == decode_from(
                b,
                i as int,
                (style, buf@, spans@.map_values(|x: Span| x@), lines@.map_values(|l: Line| l@)),
            ));
        } else if bytes[i] == 13 {
            i = i + 1;
            assert(decode_from(b, i0, st) == decode_from(
                b,
                i as int,
                (style, buf@, spans@.map_values(|x: Span| x@), lines@.map_values(|l: Line| l@)),
            ));
        } else {
            buf.push(bytes[i]);
            i = i + 1;
            assert(decode_from(b, i0, st) == decode_from(
                b,
                i as int,
                (style, buf@, spans@.map_values(|x: Span| x@), lines@.map_values(|l: Line| l@)),
            ));
        }
    }
    flush(&mut buf, style, &mut spans);
    if spans.len() > 0 {
        let ghost before = lines@;
        lines.push(Line { spans });
        assert(lines@.map_values(|l: Line| l@) =~= before.map_values(|l: Line| l@).push(
            spans@.map_values(|x: Span| x@),
        ));
    }
    Text { lines }
}

fn is_digit_byte(b: u8) -> (r: bool)
    ensures
        r == is_digit(b),
{
    48 <= b && b <= 57
}

} // verus!
