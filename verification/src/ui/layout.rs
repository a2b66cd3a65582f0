//! Geometry and colours of the toolbar window. Layout is given in logical
//! pixels at 96 dpi and scaled by the display's scale in percent.

use vstd::prelude::*;
use crate::text::{chars_of, decimal, string_of, subvec};
use crate::ui::theme::{colorref, rgb};

verus! {

pub const BAR_W: i32 = 440;
pub const BAR_H: i32 = 46;
pub const RADIUS: i32 = 12;
pub const STATUS_X: i32 = 12;
pub const INPUT_X: i32 = 106;
pub const INPUT_W: i32 = 160;
pub const INPUT_Y: i32 = 9;
pub const INPUT_H: i32 = 28;
pub const BTN_Y: i32 = 9;
pub const BTN_H: i32 = 28;
pub const BTN_HISTORY_X: i32 = 272;
pub const BTN_HISTORY_W: i32 = 36;
pub const BTN_NAME_X: i32 = 312;
pub const BTN_NAME_W: i32 = 36;
pub const BTN_SEND_X: i32 = 352;
pub const BTN_SEND_W: i32 = 48;
pub const BTN_CLOSE_X: i32 = 404;
pub const BTN_CLOSE_W: i32 = 30;
pub const POPUP_W: i32 = 360;
pub const POPUP_H: i32 = 400;
pub const POPUP_HEADER: i32 = 34;
pub const POPUP_ROW_H: i32 = 44;
pub const POPUP_PAD: i32 = 8;
pub const PANEL_H: i32 = 360;
pub const PANEL_ROW_H: i32 = 46;
pub const PANEL_HEADER: i32 = 30;
pub const SETTINGS_ROWS: usize = 6;

/// The largest display scale (percent) the layout arithmetic is made for.
pub const MAX_SCALE: i32 = 1_000_000;

/// Integer division rounding toward zero, as Rust's `/` on `i32` does.
pub open spec fn trunc_div(a: int, b: int) -> int {
    if a >= 0 {
        a / b
    } else {
        -((-a) / b)
    }
}

/// Logical pixels `v` at display scale `scale` percent, in device pixels.
pub open spec fn scaled(v: int, scale: int) -> int {
    trunc_div(v * scale, 100)
}

/// The display scale in percent for a screen's DPI (96 dpi is 100 %);
/// 100 when the DPI is not known.
pub fn scale_for_dpi(dpi: i32) -> (s: i32)
    requires
        dpi * 100 <= i32::MAX,
    ensures
        s == if dpi > 0 {
            dpi * 100 / 96
        } else {
            100
        },
{
    if dpi > 0 {
        dpi * 100 / 96
    } else {
        100
    }
}

/// The left edge of a popup of width `popup_w` placed at `left`, moved
/// back onto a screen `screen_w` wide, `margin` from its right edge, when it
/// would run past that edge.
pub fn popup_left(left: i32, popup_w: i32, screen_w: i32, margin: i32) -> (r: i32)
    requires
        i32::MIN <= left + popup_w <= i32::MAX,
        i32::MIN <= screen_w - popup_w <= i32::MAX,
        i32::MIN <= screen_w - popup_w - margin <= i32::MAX,
    ensures
        r == if left + popup_w > screen_w {
            screen_w - popup_w - margin
        } else {
            left as int
        },
        margin >= 0 ==> r + popup_w <= screen_w,
{
    if left + popup_w > screen_w {
        screen_w - popup_w - margin
    } else {
        left
    }
}

/// Logical to device pixels.
pub fn dp(v: i32, scale: i32) -> (r: i32)
    requires
        i32::MIN <= v * scale <= i32::MAX,
    ensures
        r == scaled(v as int, scale as int),
{
    let p = v * scale;
    if p >= 0 {
        p / 100
    } else {
        // -p may not fit; -p == m + 1 with m = -(p + 1), which does.
        let m = -(p + 1);
        let q = if m % 100 == 99 {
            m / 100 + 1
        } else {
            m / 100
        };
        assert(q == (m + 1) / 100);
        -q
    }
}

/// The toolbar buttons.
#[derive(Debug, Clone, Copy, PartialEq, Eq, Structural)]
pub enum Btn {
    History,
    Name,
    Send,
    Close,
}

/// The button under a point of the toolbar, if any.
pub open spec fn button_at(x: int, y: int, scale: int) -> Option<Btn> {
    if y < scaled(BTN_Y as int, scale) || y > scaled((BTN_Y + BTN_H) as int, scale) {
        None
    } else if x >= scaled(BTN_HISTORY_X as int, scale) && x < scaled((BTN_HISTORY_X + BTN_HISTORY_W) as int, scale) {
        Some(Btn::History)
    } else if x >= scaled(BTN_NAME_X as int, scale) && x < scaled((BTN_NAME_X + BTN_NAME_W) as int, scale) {
        Some(Btn::Name)
    } else if x >= scaled(BTN_SEND_X as int, scale) && x < scaled((BTN_SEND_X + BTN_SEND_W) as int, scale) {
        Some(Btn::Send)
    } else if x >= scaled(BTN_CLOSE_X as int, scale) && x < scaled((BTN_CLOSE_X + BTN_CLOSE_W) as int, scale) {
        Some(Btn::Close)
    } else {
        None
    }
}

/// The button under a point of the toolbar, if any.
pub fn hit_test(x: i32, y: i32, scale: i32) -> (r: Option<Btn>)
    requires
        0 <= scale <= MAX_SCALE,
    ensures
        r == button_at(x as int, y as int, scale as int),
{
    if y < dp(BTN_Y, scale) || y > dp(BTN_Y + BTN_H, scale) {
        return None;
    }
    if x >= dp(BTN_HISTORY_X, scale) && x < dp(BTN_HISTORY_X + BTN_HISTORY_W, scale) {
        Some(Btn::History)
    } else if x >= dp(BTN_NAME_X, scale) && x < dp(BTN_NAME_X + BTN_NAME_W, scale) {
        Some(Btn::Name)
    } else if x >= dp(BTN_SEND_X, scale) && x < dp(BTN_SEND_X + BTN_SEND_W, scale) {
        Some(Btn::Send)
    } else if x >= dp(BTN_CLOSE_X, scale) && x < dp(BTN_CLOSE_X + BTN_CLOSE_W, scale) {
        Some(Btn::Close)
    } else {
        None
    }
}

/// The list row under height `y` of a list that starts at `top` (device
/// pixels, padding included) with rows `row_h` high and `scroll` rows
/// scrolled away; -1 above the list.
pub open spec fn row_at(y: int, top: int, row_h: int, scroll: int) -> int {
    if y - top < 0 {
        -1
    } else {
        scroll + (y - top) / row_h
    }
}

/// The row under height `y` in the drop-down panel.
pub open spec fn panel_row(y: int, scroll: int, scale: int) -> int {
    row_at(
        y,
        scaled((BAR_H + PANEL_HEADER) as int, scale) + scaled(4, scale),
        scaled(PANEL_ROW_H as int, scale),
        scroll,
    )
}

/// The row under height `y` in the drop-down panel.
pub fn panel_hit(y: i32, scroll: i32, scale: i32) -> (r: i32)
    requires
        3 <= scale <= MAX_SCALE,
        y >= i32::MIN + scaled((BAR_H + PANEL_HEADER) as int, scale as int) + scaled(4, scale as int),
        i32::MIN <= panel_row(y as int, scroll as int, scale as int) <= i32::MAX,
    ensures
        r == panel_row(y as int, scroll as int, scale as int),
{
    assert((BAR_H + PANEL_HEADER) * scale <= i32::MAX) by (nonlinear_arith)
        requires
            scale <= MAX_SCALE,
            scale >= 0,
    ;
    let list_top = dp(BAR_H + PANEL_HEADER, scale);
    let rel = y - list_top - dp(4, scale);
    if rel < 0 {
        return -1;
    }
    let row = rel / dp(PANEL_ROW_H, scale);
    scroll + row
}

/// The row under height `y` in a list pop-up.
pub open spec fn popup_row(y: int, scroll: int, scale: int) -> int {
    row_at(
        y,
        scaled(POPUP_HEADER as int, scale) + scaled(POPUP_PAD as int, scale),
        scaled(POPUP_ROW_H as int, scale),
        scroll,
    )
}

/// The row under height `y` in a list pop-up.
pub fn popup_hit(y: i32, scroll: i32, scale: i32) -> (r: i32)
    requires
        3 <= scale <= MAX_SCALE,
        y >= i32::MIN + scaled(POPUP_HEADER as int, scale as int) + scaled(POPUP_PAD as int, scale as int),
        i32::MIN <= popup_row(y as int, scroll as int, scale as int) <= i32::MAX,
    ensures
        r == popup_row(y as int, scroll as int, scale as int),
{
    let list_top = dp(POPUP_HEADER, scale);
    let rel = y - list_top - dp(POPUP_PAD, scale);
    if rel < 0 {
        return -1;
    }
    let row = rel / dp(POPUP_ROW_H, scale);
    scroll + row
}

/// `s` cut to `max` characters, with an ellipsis when something was cut.
pub open spec fn truncated(s: Seq<char>, max: nat) -> Seq<char> {
    if s.len() <= max {
        s
    } else {
        s.take(max as int).push('…')
    }
}

/// A long title cut to `max` characters, with an ellipsis.
pub fn truncate(s: &str, max: usize) -> (r: String)
    ensures
        r@ == truncated(s@, max as nat),
{
    let chars = chars_of(s);
    if chars.len() <= max {
        s.to_string()
    } else {
        let mut t = subvec(&chars, 0, max);
        t.push('…');
        assert(t@ =~= s@.take(max as int).push('…'));
        string_of(&t)
    }
}

/// Device-pixel width of text at a logical font size: half the size for
/// ASCII characters, the full size for others.
pub open spec fn width_of(s: Seq<char>, px: int) -> int
    decreases s.len(),
{
    if s.len() == 0 {
        0
    } else {
        width_of(s.drop_last(), px) + if (s.last() as u32) < 128 {
            trunc_div(px, 2)
        } else {
            px
        }
    }
}

proof fn lemma_width_bound(s: Seq<char>, px: int)
    ensures
        -(s.len() * (if px < 0 { -px } else { px })) <= width_of(s, px) <= s.len() * (if px < 0 { -px } else { px }),
    decreases s.len(),
{
    if s.len() > 0 {
        lemma_width_bound(s.drop_last(), px);
        let a = if px < 0 { -px } else { px };
        assert((s.len() - 1) * a + a == s.len() * a) by (nonlinear_arith);
    }
}

/// Estimated device-pixel width of text.
pub fn text_width(s: &str, size_logical: i32, scale: i32) -> (w: i32)
    requires
        i32::MIN <= size_logical * scale <= i32::MAX,
        s@.len() * (if scaled(size_logical as int, scale as int) < 0 {
            -scaled(size_logical as int, scale as int)
        } else {
            scaled(size_logical as int, scale as int)
        }) <= i32::MAX,
    ensures
        w == width_of(s@, scaled(size_logical as int, scale as int)),
{
    let px = dp(size_logical, scale);
    let half = if px >= 0 {
        px / 2
    } else {
        -((-px) / 2)
    };
    let chars = chars_of(s);
    let ghost a: int = if px < 0 { -(px as int) } else { px as int };
    let mut w: i32 = 0;
    let mut k: usize = 0;
    while k < chars.len()
        invariant
            k <= chars.len(),
            chars@ == s@,
            px == scaled(size_logical as int, scale as int),
            half == trunc_div(px as int, 2),
            a == (if px < 0 { -(px as int) } else { px as int }),
            s@.len() * a <= i32::MAX,
            w == width_of(s@.take(k as int), px as int),
        decreases chars.len() - k,
    {
        assert(s@.take(k + 1).drop_last() =~= s@.take(k as int));
        proof {
            lemma_width_bound(s@.take(k + 1), px as int);
            assert((k + 1) * a <= s@.len() * a) by (nonlinear_arith)
                requires
                    k + 1 <= s@.len(),
                    a >= 0,
            ;
        }
        let c = chars[k];
        if (c as u32) < 128 {
            w = w + half;
        } else {
            w = w + px;
        }
        k += 1;
    }
    assert(s@.take(k as int) =~= s@);
    w
}

/// The red, green and blue parts of a COLORREF.
pub open spec fn red_of(c: u32) -> int {
    (c % 256) as int
}

pub open spec fn green_of(c: u32) -> int {
    ((c / 256) % 256) as int
}

pub open spec fn blue_of(c: u32) -> int {
    ((c / 65536) % 256) as int
}

/// A COLORREF (0x00BBGGRR) as an opaque GDI+ colour (0xAARRGGBB).
pub fn argb(colorref: u32) -> (c: u32)
    ensures
        c == 0xFF00_0000 + red_of(colorref) * 65536 + green_of(colorref) * 256 + blue_of(colorref),
{
    let r = colorref & 0xFF;
    let g = (colorref >> 8) & 0xFF;
    let b = (colorref >> 16) & 0xFF;
    let c = 0xFF00_0000 | (r << 16) | (g << 8) | b;
    assert(c == 0xFF00_0000u32 + (colorref % 256) * 65536 + ((colorref / 256) % 256) * 256 + ((colorref / 65536) % 256)) by (bit_vector)
        requires
            r == colorref & 0xFF,
            g == (colorref >> 8) & 0xFF,
            b == (colorref >> 16) & 0xFF,
            c == 0xFF00_0000 | (r << 16) | (g << 8) | b,
    ;
    c
}

pub open spec fn is_hex(c: char) -> bool {
    ('0' <= c && c <= '9') || ('a' <= c && c <= 'f') || ('A' <= c && c <= 'F')
}

pub open spec fn hex_value(c: char) -> int {
    if '0' <= c && c <= '9' {
        c as int - 48
    } else if 'a' <= c && c <= 'f' {
        c as int - 87
    } else {
        c as int - 55
    }
}

/// What `u8::from_str_radix(pair, 16)` gives for two characters: an
/// optional `+` and then hex digits.
pub open spec fn hex_pair(a: char, b: char) -> Option<u8> {
    if a == '+' {
        if is_hex(b) {
            Some(hex_value(b) as u8)
        } else {
            None
        }
    } else if is_hex(a) && is_hex(b) {
        Some((hex_value(a) * 16 + hex_value(b)) as u8)
    } else {
        None
    }
}

pub open spec fn hash_pred() -> spec_fn(char) -> bool {
    |c: char| c == '#'
}

/// The COLORREF a colour text names: `#RRGGBB` (any number of leading
/// `#`); the status green for anything else.
pub open spec fn color_of(s: Seq<char>) -> int {
    let t = crate::text::strip_start(s, hash_pred());
    if t.len() == 6 && hex_pair(t[0], t[1]) is Some && hex_pair(t[2], t[3]) is Some && hex_pair(
        t[4],
        t[5],
    ) is Some {
        colorref(
            hex_pair(t[0], t[1]).unwrap(),
            hex_pair(t[2], t[3]).unwrap(),
            hex_pair(t[4], t[5]).unwrap(),
        )
    } else {
        colorref(40, 167, 69)
    }
}

fn hex_digit(c: char) -> (r: Option<u8>)
    ensures
        is_hex(c) ==> r == Some(hex_value(c) as u8),
        !is_hex(c) ==> r is None,
{
    if '0' <= c && c <= '9' {
        Some(((c as u32) - 48) as u8)
    } else if 'a' <= c && c <= 'f' {
        Some(((c as u32) - 87) as u8)
    } else if 'A' <= c && c <= 'F' {
        Some(((c as u32) - 55) as u8)
    } else {
        None
    }
}

fn parse_pair(a: char, b: char) -> (r: Option<u8>)
    ensures
        r == hex_pair(a, b),
{
    if a == '+' {
        return hex_digit(b);
    }
    match (hex_digit(a), hex_digit(b)) {
        (Some(x), Some(y)) => Some(x * 16 + y),
        _ => None,
    }
}

/// The COLORREF a colour text names (the flash colours such as `#34C759`).
pub fn parse_color(s: &str) -> (c: u32)
    ensures
        c == color_of(s@),
{
    let chars = chars_of(s);
    let mut i: usize = 0;
    assert(chars@.skip(0) =~= s@);
    while i < chars.len() && chars[i] == '#'
        invariant
            i <= chars.len(),
            chars@ == s@,
            crate::text::strip_start(s@, hash_pred()) == crate::text::strip_start(
                s@.skip(i as int),
                hash_pred(),
            ),
        decreases chars.len() - i,
    {
        assert(s@.skip(i as int).drop_first() =~= s@.skip(i + 1));
        i += 1;
    }
    let t = subvec(&chars, i, chars.len());
    assert(t@ =~= s@.skip(i as int));
    assert(crate::text::strip_start(t@, hash_pred()) == t@);
    if t.len() == 6 {
        match (parse_pair(t[0], t[1]), parse_pair(t[2], t[3]), parse_pair(t[4], t[5])) {
            (Some(r), Some(g), Some(b)) => {
                return rgb(r, g, b);
            },
            _ => {},
        }
    }
    rgb(40, 167, 69)
}

/// The colours of the toolbar window, as COLORREFs.
#[derive(Debug, Clone, Copy)]
pub struct WindowTheme {
    pub bg_top: u32,
    pub bg_bottom: u32,
    pub border: u32,
    pub text: u32,
    pub text_sub: u32,
    pub input_bg: u32,
    pub btn_top: u32,
    pub btn_bottom: u32,
    pub btn_hover_top: u32,
    pub btn_hover_bottom: u32,
    pub ok: u32,
    pub ok_top: u32,
    pub ok_bottom: u32,
    pub warn: u32,
    pub err: u32,
    pub white: u32,
}

impl WindowTheme {
    /// The light toolbar colours.
    pub fn light() -> (t: Self)
        ensures
            t.bg_top == colorref(252, 252, 253),
            t.bg_bottom == colorref(238, 238, 242),
            t.border == colorref(210, 210, 214),
            t.text == colorref(28, 28, 30),
            t.text_sub == colorref(110, 110, 115),
            t.input_bg == colorref(236, 236, 240),
            t.btn_top == colorref(244, 244, 247),
            t.btn_bottom == colorref(228, 228, 233),
            t.btn_hover_top == colorref(236, 236, 240),
            t.btn_hover_bottom == colorref(220, 220, 226),
            t.ok == colorref(40, 167, 69),
            t.ok_top == colorref(52, 199, 89),
            t.ok_bottom == colorref(40, 175, 72),
            t.warn == colorref(255, 149, 0),
            t.err == colorref(255, 59, 48),
            t.white == colorref(255, 255, 255),
    {
        WindowTheme {
            bg_top: rgb(252, 252, 253),
            bg_bottom: rgb(238, 238, 242),
            border: rgb(210, 210, 214),
            text: rgb(28, 28, 30),
            text_sub: rgb(110, 110, 115),
            input_bg: rgb(236, 236, 240),
            btn_top: rgb(244, 244, 247),
            btn_bottom: rgb(228, 228, 233),
            btn_hover_top: rgb(236, 236, 240),
            btn_hover_bottom: rgb(220, 220, 226),
            ok: rgb(40, 167, 69),
            ok_top: rgb(52, 199, 89),
            ok_bottom: rgb(40, 175, 72),
            warn: rgb(255, 149, 0),
            err: rgb(255, 59, 48),
            white: rgb(255, 255, 255),
        }
    }

    /// The dark toolbar colours.
    pub fn dark() -> (t: Self)
        ensures
            t.bg_top == colorref(38, 38, 42),
            t.bg_bottom == colorref(22, 22, 24),
            t.border == colorref(58, 58, 60),
            t.text == colorref(245, 245, 247),
            t.text_sub == colorref(142, 142, 147),
            t.input_bg == colorref(54, 54, 58),
            t.btn_top == colorref(56, 56, 60),
            t.btn_bottom == colorref(46, 46, 50),
            t.btn_hover_top == colorref(72, 72, 78),
            t.btn_hover_bottom == colorref(60, 60, 66),
            t.ok == colorref(52, 199, 89),
            t.ok_top == colorref(60, 210, 100),
            t.ok_bottom == colorref(40, 180, 75),
            t.warn == colorref(255, 149, 0),
            t.err == colorref(255, 59, 48),
            t.white == colorref(255, 255, 255),
    {
        WindowTheme {
            bg_top: rgb(38, 38, 42),
            bg_bottom: rgb(22, 22, 24),
            border: rgb(58, 58, 60),
            text: rgb(245, 245, 247),
            text_sub: rgb(142, 142, 147),
            input_bg: rgb(54, 54, 58),
            btn_top: rgb(56, 56, 60),
            btn_bottom: rgb(46, 46, 50),
            btn_hover_top: rgb(72, 72, 78),
            btn_hover_bottom: rgb(60, 60, 66),
            ok: rgb(52, 199, 89),
            ok_top: rgb(60, 210, 100),
            ok_bottom: rgb(40, 180, 75),
            warn: rgb(255, 149, 0),
            err: rgb(255, 59, 48),
            white: rgb(255, 255, 255),
        }
    }

    /// The toolbar colours for the system's theme name ("dark" or not).
    pub fn for_system(system_theme: &str) -> (t: Self)
        ensures
            system_theme@ == "dark"@ ==> t == Self::dark_spec(),
            system_theme@ != "dark"@ ==> t == Self::light_spec(),
    {
        if crate::text::eq_chars(&chars_of(system_theme), &chars_of("dark")) {
            let t = WindowTheme::dark();
            proof { Self::lemma_dark(t); }
            t
        } else {
            let t = WindowTheme::light();
            proof { Self::lemma_light(t); }
            t
        }
    }

    pub open spec fn light_spec() -> Self {
        WindowTheme {
            bg_top: colorref(252, 252, 253) as u32,
            bg_bottom: colorref(238, 238, 242) as u32,
            border: colorref(210, 210, 214) as u32,
            text: colorref(28, 28, 30) as u32,
            text_sub: colorref(110, 110, 115) as u32,
            input_bg: colorref(236, 236, 240) as u32,
            btn_top: colorref(244, 244, 247) as u32,
            btn_bottom: colorref(228, 228, 233) as u32,
            btn_hover_top: colorref(236, 236, 240) as u32,
            btn_hover_bottom: colorref(220, 220, 226) as u32,
            ok: colorref(40, 167, 69) as u32,
            ok_top: colorref(52, 199, 89) as u32,
            ok_bottom: colorref(40, 175, 72) as u32,
            warn: colorref(255, 149, 0) as u32,
            err: colorref(255, 59, 48) as u32,
            white: colorref(255, 255, 255) as u32,
        }
    }

    pub open spec fn dark_spec() -> Self {
        WindowTheme {
            bg_top: colorref(38, 38, 42) as u32,
            bg_bottom: colorref(22, 22, 24) as u32,
            border: colorref(58, 58, 60) as u32,
            text: colorref(245, 245, 247) as u32,
            text_sub: colorref(142, 142, 147) as u32,
            input_bg: colorref(54, 54, 58) as u32,
            btn_top: colorref(56, 56, 60) as u32,
            btn_bottom: colorref(46, 46, 50) as u32,
            btn_hover_top: colorref(72, 72, 78) as u32,
            btn_hover_bottom: colorref(60, 60, 66) as u32,
            ok: colorref(52, 199, 89) as u32,
            ok_top: colorref(60, 210, 100) as u32,
            ok_bottom: colorref(40, 180, 75) as u32,
            warn: colorref(255, 149, 0) as u32,
            err: colorref(255, 59, 48) as u32,
            white: colorref(255, 255, 255) as u32,
        }
    }

    proof fn lemma_light(t: Self)
        requires
            t.bg_top == colorref(252, 252, 253),
            t.bg_bottom == colorref(238, 238, 242),
            t.border == colorref(210, 210, 214),
            t.text == colorref(28, 28, 30),
            t.text_sub == colorref(110, 110, 115),
            t.input_bg == colorref(236, 236, 240),
            t.btn_top == colorref(244, 244, 247),
            t.btn_bottom == colorref(228, 228, 233),
            t.btn_hover_top == colorref(236, 236, 240),
            t.btn_hover_bottom == colorref(220, 220, 226),
            t.ok == colorref(40, 167, 69),
            t.ok_top == colorref(52, 199, 89),
            t.ok_bottom == colorref(40, 175, 72),
            t.warn == colorref(255, 149, 0),
            t.err == colorref(255, 59, 48),
            t.white == colorref(255, 255, 255),
        ensures
            t == Self::light_spec(),
    {
    }

    proof fn lemma_dark(t: Self)
        requires
            t.bg_top == colorref(38, 38, 42),
            t.bg_bottom == colorref(22, 22, 24),
            t.border == colorref(58, 58, 60),
            t.text == colorref(245, 245, 247),
            t.text_sub == colorref(142, 142, 147),
            t.input_bg == colorref(54, 54, 58),
            t.btn_top == colorref(56, 56, 60),
            t.btn_bottom == colorref(46, 46, 50),
            t.btn_hover_top == colorref(72, 72, 78),
            t.btn_hover_bottom == colorref(60, 60, 66),
            t.ok == colorref(52, 199, 89),
            t.ok_top == colorref(60, 210, 100),
            t.ok_bottom == colorref(40, 180, 75),
            t.warn == colorref(255, 149, 0),
            t.err == colorref(255, 59, 48),
            t.white == colorref(255, 255, 255),
        ensures
            t == Self::dark_spec(),
    {
    }
}

/// What the status area of the toolbar shows.
pub struct StatusLines {
    pub line1: String,
    /// Colour of the first line, as a COLORREF.
    pub color: u32,
    pub line2: String,
}

/// The status area: scanning, nothing found, or connected (with the count
/// when there are several phones) above the selected phone's name.
pub open spec fn status_view(discovering: bool, count: nat, name: Seq<char>) -> (
    Seq<char>,
    int,
    Seq<char>,
) {
    if discovering {
        ("● 扫描中"@, colorref(255, 149, 0), seq![])
    } else if count == 0 {
        ("● 未找到"@, colorref(255, 59, 48), seq![])
    } else if count == 1 {
        ("● 已连接"@, colorref(40, 167, 69), name)
    } else {
        ("● 已连接 ("@ + decimal(count) + ")"@, colorref(40, 167, 69), name)
    }
}

/// The status area for a session with `count` phones, the selected one
/// named `current_name`.
pub fn status_lines(discovering: bool, count: usize, current_name: &str) -> (r: StatusLines)
    ensures
        (r.line1@, r.color as int, r.line2@) == status_view(discovering, count as nat, current_name@),
{
    if discovering {
        StatusLines { line1: "● 扫描中".to_string(), color: rgb(255, 149, 0), line2: String::new() }
    } else if count == 0 {
        StatusLines { line1: "● 未找到".to_string(), color: rgb(255, 59, 48), line2: String::new() }
    } else if count == 1 {
        StatusLines {
            line1: "● 已连接".to_string(),
            color: rgb(40, 167, 69),
            line2: current_name.to_string(),
        }
    } else {
        let mut v = chars_of("● 已连接 (");
        crate::text::push_decimal(count as u64, &mut v);
        crate::text::append_all(&mut v, &chars_of(")"));
        StatusLines {
            line1: string_of(&v),
            color: rgb(40, 167, 69),
            line2: current_name.to_string(),
        }
    }
}

} // verus!
