//! What the toolbar window does with the user's input: the tray menu, the
//! settings panel, the drop-down list, the clipboard poll and the status
//! shown. Window messages, painting and timers are the application's; it
//! hands the events here and performs what comes back.

use vstd::prelude::*;
use vstd::string::StringExecFns;
use crate::app::{UiAction, UiActionView};
use crate::config::{HistoryItem, Settings, IDLE_SCAN_INTERVAL};
use crate::logic::session::{display_title, Session};
use crate::logic::title::{parse, parsed};
use crate::text::{chars_of, decimal, eq_chars, push_decimal, string_of, string_views, subvec, trim, trim_chars};
use crate::ui::layout::{
    button_at, color_of, dp, hit_test, panel_hit, panel_row, parse_color, popup_hit, popup_row, row_at,
    scaled, Btn, StatusLines, BAR_H, INPUT_X, MAX_SCALE, PANEL_HEADER, PANEL_ROW_H, POPUP_HEADER,
    POPUP_PAD, POPUP_ROW_H,
};
use crate::ui::theme::{colorref, rgb};

verus! {

/// The message the tray icon posts to the window.
pub const WM_TRAYICON: u32 = 0x8001;

// Tray menu commands.
pub const ID_SHOW: usize = 1001;
pub const ID_RESCAN: usize = 1002;
pub const ID_AUTO_SCAN: usize = 1003;
pub const ID_AUTO_PUSH: usize = 1004;
pub const ID_CLEAR_CLIP: usize = 1005;
pub const ID_AUTOSTART: usize = 1006;
pub const ID_QUIT: usize = 1007;
/// Main hotkey Fn is command `ID_HOTKEY_BASE + n`.
pub const ID_HOTKEY_BASE: usize = 1100;
pub const ID_THEME_AUTO: usize = 1200;
pub const ID_THEME_LIGHT: usize = 1201;
pub const ID_THEME_DARK: usize = 1202;

/// Mouse messages the tray icon reports.
pub const TRAY_LEFT_UP: u32 = 0x0202;
pub const TRAY_RIGHT_UP: u32 = 0x0205;
pub const TRAY_CONTEXT_MENU: u32 = 0x007B;

/// The on/off settings of the menu and the settings panel.
#[derive(Debug, Clone, Copy, PartialEq, Eq, Structural)]
pub enum Switch {
    AutoScan,
    AutoPush,
    ClearClipboard,
    Autostart,
}

/// What a menu entry or settings row asks for.
#[derive(Debug, Clone)]
pub enum MenuAction {
    Nothing,
    ShowOrHide,
    Rescan,
    Flip(Switch),
    Quit,
    /// Make this key the main hotkey.
    SetHotkey(String),
}

pub enum MenuActionView {
    Nothing,
    ShowOrHide,
    Rescan,
    Flip(Switch),
    Quit,
    SetHotkey(Seq<char>),
}

impl View for MenuAction {
    type V = MenuActionView;

    open spec fn view(&self) -> MenuActionView {
        match self {
            MenuAction::Nothing => MenuActionView::Nothing,
            MenuAction::ShowOrHide => MenuActionView::ShowOrHide,
            MenuAction::Rescan => MenuActionView::Rescan,
            MenuAction::Flip(s) => MenuActionView::Flip(*s),
            MenuAction::Quit => MenuActionView::Quit,
            MenuAction::SetHotkey(k) => MenuActionView::SetHotkey(k@),
        }
    }
}

/// The tray menu's commands. The theme entries do nothing yet.
pub open spec fn tray_action(cmd: nat) -> MenuActionView {
    if cmd == ID_SHOW {
        MenuActionView::ShowOrHide
    } else if cmd == ID_RESCAN {
        MenuActionView::Rescan
    } else if cmd == ID_AUTO_SCAN {
        MenuActionView::Flip(Switch::AutoScan)
    } else if cmd == ID_AUTO_PUSH {
        MenuActionView::Flip(Switch::AutoPush)
    } else if cmd == ID_CLEAR_CLIP {
        MenuActionView::Flip(Switch::ClearClipboard)
    } else if cmd == ID_AUTOSTART {
        MenuActionView::Flip(Switch::Autostart)
    } else if cmd == ID_QUIT {
        MenuActionView::Quit
    } else if ID_HOTKEY_BASE <= cmd < ID_HOTKEY_BASE + 13 {
        MenuActionView::SetHotkey("F"@ + decimal((cmd - ID_HOTKEY_BASE) as nat))
    } else {
        MenuActionView::Nothing
    }
}

/// What a tray menu command asks for.
pub fn tray_command(cmd: usize) -> (a: MenuAction)
    ensures
        a@ == tray_action(cmd as nat),
{
    if cmd == ID_SHOW {
        MenuAction::ShowOrHide
    } else if cmd == ID_RESCAN {
        MenuAction::Rescan
    } else if cmd == ID_AUTO_SCAN {
        MenuAction::Flip(Switch::AutoScan)
    } else if cmd == ID_AUTO_PUSH {
        MenuAction::Flip(Switch::AutoPush)
    } else if cmd == ID_CLEAR_CLIP {
        MenuAction::Flip(Switch::ClearClipboard)
    } else if cmd == ID_AUTOSTART {
        MenuAction::Flip(Switch::Autostart)
    } else if cmd == ID_QUIT {
        MenuAction::Quit
    } else if ID_HOTKEY_BASE <= cmd && cmd < ID_HOTKEY_BASE + 13 {
        let mut v = chars_of("F");
        push_decimal((cmd - ID_HOTKEY_BASE) as u64, &mut v);
        MenuAction::SetHotkey(string_of(&v))
    } else {
        MenuAction::Nothing
    }
}

/// The rows of the settings panel, top to bottom.
pub open spec fn settings_row_action(row: int) -> MenuActionView {
    if row == 0 {
        MenuActionView::Flip(Switch::AutoScan)
    } else if row == 1 {
        MenuActionView::Flip(Switch::AutoPush)
    } else if row == 2 {
        MenuActionView::Flip(Switch::ClearClipboard)
    } else if row == 3 {
        MenuActionView::Flip(Switch::Autostart)
    } else if row == 4 {
        MenuActionView::Rescan
    } else if row == 5 {
        MenuActionView::Quit
    } else {
        MenuActionView::Nothing
    }
}

/// What a click on a settings row asks for.
pub fn settings_row(row: i32) -> (a: MenuAction)
    ensures
        a@ == settings_row_action(row as int),
{
    if row == 0 {
        MenuAction::Flip(Switch::AutoScan)
    } else if row == 1 {
        MenuAction::Flip(Switch::AutoPush)
    } else if row == 2 {
        MenuAction::Flip(Switch::ClearClipboard)
    } else if row == 3 {
        MenuAction::Flip(Switch::Autostart)
    } else if row == 4 {
        MenuAction::Rescan
    } else if row == 5 {
        MenuAction::Quit
    } else {
        MenuAction::Nothing
    }
}

/// Whether a switch is on.
pub open spec fn switch_on(s: Settings, w: Switch) -> bool {
    match w {
        Switch::AutoScan => s.auto_scan,
        Switch::AutoPush => s.auto_push,
        Switch::ClearClipboard => s.clear_clipboard,
        Switch::Autostart => s.autostart,
    }
}

/// Flips one switch; every other setting stays.
pub fn flip(settings: &mut Settings, w: Switch)
    ensures
        switch_on(*final(settings), w) == !switch_on(*old(settings), w),
        forall|o: Switch| o != w ==> switch_on(*final(settings), o) == switch_on(*old(settings), o),
        final(settings).hotkey == old(settings).hotkey,
        final(settings).hotkey_enabled == old(settings).hotkey_enabled,
        final(settings).mapping_enabled == old(settings).mapping_enabled,
        final(settings).show_name_btn == old(settings).show_name_btn,
        final(settings).clipboard_materialize == old(settings).clipboard_materialize,
        final(settings).scale_multiplier_bits == old(settings).scale_multiplier_bits,
        final(settings).known_ips == old(settings).known_ips,
{
    match w {
        Switch::AutoScan => settings.auto_scan = !settings.auto_scan,
        Switch::AutoPush => settings.auto_push = !settings.auto_push,
        Switch::ClearClipboard => settings.clear_clipboard = !settings.clear_clipboard,
        Switch::Autostart => settings.autostart = !settings.autostart,
    }
}

/// What a mouse message on the tray icon asks for.
pub enum TrayClick {
    Nothing,
    ShowMenu,
    ShowOrHide,
}

/// Right click (or the context-menu key) opens the menu; left click shows
/// or hides the window.
pub fn tray_click(msg: u32) -> (c: TrayClick)
    ensures
        (msg == TRAY_RIGHT_UP || msg == TRAY_CONTEXT_MENU) ==> c is ShowMenu,
        msg == TRAY_LEFT_UP ==> c is ShowOrHide,
        !(msg == TRAY_RIGHT_UP || msg == TRAY_CONTEXT_MENU || msg == TRAY_LEFT_UP) ==> c is Nothing,
{
    if msg == TRAY_RIGHT_UP || msg == TRAY_CONTEXT_MENU {
        TrayClick::ShowMenu
    } else if msg == TRAY_LEFT_UP {
        TrayClick::ShowOrHide
    } else {
        TrayClick::Nothing
    }
}

/// What the drop-down panel under the toolbar shows.
#[derive(Debug, Clone, Copy, PartialEq, Eq, Structural)]
pub enum Panel {
    Closed,
    History,
    Settings,
    /// The texts of a mapping hotkey, to choose one.
    Mapping,
}

/// The panel after asking for `p` while `cur` shows: the same panel again
/// closes it, another one switches to it.
pub open spec fn toggled_panel(cur: Panel, p: Panel) -> Panel {
    if cur == p {
        Panel::Closed
    } else {
        p
    }
}

/// Asking for the same panel twice undoes the first request: a panel that
/// was open on `p` ends open on `p`, any other state ends closed.
pub proof fn lemma_toggle_twice(cur: Panel, p: Panel)
    requires
        p != Panel::Closed,
    ensures
        toggled_panel(toggled_panel(cur, p), p) == if cur == p {
            p
        } else {
            Panel::Closed
        },
{
}

/// One row of the drop-down list: its title, the text it stands for, and
/// a time (empty when there is none).
#[derive(Debug, Clone)]
pub struct Row {
    pub title: String,
    pub text: String,
    pub time: String,
}

pub open spec fn row_view(r: Row) -> (Seq<char>, Seq<char>, Seq<char>) {
    (r.title@, r.text@, r.time@)
}

pub open spec fn rows_view(s: Seq<Row>) -> Seq<(Seq<char>, Seq<char>, Seq<char>)> {
    s.map_values(|r: Row| row_view(r))
}

fn copy_row(r: &Row) -> (c: Row)
    ensures
        row_view(c) == row_view(*r),
{
    Row { title: r.title.clone(), text: r.text.clone(), time: r.time.clone() }
}

fn copy_rows(v: &Vec<Row>) -> (c: Vec<Row>)
    ensures
        rows_view(c@) == rows_view(v@),
{
    let mut c: Vec<Row> = Vec::new();
    let mut k: usize = 0;
    while k < v.len()
        invariant
            k <= v.len(),
            rows_view(c@) == rows_view(v@).take(k as int),
        decreases v.len() - k,
    {
        let r = copy_row(&v[k]);
        assert(rows_view(c@.push(r)) =~= rows_view(c@).push(row_view(r)));
        c.push(r);
        k += 1;
        assert(rows_view(c@) =~= rows_view(v@).take(k as int));
    }
    assert(rows_view(v@).take(k as int) =~= rows_view(v@));
    c
}

/// A history entry as a row: its title, what a double click fills in (the
/// title found in its text, else the text) and its time.
pub open spec fn history_row(it: HistoryItem) -> (Seq<char>, Seq<char>, Seq<char>) {
    (
        it.title@,
        match parsed(it.text@) {
            Some(p) => display_title(p.0, p.1),
            None => it.text@,
        },
        it.time@,
    )
}

/// The history as rows, most recent first.
pub fn history_rows(session: &Session) -> (r: Vec<Row>)
    ensures
        rows_view(r@) == session.history@.map_values(|it: HistoryItem| history_row(it)),
{
    let ghost want = session.history@.map_values(|it: HistoryItem| history_row(it));
    let mut r: Vec<Row> = Vec::new();
    let mut k: usize = 0;
    while k < session.history.len()
        invariant
            k <= session.history.len(),
            want == session.history@.map_values(|it: HistoryItem| history_row(it)),
            rows_view(r@) == want.take(k as int),
        decreases session.history.len() - k,
    {
        let it = &session.history[k];
        let row = Row {
            title: it.title.clone(),
            text: session.display_for_history(it.text.as_str()),
            time: it.time.clone(),
        };
        assert(rows_view(r@.push(row)) =~= rows_view(r@).push(row_view(row)));
        r.push(row);
        k += 1;
        assert(rows_view(r@) =~= want.take(k as int));
    }
    assert(want.take(k as int) =~= want);
    r
}

/// How a mapping text is listed: by the title found in it, else by its
/// first 20 characters.
pub open spec fn choice_title(text: Seq<char>) -> Seq<char> {
    match parsed(text) {
        Some(p) => p.0,
        None => if text.len() <= 20 {
            text
        } else {
            text.take(20)
        },
    }
}

pub open spec fn choice_row(text: Seq<char>) -> (Seq<char>, Seq<char>, Seq<char>) {
    (choice_title(text), text, seq![])
}

/// The texts of a mapping hotkey as rows to choose from.
pub fn choice_rows(items: &Vec<String>) -> (r: Vec<Row>)
    ensures
        rows_view(r@) == string_views(items@).map_values(|t: Seq<char>| choice_row(t)),
{
    let ghost want = string_views(items@).map_values(|t: Seq<char>| choice_row(t));
    let mut r: Vec<Row> = Vec::new();
    let mut k: usize = 0;
    while k < items.len()
        invariant
            k <= items.len(),
            want == string_views(items@).map_values(|t: Seq<char>| choice_row(t)),
            rows_view(r@) == want.take(k as int),
        decreases items.len() - k,
    {
        let it = &items[k];
        let title = match parse(it.as_str()) {
            Some(p) => p.title,
            None => {
                let cs = chars_of(it.as_str());
                if cs.len() <= 20 {
                    it.clone()
                } else {
                    string_of(&subvec(&cs, 0, 20))
                }
            },
        };
        let row = Row { title, text: it.clone(), time: String::new() };
        assert(rows_view(r@.push(row)) =~= rows_view(r@).push(row_view(row)));
        r.push(row);
        k += 1;
        assert(rows_view(r@) =~= want.take(k as int));
    }
    assert(want.take(k as int) =~= want);
    r
}

/// How long a flash message replaces the status, in milliseconds.
pub const FLASH_MS: u64 = 1500;

/// The placeholder of the empty input box.
pub const INPUT_PLACEHOLDER: &'static str = "等待剪贴板...";

/// The toolbar's state between window messages. Times are milliseconds on
/// a monotonic clock kept by the application.
pub struct Toolbar {
    /// The text in the input box.
    pub input: String,
    pub flash_text: String,
    /// Colour of the flash message, as a COLORREF.
    pub flash_color: u32,
    /// When the flash message appeared.
    pub flash_at: Option<u64>,
    /// The clipboard text last taken.
    pub last_clipboard: String,
    /// When the idle scan was last considered.
    pub last_idle_check: u64,
    /// The button under the mouse.
    pub hover: Option<Btn>,
    pub panel: Panel,
    /// The texts offered by the last mapping hotkey.
    pub choices: Vec<Row>,
    /// The rows the panel lists.
    pub rows: Vec<Row>,
    /// The listed row under the mouse, -1 for none.
    pub hover_row: i32,
    /// Rows scrolled away.
    pub scroll: i32,
}

/// What a click on the toolbar window asks for.
pub enum Click {
    /// A row of the settings panel.
    Settings(MenuAction),
    /// Elsewhere in the open panel: nothing.
    InPanel,
    Button(Btn),
    /// The status area: scan again.
    StatusArea,
    /// The input box: nothing.
    Elsewhere,
}

/// A row index when it names a row of a list of `len`, else -1.
pub open spec fn row_or_none(i: int, len: nat) -> int {
    if 0 <= i < len {
        i
    } else {
        -1
    }
}

/// The messages shown are the same in `a` and `b`.
pub open spec fn same_messages(a: Toolbar, b: Toolbar) -> bool {
    &&& a.input == b.input
    &&& a.flash_text == b.flash_text
    &&& a.flash_color == b.flash_color
    &&& a.flash_at == b.flash_at
}

/// The clipboard and idle-scan bookkeeping is the same in `a` and `b`.
pub open spec fn same_polls(a: Toolbar, b: Toolbar) -> bool {
    &&& a.last_clipboard == b.last_clipboard
    &&& a.last_idle_check == b.last_idle_check
}

/// The panel and its list are the same in `a` and `b`.
pub open spec fn same_list(a: Toolbar, b: Toolbar) -> bool {
    &&& a.panel == b.panel
    &&& a.choices == b.choices
    &&& a.rows == b.rows
    &&& a.hover_row == b.hover_row
    &&& a.scroll == b.scroll
}

/// With 16-bit mouse coordinates and a bounded scroll, a list row index
/// stays small.
proof fn lemma_row_small(y: int, top: int, row_h: int, scroll: int)
    requires
        -32768 <= y <= 32767,
        0 <= top,
        1 <= row_h,
        0 <= scroll <= 1_000_000,
    ensures
        -1 <= row_at(y, top, row_h, scroll) <= scroll + 32767,
{
    if y - top >= 0 {
        assert((y - top) / row_h <= y - top) by (nonlinear_arith)
            requires
                y - top >= 0,
                row_h >= 1,
        ;
        assert((y - top) / row_h >= 0) by (nonlinear_arith)
            requires
                y - top >= 0,
                row_h >= 1,
        ;
    }
}

proof fn lemma_scaled_bounds(v: int, scale: int)
    requires
        0 <= v <= 1000,
        3 <= scale <= MAX_SCALE,
    ensures
        0 <= scaled(v, scale) <= v * scale,
        v >= 34 ==> scaled(v, scale) >= 1,
{
    assert(v * scale >= 0) by (nonlinear_arith)
        requires
            v >= 0,
            scale >= 0,
    ;
    assert(v * scale / 100 <= v * scale) by (nonlinear_arith)
        requires
            v * scale >= 0,
    ;
    if v >= 34 {
        assert(v * scale >= 102) by (nonlinear_arith)
            requires
                v >= 34,
                scale >= 3,
        ;
    }
}

proof fn lemma_panel_row_small(y: int, scroll: int, scale: int)
    requires
        -32768 <= y <= 32767,
        0 <= scroll <= 1_000_000,
        3 <= scale <= MAX_SCALE,
    ensures
        -1 <= panel_row(y, scroll, scale) <= scroll + 32767,
        y >= i32::MIN + scaled((BAR_H + PANEL_HEADER) as int, scale) + scaled(4, scale),
{
    lemma_scaled_bounds((BAR_H + PANEL_HEADER) as int, scale);
    lemma_scaled_bounds(4, scale);
    lemma_scaled_bounds(PANEL_ROW_H as int, scale);
    assert(76 * scale <= 76_000_000) by (nonlinear_arith)
        requires
            scale <= MAX_SCALE,
    ;
    assert(4 * scale <= 4_000_000) by (nonlinear_arith)
        requires
            scale <= MAX_SCALE,
    ;
    lemma_row_small(
        y,
        scaled((BAR_H + PANEL_HEADER) as int, scale) + scaled(4, scale),
        scaled(PANEL_ROW_H as int, scale),
        scroll,
    );
}

proof fn lemma_popup_row_small(y: int, scroll: int, scale: int)
    requires
        -32768 <= y <= 32767,
        0 <= scroll <= 1_000_000,
        3 <= scale <= MAX_SCALE,
    ensures
        -1 <= popup_row(y, scroll, scale) <= scroll + 32767,
        y >= i32::MIN + scaled(POPUP_HEADER as int, scale) + scaled(
            POPUP_PAD as int,
            scale,
        ),
{
    lemma_scaled_bounds(POPUP_HEADER as int, scale);
    lemma_scaled_bounds(POPUP_PAD as int, scale);
    lemma_scaled_bounds(POPUP_ROW_H as int, scale);
    assert(34 * scale <= 34_000_000) by (nonlinear_arith)
        requires
            scale <= MAX_SCALE,
    ;
    assert(8 * scale <= 8_000_000) by (nonlinear_arith)
        requires
            scale <= MAX_SCALE,
    ;
    lemma_row_small(
        y,
        scaled(POPUP_HEADER as int, scale) + scaled(
            POPUP_PAD as int,
            scale,
        ),
        scaled(POPUP_ROW_H as int, scale),
        scroll,
    );
}

fn same_btn(a: Option<Btn>, b: Option<Btn>) -> (r: bool)
    ensures
        r == (a == b),
{
    match (a, b) {
        (None, None) => true,
        (Some(x), Some(y)) => x == y,
        _ => false,
    }
}

impl Toolbar {
    /// The toolbar as it opens, at time `now`.
    pub fn new(now: u64) -> (t: Self)
        ensures
            t.input@ == Seq::<char>::empty(),
            t.flash_text@ == Seq::<char>::empty(),
            t.flash_color == colorref(40, 167, 69),
            t.flash_at is None,
            t.last_clipboard@ == Seq::<char>::empty(),
            t.last_idle_check == now,
            t.hover is None,
            t.panel == Panel::Closed,
            t.choices@.len() == 0,
            t.rows@.len() == 0,
            t.hover_row == -1,
            t.scroll == 0,
    {
        Toolbar {
            input: String::new(),
            flash_text: String::new(),
            flash_color: rgb(40, 167, 69),
            flash_at: None,
            last_clipboard: String::new(),
            last_idle_check: now,
            hover: None,
            panel: Panel::Closed,
            choices: Vec::new(),
            rows: Vec::new(),
            hover_row: -1,
            scroll: 0,
        }
    }

    /// Opens the panel on `p`, or closes it when it already shows `p`.
    /// Opening resets the hover and the scroll and lists the history (for
    /// `History`) or the mapping texts (for `Mapping`); the settings panel
    /// leaves the list as it was.
    pub fn toggle_panel(&mut self, p: Panel, session: &Session)
        requires
            p != Panel::Closed,
        ensures
            final(self).panel == toggled_panel(old(self).panel, p),
            old(self).panel == p ==> ({
                &&& final(self).panel == Panel::Closed
                &&& final(self).rows == old(self).rows
                &&& final(self).hover_row == old(self).hover_row
                &&& final(self).scroll == old(self).scroll
            }),
            old(self).panel != p ==> ({
                &&& final(self).panel == p
                &&& final(self).hover_row == -1
                &&& final(self).scroll == 0
                &&& rows_view(final(self).rows@) == if p == Panel::History {
                    session.history@.map_values(|it: HistoryItem| history_row(it))
                } else if p == Panel::Mapping {
                    rows_view(old(self).choices@)
                } else {
                    rows_view(old(self).rows@)
                }
            }),
            final(self).input == old(self).input,
            final(self).flash_text == old(self).flash_text,
            final(self).flash_color == old(self).flash_color,
            final(self).flash_at == old(self).flash_at,
            final(self).last_clipboard == old(self).last_clipboard,
            final(self).last_idle_check == old(self).last_idle_check,
            final(self).hover == old(self).hover,
            final(self).choices == old(self).choices,
    {
        if self.panel == p {
            self.panel = Panel::Closed;
        } else {
            if p == Panel::History {
                self.rows = history_rows(session);
            } else if p == Panel::Mapping {
                self.rows = copy_rows(&self.choices);
            }
            self.hover_row = -1;
            self.scroll = 0;
            self.panel = p;
        }
    }
    /// The mouse moved to (x, y): the hovered button follows it and, over
    /// the open panel, so does the hovered row (-1 where there is none).
    /// Returns whether anything changed.
    pub fn hover_at(&mut self, x: i32, y: i32, scale: i32) -> (changed: bool)
        requires
            3 <= scale <= MAX_SCALE,
            -32768 <= y <= 32767,
            0 <= old(self).scroll <= 1_000_000,
        ensures
            final(self).hover == button_at(x as int, y as int, scale as int),
            final(self).hover_row == if old(self).panel != Panel::Closed && y > scaled(
                BAR_H as int,
                scale as int,
            ) {
                row_or_none(
                    panel_row(y as int, old(self).scroll as int, scale as int),
                    old(self).rows@.len(),
                )
            } else {
                old(self).hover_row as int
            },
            changed == (final(self).hover != old(self).hover || final(self).hover_row
                != old(self).hover_row),
            same_messages(*final(self), *old(self)),
            same_polls(*final(self), *old(self)),
            final(self).panel == old(self).panel,
            final(self).choices == old(self).choices,
            final(self).rows == old(self).rows,
            final(self).scroll == old(self).scroll,
    {
        let mut changed = false;
        let h = hit_test(x, y, scale);
        if !same_btn(h, self.hover) {
            self.hover = h;
            changed = true;
        }
        if self.panel != Panel::Closed && y > dp(BAR_H, scale) {
            proof {
                lemma_panel_row_small(y as int, self.scroll as int, scale as int);
            }
            let idx = panel_hit(y, self.scroll, scale);
            let new_hover = if idx >= 0 && (idx as usize) < self.rows.len() {
                idx
            } else {
                -1
            };
            if new_hover != self.hover_row {
                self.hover_row = new_hover;
                changed = true;
            }
        }
        changed
    }

    /// A click at (x, y). In the open panel only the settings rows do
    /// something; on the toolbar a button, or the status area (which scans
    /// again).
    pub fn click(&self, x: i32, y: i32, scale: i32) -> (c: Click)
        requires
            3 <= scale <= MAX_SCALE,
            -32768 <= y <= 32767,
        ensures
            (self.panel != Panel::Closed && y > scaled(BAR_H as int, scale as int)) ==> if self.panel
                == Panel::Settings {
                c matches Click::Settings(a) && a@ == settings_row_action(
                    panel_row(y as int, 0, scale as int),
                )
            } else {
                c is InPanel
            },
            !(self.panel != Panel::Closed && y > scaled(BAR_H as int, scale as int)) ==> match button_at(
                x as int,
                y as int,
                scale as int,
            ) {
                Some(b) => c matches Click::Button(d) && d == b,
                None => if x < scaled(INPUT_X as int, scale as int) {
                    c is StatusArea
                } else {
                    c is Elsewhere
                },
            },
    {
        if self.panel != Panel::Closed && y > dp(BAR_H, scale) {
            if self.panel == Panel::Settings {
                proof {
                    lemma_panel_row_small(y as int, 0, scale as int);
                }
                return Click::Settings(settings_row(panel_hit(y, 0, scale)));
            }
            return Click::InPanel;
        }
        match hit_test(x, y, scale) {
            Some(b) => Click::Button(b),
            None => if x < dp(INPUT_X, scale) {
                Click::StatusArea
            } else {
                Click::Elsewhere
            },
        }
    }

    /// A double click at height `y`. Over the open panel it takes the row
    /// there, if any, and closes the panel: a mapping text is returned to be
    /// pasted; any other row's text goes into the input box.
    pub fn double_click(&mut self, y: i32, scale: i32, session: &Session) -> (apply: Option<String>)
        requires
            3 <= scale <= MAX_SCALE,
            -32768 <= y <= 32767,
            0 <= old(self).scroll <= 1_000_000,
        ensures
            !(old(self).panel != Panel::Closed && y > scaled(BAR_H as int, scale as int)) ==> (apply is None
                && *final(self) == *old(self)),
            (old(self).panel != Panel::Closed && y > scaled(BAR_H as int, scale as int)) ==> ({
                let i = panel_row(y as int, old(self).scroll as int, scale as int);
                let valid = 0 <= i < old(self).rows@.len();
                &&& final(self).panel == Panel::Closed
                &&& final(self).rows == old(self).rows
                &&& final(self).choices == old(self).choices
                &&& final(self).hover_row == old(self).hover_row
                &&& final(self).scroll == old(self).scroll
                &&& final(self).hover == old(self).hover
                &&& same_polls(*final(self), *old(self))
                &&& final(self).flash_text == old(self).flash_text
                &&& final(self).flash_color == old(self).flash_color
                &&& final(self).flash_at == old(self).flash_at
                &&& (valid && old(self).panel == Panel::Mapping) ==> (apply matches Some(t) && t@
                    == old(self).rows@[i].text@ && final(self).input == old(self).input)
                &&& (valid && old(self).panel != Panel::Mapping) ==> (apply is None
                    && final(self).input@ == old(self).rows@[i].text@)
                &&& !valid ==> (apply is None && final(self).input == old(self).input)
            }),
    {
        if self.panel != Panel::Closed && y > dp(BAR_H, scale) {
            let mode = self.panel;
            proof {
                lemma_panel_row_small(y as int, self.scroll as int, scale as int);
            }
            let idx = panel_hit(y, self.scroll, scale);
            let mut apply: Option<String> = None;
            if idx >= 0 && (idx as usize) < self.rows.len() {
                let text = self.rows[idx as usize].text.clone();
                if mode == Panel::Mapping {
                    apply = Some(text);
                } else {
                    self.input = text;
                }
            }
            self.toggle_panel(mode, session);
            apply
        } else {
            None
        }
    }
    /// The clipboard now holds `raw`: its trimmed text is taken when it is
    /// not empty and differs from the text taken last.
    pub fn clipboard_seen(&mut self, raw: &str) -> (taken: Option<String>)
        ensures
            (trim(raw@).len() > 0 && trim(raw@) != old(self).last_clipboard@) ==> (taken matches Some(
                t,
            ) && t@ == trim(raw@) && final(self).last_clipboard@ == trim(raw@)),
            !(trim(raw@).len() > 0 && trim(raw@) != old(self).last_clipboard@) ==> (taken is None
                && final(self).last_clipboard == old(self).last_clipboard),
            same_messages(*final(self), *old(self)),
            same_list(*final(self), *old(self)),
            final(self).last_idle_check == old(self).last_idle_check,
            final(self).hover == old(self).hover,
    {
        let t = trim_chars(&chars_of(raw));
        if t.len() > 0 && !eq_chars(&t, &chars_of(self.last_clipboard.as_str())) {
            let s = string_of(&t);
            self.last_clipboard = string_of(&t);
            Some(s)
        } else {
            None
        }
    }

    /// Every `IDLE_SCAN_INTERVAL` seconds the toolbar considers scanning:
    /// it does when automatic scanning is on, no phone is known and no scan
    /// is running.
    pub fn idle_scan_due(&mut self, now: u64, auto_scan: bool, devices: usize, discovering: bool) -> (due: bool)
        ensures
            ({
                let elapsed = if now >= old(self).last_idle_check {
                    now - old(self).last_idle_check
                } else {
                    0
                };
                if elapsed >= IDLE_SCAN_INTERVAL * 1000 {
                    final(self).last_idle_check == now && due == (auto_scan && devices == 0
                        && !discovering)
                } else {
                    final(self).last_idle_check == old(self).last_idle_check && !due
                }
            }),
            same_messages(*final(self), *old(self)),
            same_list(*final(self), *old(self)),
            final(self).last_clipboard == old(self).last_clipboard,
            final(self).hover == old(self).hover,
    {
        let elapsed = if now >= self.last_idle_check {
            now - self.last_idle_check
        } else {
            0
        };
        if elapsed >= IDLE_SCAN_INTERVAL * 1000 {
            self.last_idle_check = now;
            auto_scan && devices == 0 && !discovering
        } else {
            false
        }
    }

    /// Shows a message for `FLASH_MS`, in a colour given as `#RRGGBB`.
    pub fn flash(&mut self, text: String, color: &str, now: u64)
        ensures
            final(self).flash_text == text,
            final(self).flash_color == color_of(color@),
            final(self).flash_at == Some(now),
            final(self).input == old(self).input,
            same_polls(*final(self), *old(self)),
            same_list(*final(self), *old(self)),
            final(self).hover == old(self).hover,
    {
        self.flash_text = text;
        self.flash_color = parse_color(color);
        self.flash_at = Some(now);
    }

    /// Carries out what the session asked the user interface to do: a
    /// message, new input text, or the choice among a mapping's texts
    /// (which toggles the mapping panel).
    pub fn apply_action(&mut self, action: UiAction, now: u64, session: &Session)
        ensures
            match action@ {
                UiActionView::Idle => *final(self) == *old(self),
                UiActionView::Flash(t, c) => {
                    &&& final(self).flash_text@ == t
                    &&& final(self).flash_color == color_of(c)
                    &&& final(self).flash_at == Some(now)
                    &&& final(self).input == old(self).input
                    &&& same_polls(*final(self), *old(self))
                    &&& same_list(*final(self), *old(self))
                    &&& final(self).hover == old(self).hover
                },
                UiActionView::SetInput(t) => {
                    &&& final(self).input@ == t
                    &&& final(self).flash_text == old(self).flash_text
                    &&& final(self).flash_color == old(self).flash_color
                    &&& final(self).flash_at == old(self).flash_at
                    &&& same_polls(*final(self), *old(self))
                    &&& same_list(*final(self), *old(self))
                    &&& final(self).hover == old(self).hover
                },
                UiActionView::ShowMappingChooser(_k, items) => {
                    &&& rows_view(final(self).choices@) == items.map_values(
                        |t: Seq<char>| choice_row(t),
                    )
                    &&& old(self).panel == Panel::Mapping ==> (final(self).panel == Panel::Closed
                        && final(self).rows == old(self).rows)
                    &&& old(self).panel != Panel::Mapping ==> (final(self).panel == Panel::Mapping
                        && rows_view(final(self).rows@) == rows_view(final(self).choices@)
                        && final(self).hover_row == -1 && final(self).scroll == 0)
                    &&& same_messages(*final(self), *old(self))
                    &&& same_polls(*final(self), *old(self))
                    &&& final(self).hover == old(self).hover
                },
            },
    {
        match action {
            UiAction::Idle => {},
            UiAction::Flash(text, color) => {
                self.flash(text, color.as_str(), now);
            },
            UiAction::SetInput(text) => {
                self.input = text;
            },
            UiAction::ShowMappingChooser(_key, items) => {
                self.choices = choice_rows(&items);
                self.toggle_panel(Panel::Mapping, session);
            },
        }
    }

    /// A name was generated and copied: it goes into the input box and a
    /// message says so.
    pub fn name_copied(&mut self, name: String, now: u64)
        ensures
            final(self).input == name,
            final(self).flash_text@ == "已复制 "@ + name@,
            final(self).flash_color == colorref(40, 167, 69),
            final(self).flash_at == Some(now),
            same_polls(*final(self), *old(self)),
            same_list(*final(self), *old(self)),
            final(self).hover == old(self).hover,
    {
        let mut t = "已复制 ".to_string();
        t.append(name.as_str());
        self.input = name;
        self.flash_text = t;
        self.flash_color = rgb(40, 167, 69);
        self.flash_at = Some(now);
    }

    /// The text the send button sends: the trimmed input, when not empty.
    pub fn text_to_send(&self) -> (r: Option<String>)
        ensures
            trim(self.input@).len() > 0 ==> (r matches Some(t) && t@ == trim(self.input@)),
            trim(self.input@).len() == 0 ==> r is None,
    {
        let t = trim_chars(&chars_of(self.input.as_str()));
        if t.len() > 0 {
            Some(string_of(&t))
        } else {
            None
        }
    }

    /// The send was handed over (`ok`) or not, as no phone is selected: on
    /// success the input is cleared and "sent" shown, otherwise "not
    /// connected".
    pub fn sent(&mut self, ok: bool, now: u64)
        ensures
            ok ==> (final(self).input@ == Seq::<char>::empty() && final(self).flash_text@ == "已发送"@
                && final(self).flash_color == colorref(40, 167, 69)),
            !ok ==> (final(self).input == old(self).input && final(self).flash_text@ == "未连接"@
                && final(self).flash_color == colorref(255, 59, 48)),
            final(self).flash_at == Some(now),
            same_polls(*final(self), *old(self)),
            same_list(*final(self), *old(self)),
            final(self).hover == old(self).hover,
    {
        if ok {
            self.input = String::new();
            self.flash_text = "已发送".to_string();
            self.flash_color = rgb(40, 167, 69);
        } else {
            self.flash_text = "未连接".to_string();
            self.flash_color = rgb(255, 59, 48);
        }
        self.flash_at = Some(now);
    }

    /// Whether the flash message is still showing at `now`.
    pub open spec fn flashing(&self, now: u64) -> bool {
        match self.flash_at {
            Some(t) => (if now >= t {
                now - t
            } else {
                0
            }) < FLASH_MS,
            None => false,
        }
    }

    /// The status area at `now`: the flash message while it shows, else
    /// the session's status lines.
    pub fn shown_status(&self, status: &StatusLines, now: u64) -> (r: (String, String, u32))
        ensures
            self.flashing(now) ==> (r.0@ == self.flash_text@ && r.1@ == Seq::<char>::empty() && r.2
                == self.flash_color),
            !self.flashing(now) ==> (r.0@ == status.line1@ && r.1@ == status.line2@ && r.2
                == status.color),
    {
        let flashing = match self.flash_at {
            Some(t) => (if now >= t {
                now - t
            } else {
                0
            }) < FLASH_MS,
            None => false,
        };
        if flashing {
            (self.flash_text.clone(), String::new(), self.flash_color)
        } else {
            (status.line1.clone(), status.line2.clone(), status.color)
        }
    }

    /// What the input box shows, and whether it is the placeholder.
    pub fn input_shown(&self) -> (r: (String, bool))
        ensures
            self.input@.len() == 0 ==> (r.0@ == INPUT_PLACEHOLDER@ && r.1),
            self.input@.len() > 0 ==> (r.0@ == self.input@ && !r.1),
    {
        if self.input.as_str().is_empty() {
            (INPUT_PLACEHOLDER.to_string(), true)
        } else {
            (self.input.clone(), false)
        }
    }

    /// Lists the raw history for the pop-up window: title, full text, time.
    pub fn open_popup(&mut self, session: &Session)
        ensures
            rows_view(final(self).rows@) == session.history@.map_values(
                |it: HistoryItem| (it.title@, it.text@, it.time@),
            ),
            final(self).hover_row == -1,
            final(self).scroll == 0,
            final(self).panel == old(self).panel,
            final(self).choices == old(self).choices,
            same_messages(*final(self), *old(self)),
            same_polls(*final(self), *old(self)),
            final(self).hover == old(self).hover,
    {
        let ghost want = session.history@.map_values(
            |it: HistoryItem| (it.title@, it.text@, it.time@),
        );
        let mut r: Vec<Row> = Vec::new();
        let mut k: usize = 0;
        while k < session.history.len()
            invariant
                k <= session.history.len(),
                want == session.history@.map_values(
                    |it: HistoryItem| (it.title@, it.text@, it.time@),
                ),
                rows_view(r@) == want.take(k as int),
            decreases session.history.len() - k,
        {
            let it = &session.history[k];
            let row = Row { title: it.title.clone(), text: it.text.clone(), time: it.time.clone() };
            assert(rows_view(r@.push(row)) =~= rows_view(r@).push(row_view(row)));
            r.push(row);
            k += 1;
            assert(rows_view(r@) =~= want.take(k as int));
        }
        assert(want.take(k as int) =~= want);
        self.rows = r;
        self.hover_row = -1;
        self.scroll = 0;
    }

    /// The mouse moved to height `y` in the pop-up: the hovered row follows
    /// it (-1 where there is none). Returns whether it changed.
    pub fn popup_hover_at(&mut self, y: i32, scale: i32) -> (changed: bool)
        requires
            3 <= scale <= MAX_SCALE,
            -32768 <= y <= 32767,
            0 <= old(self).scroll <= 1_000_000,
        ensures
            final(self).hover_row == row_or_none(
                popup_row(y as int, old(self).scroll as int, scale as int),
                old(self).rows@.len(),
            ),
            changed == (final(self).hover_row != old(self).hover_row),
            same_messages(*final(self), *old(self)),
            same_polls(*final(self), *old(self)),
            final(self).panel == old(self).panel,
            final(self).choices == old(self).choices,
            final(self).rows == old(self).rows,
            final(self).scroll == old(self).scroll,
            final(self).hover == old(self).hover,
    {
        proof {
            lemma_popup_row_small(y as int, self.scroll as int, scale as int);
        }
        let idx = popup_hit(y, self.scroll, scale);
        let new_hover = if idx >= 0 && (idx as usize) < self.rows.len() {
            idx
        } else {
            -1
        };
        let changed = new_hover != self.hover_row;
        self.hover_row = new_hover;
        changed
    }

    /// A double click in the pop-up: the hovered row's text goes into the
    /// input box.
    pub fn popup_choose(&mut self)
        ensures
            (0 <= old(self).hover_row < old(self).rows@.len()) ==> final(self).input@ == old(
                self,
            ).rows@[old(self).hover_row as int].text@,
            !(0 <= old(self).hover_row < old(self).rows@.len()) ==> final(self).input == old(self).input,
            final(self).flash_text == old(self).flash_text,
            final(self).flash_color == old(self).flash_color,
            final(self).flash_at == old(self).flash_at,
            same_polls(*final(self), *old(self)),
            same_list(*final(self), *old(self)),
            final(self).hover == old(self).hover,
    {
        let idx = self.hover_row;
        if idx >= 0 && (idx as usize) < self.rows.len() {
            self.input = self.rows[idx as usize].text.clone();
        }
    }

    /// The wheel turned in the pop-up: up scrolls back a row (not past the
    /// top), down scrolls on a row while more than five rows are below.
    pub fn wheel(&mut self, delta: i32)
        requires
            0 <= old(self).scroll < i32::MAX,
        ensures
            final(self).scroll == if delta > 0 {
                if old(self).scroll - 1 > 0 {
                    old(self).scroll - 1
                } else {
                    0
                }
            } else {
                let most = if old(self).rows@.len() > 5 {
                    old(self).rows@.len() - 5
                } else {
                    0
                };
                if old(self).scroll + 1 < most {
                    old(self).scroll + 1
                } else {
                    most
                }
            },
            same_messages(*final(self), *old(self)),
            same_polls(*final(self), *old(self)),
            final(self).panel == old(self).panel,
            final(self).choices == old(self).choices,
            final(self).rows == old(self).rows,
            final(self).hover_row == old(self).hover_row,
            final(self).hover == old(self).hover,
    {
        if delta > 0 {
            self.scroll = if self.scroll - 1 > 0 {
                self.scroll - 1
            } else {
                0
            };
        } else {
            let len = self.rows.len();
            let most: u64 = if len > 5 {
                (len - 5) as u64
            } else {
                0
            };
            let next = (self.scroll + 1) as u64;
            self.scroll = if next < most {
                next as i32
            } else {
                most as i32
            };
        }
    }
}

/// The rows of a list that are drawn: from the first row not scrolled
/// away, as many as fit (at least one), not past the end.
pub fn visible_rows(scroll: i32, len: usize, fit: i32) -> (r: (usize, usize))
    ensures
        r.0 == if scroll > 0 {
            scroll as int
        } else {
            0
        },
        r.1 == if r.0 + (if fit > 1 {
            fit as int
        } else {
            1
        }) < len {
            r.0 + (if fit > 1 {
                fit as int
            } else {
                1
            })
        } else {
            len as int
        },
{
    let start: usize = if scroll > 0 {
        scroll as usize
    } else {
        0
    };
    let shown: u64 = if fit > 1 {
        fit as u64
    } else {
        1
    };
    let end_wanted: u64 = start as u64 + shown;
    let end: usize = if end_wanted < len as u64 {
        end_wanted as usize
    } else {
        len
    };
    (start, end)
}

} // verus!
