use kai_fan_le_helper::app::UiAction;
use kai_fan_le_helper::config::{default_mappings, history_insert, Settings};
use kai_fan_le_helper::logic::session::Session;
use kai_fan_le_helper::ui::layout::{dp, popup_left, status_lines, Btn, BAR_H, BTN_SEND_X, BTN_Y, PANEL_HEADER, PANEL_ROW_H};
use kai_fan_le_helper::ui::theme::{rgb, theme_from_registry};
use kai_fan_le_helper::ui::toolbar::{
    choice_rows, flip, history_rows, settings_row, tray_click, tray_command, visible_rows, Click,
    MenuAction, Panel, Switch, Toolbar, TrayClick, ID_AUTOSTART, ID_AUTO_PUSH, ID_AUTO_SCAN,
    ID_CLEAR_CLIP, ID_HOTKEY_BASE, ID_QUIT, ID_RESCAN, ID_SHOW, ID_THEME_DARK, TRAY_CONTEXT_MENU,
    TRAY_LEFT_UP, TRAY_RIGHT_UP,
};

const SHARE: &str = "婚后热恋 #短剧 #推荐";

fn session_with_history() -> Session {
    let mut s = Session::new(Settings::default(), Vec::new(), default_mappings());
    history_insert(&mut s.history, "3.5 满城风絮", "满城风絮", "05-01 10:00".to_string());
    history_insert(&mut s.history, SHARE, "婚后热恋", "05-01 11:00".to_string());
    s
}

/// Height of panel row `k` at 100 % scale.
fn panel_row_y(k: i32) -> i32 {
    BAR_H + PANEL_HEADER + 4 + k * PANEL_ROW_H + 1
}

#[test]
fn tray_commands() {
    assert!(matches!(tray_command(ID_SHOW), MenuAction::ShowOrHide));
    assert!(matches!(tray_command(ID_RESCAN), MenuAction::Rescan));
    assert!(matches!(tray_command(ID_AUTO_SCAN), MenuAction::Flip(Switch::AutoScan)));
    assert!(matches!(tray_command(ID_AUTO_PUSH), MenuAction::Flip(Switch::AutoPush)));
    assert!(matches!(tray_command(ID_CLEAR_CLIP), MenuAction::Flip(Switch::ClearClipboard)));
    assert!(matches!(tray_command(ID_AUTOSTART), MenuAction::Flip(Switch::Autostart)));
    assert!(matches!(tray_command(ID_QUIT), MenuAction::Quit));
    match tray_command(ID_HOTKEY_BASE + 12) {
        MenuAction::SetHotkey(k) => assert_eq!(k, "F12"),
        _ => panic!("expected a hotkey"),
    }
    match tray_command(ID_HOTKEY_BASE + 3) {
        MenuAction::SetHotkey(k) => assert_eq!(k, "F3"),
        _ => panic!("expected a hotkey"),
    }
    assert!(matches!(tray_command(ID_HOTKEY_BASE + 13), MenuAction::Nothing));
    assert!(matches!(tray_command(ID_THEME_DARK), MenuAction::Nothing));
    assert!(matches!(tray_command(0), MenuAction::Nothing));
}

#[test]
fn tray_mouse_and_settings_rows() {
    assert!(matches!(tray_click(TRAY_RIGHT_UP), TrayClick::ShowMenu));
    assert!(matches!(tray_click(TRAY_CONTEXT_MENU), TrayClick::ShowMenu));
    assert!(matches!(tray_click(TRAY_LEFT_UP), TrayClick::ShowOrHide));
    assert!(matches!(tray_click(0x0200), TrayClick::Nothing));
    assert!(matches!(settings_row(0), MenuAction::Flip(Switch::AutoScan)));
    assert!(matches!(settings_row(3), MenuAction::Flip(Switch::Autostart)));
    assert!(matches!(settings_row(4), MenuAction::Rescan));
    assert!(matches!(settings_row(5), MenuAction::Quit));
    assert!(matches!(settings_row(6), MenuAction::Nothing));
    assert!(matches!(settings_row(-1), MenuAction::Nothing));
}

#[test]
fn flipping_switches() {
    let mut s = Settings::default();
    flip(&mut s, Switch::AutoPush);
    assert!(s.auto_push);
    assert!(s.auto_scan);
    flip(&mut s, Switch::ClearClipboard);
    assert!(!s.clear_clipboard);
    flip(&mut s, Switch::Autostart);
    assert!(!s.autostart);
    flip(&mut s, Switch::AutoScan);
    assert!(!s.auto_scan);
    assert_eq!(s.hotkey, "F1");
}

#[test]
fn panel_rows() {
    let s = session_with_history();
    let rows = history_rows(&s);
    assert_eq!(rows.len(), 2);
    assert_eq!(rows[0].title, "婚后热恋");
    assert_eq!(rows[0].text, "婚后热恋");
    assert_eq!(rows[0].time, "05-01 11:00");
    assert_eq!(rows[1].title, "满城风絮");
    assert_eq!(rows[1].text, "满城风絮");
    let choices = choice_rows(&vec![
        SHARE.to_string(),
        "https://v.douyin.com/abcdefghijklmnopqrstuvwxyz".to_string(),
    ]);
    assert_eq!(choices[0].title, "婚后热恋");
    assert_eq!(choices[0].text, SHARE);
    assert_eq!(choices[1].title, "https://v.douyin.com");
    assert_eq!(choices[1].time, "");
}

#[test]
fn panel_toggling() {
    let s = session_with_history();
    let mut t = Toolbar::new(0);
    assert_eq!(t.panel, Panel::Closed);
    t.toggle_panel(Panel::History, &s);
    assert_eq!(t.panel, Panel::History);
    assert_eq!(t.rows.len(), 2);
    assert_eq!(t.hover_row, -1);
    t.toggle_panel(Panel::Settings, &s);
    assert_eq!(t.panel, Panel::Settings);
    assert_eq!(t.rows.len(), 2);
    t.toggle_panel(Panel::Settings, &s);
    assert_eq!(t.panel, Panel::Closed);
}

#[test]
fn hovering_and_double_click() {
    let s = session_with_history();
    let mut t = Toolbar::new(0);
    assert!(t.hover_at(BTN_SEND_X + 1, BTN_Y + 1, 100));
    assert_eq!(t.hover, Some(Btn::Send));
    assert!(!t.hover_at(BTN_SEND_X + 2, BTN_Y + 2, 100));
    t.toggle_panel(Panel::History, &s);
    assert!(t.hover_at(10, panel_row_y(1), 100));
    assert_eq!(t.hover_row, 1);
    assert_eq!(t.hover, None);
    t.hover_at(10, panel_row_y(5), 100);
    assert_eq!(t.hover_row, -1);
    // A history row fills the input box and closes the panel.
    assert!(t.double_click(panel_row_y(0), 100, &s).is_none());
    assert_eq!(t.input, "婚后热恋");
    assert_eq!(t.panel, Panel::Closed);
    // With the panel closed nothing happens.
    assert!(t.double_click(panel_row_y(1), 100, &s).is_none());
    assert_eq!(t.input, "婚后热恋");
}

#[test]
fn mapping_choice_is_pasted() {
    let s = session_with_history();
    let mut t = Toolbar::new(0);
    t.apply_action(
        UiAction::ShowMappingChooser("F2".to_string(), vec!["懂车帝".to_string(), "易车".to_string()]),
        5,
        &s,
    );
    assert_eq!(t.panel, Panel::Mapping);
    assert_eq!(t.rows.len(), 2);
    assert_eq!(t.rows[1].title, "易车");
    let chosen = t.double_click(panel_row_y(1), 100, &s);
    assert_eq!(chosen, Some("易车".to_string()));
    assert_eq!(t.input, "");
    assert_eq!(t.panel, Panel::Closed);
}

#[test]
fn clicks() {
    let s = session_with_history();
    let mut t = Toolbar::new(0);
    assert!(matches!(t.click(BTN_SEND_X + 1, BTN_Y + 1, 100), Click::Button(Btn::Send)));
    assert!(matches!(t.click(5, 20, 100), Click::StatusArea));
    assert!(matches!(t.click(150, 20, 100), Click::Elsewhere));
    t.toggle_panel(Panel::Settings, &s);
    assert!(matches!(t.click(10, panel_row_y(4), 100), Click::Settings(MenuAction::Rescan)));
    t.toggle_panel(Panel::History, &s);
    assert!(matches!(t.click(10, panel_row_y(0), 100), Click::InPanel));
    assert!(matches!(t.click(BTN_SEND_X + 1, BTN_Y + 1, 100), Click::Button(Btn::Send)));
}

#[test]
fn clipboard_and_idle_scan() {
    let mut t = Toolbar::new(1_000);
    assert_eq!(t.clipboard_seen("  hello \n"), Some("hello".to_string()));
    assert_eq!(t.clipboard_seen("hello"), None);
    assert_eq!(t.clipboard_seen("   "), None);
    assert_eq!(t.last_clipboard, "hello");
    assert!(!t.idle_scan_due(3_999, true, 0, false));
    assert!(t.idle_scan_due(4_000, true, 0, false));
    assert_eq!(t.last_idle_check, 4_000);
    assert!(!t.idle_scan_due(7_500, true, 1, false));
    assert_eq!(t.last_idle_check, 7_500);
    assert!(!t.idle_scan_due(20_000, true, 0, true));
    assert!(!t.idle_scan_due(30_000, false, 0, false));
}

#[test]
fn messages_and_status() {
    let s = session_with_history();
    let mut t = Toolbar::new(0);
    let status = status_lines(false, 1, "Pixel");
    assert_eq!(t.shown_status(&status, 10), ("● 已连接".to_string(), "Pixel".to_string(), rgb(40, 167, 69)));
    t.apply_action(UiAction::Flash("已发送".to_string(), "#FF3B30".to_string()), 100, &s);
    assert_eq!(t.flash_color, rgb(255, 59, 48));
    assert_eq!(t.shown_status(&status, 1_599), ("已发送".to_string(), String::new(), rgb(255, 59, 48)));
    assert_eq!(t.shown_status(&status, 1_600).0, "● 已连接");
    t.apply_action(UiAction::SetInput("好剧".to_string()), 200, &s);
    assert_eq!(t.input_shown(), ("好剧".to_string(), false));
    assert_eq!(t.text_to_send(), Some("好剧".to_string()));
    t.sent(true, 300);
    assert_eq!(t.input_shown(), ("等待剪贴板...".to_string(), true));
    assert_eq!(t.flash_text, "已发送");
    assert_eq!(t.text_to_send(), None);
    t.sent(false, 400);
    assert_eq!(t.flash_text, "未连接");
    assert_eq!(t.flash_color, rgb(255, 59, 48));
    t.name_copied("王伟".to_string(), 500);
    assert_eq!(t.input, "王伟");
    assert_eq!(t.flash_text, "已复制 王伟");
    assert_eq!(t.flash_at, Some(500));
    t.apply_action(UiAction::Idle, 600, &s);
    assert_eq!(t.flash_at, Some(500));
}

#[test]
fn popup_list() {
    let mut s = session_with_history();
    for k in 0..8 {
        history_insert(&mut s.history, &format!("text {}", k), &format!("t{}", k), String::new());
    }
    let mut t = Toolbar::new(0);
    t.open_popup(&s);
    assert_eq!(t.rows.len(), 10);
    assert_eq!(t.rows[9].text, "3.5 满城风絮");
    // Popup rows start below the header and padding.
    let y = 34 + 8 + 44 * 2 + 1;
    assert!(t.popup_hover_at(y, 100));
    assert_eq!(t.hover_row, 2);
    t.popup_choose();
    assert_eq!(t.input, t.rows[2].text);
    t.wheel(-120);
    assert_eq!(t.scroll, 1);
    for _ in 0..10 {
        t.wheel(-120);
    }
    assert_eq!(t.scroll, 5);
    t.wheel(120);
    assert_eq!(t.scroll, 4);
    assert_eq!(visible_rows(t.scroll, t.rows.len(), 8), (4, 10));
    assert_eq!(visible_rows(-3, 10, 0), (0, 1));
    assert_eq!(visible_rows(2, 10, 3), (2, 5));
    assert_eq!(dp(BAR_H, 100), 46);
}

#[test]
fn toggling_twice() {
    let s = session_with_history();
    let mut t = Toolbar::new(0);
    t.toggle_panel(Panel::Settings, &s);
    t.toggle_panel(Panel::Settings, &s);
    assert_eq!(t.panel, Panel::Closed);
    t.toggle_panel(Panel::History, &s);
    t.toggle_panel(Panel::Settings, &s);
    t.toggle_panel(Panel::Settings, &s);
    assert_eq!(t.panel, Panel::Closed);
    t.toggle_panel(Panel::History, &s);
    t.toggle_panel(Panel::History, &s);
    t.toggle_panel(Panel::History, &s);
    assert_eq!(t.panel, Panel::History);
}

#[test]
fn popup_stays_on_screen() {
    assert_eq!(popup_left(100, 300, 1920, 8), 100);
    assert_eq!(popup_left(1800, 300, 1920, 8), 1612);
    assert_eq!(popup_left(1620, 300, 1920, 8), 1620);
    assert_eq!(popup_left(1621, 300, 1920, 8), 1612);
}

#[test]
fn system_theme_from_registry() {
    assert_eq!(theme_from_registry(Some(1)), "light");
    assert_eq!(theme_from_registry(Some(0)), "dark");
    assert_eq!(theme_from_registry(Some(7)), "dark");
    assert_eq!(theme_from_registry(None), "light");
}
