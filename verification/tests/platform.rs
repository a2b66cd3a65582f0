use kai_fan_le_helper::app::{build_hotkey_keys, handle, main_hotkey_reaction, AppEvent, Command, UiAction};
use kai_fan_le_helper::config::{default_mappings, parse_mappings, Settings};
use kai_fan_le_helper::logic::session::Session;
use kai_fan_le_helper::network::NetEvent;
use kai_fan_le_helper::platform::{
    ctrl_v_steps, throttle_allows, vk_for, HotkeyEvent, HotkeyState, KeyStep, SCAN_CONTROL, SCAN_V,
    VK_CONTROL, VK_V,
};
use kai_fan_le_helper::ui::layout::{
    argb, dp, hit_test, panel_hit, parse_color, popup_hit, scale_for_dpi, status_lines, text_width,
    truncate, Btn, WindowTheme,
};
use kai_fan_le_helper::ui::theme::{rgb, Palette, ResolvedTheme, ThemeMode};
use kai_fan_le_helper::utils::now_string;

#[test]
fn vk_mapping() {
    assert_eq!(vk_for("F1"), Some(0x70));
    assert_eq!(vk_for("f12"), Some(0x7B));
    assert_eq!(vk_for("F13"), None);
    assert_eq!(vk_for("A"), None);
}

#[test]
fn vk_edge_cases() {
    assert_eq!(vk_for("F0"), None);
    assert_eq!(vk_for("F"), None);
    assert_eq!(vk_for("F+5"), Some(0x74));
    assert_eq!(vk_for(""), None);
}

#[test]
fn throttle() {
    assert!(throttle_allows(None, 5));
    assert!(!throttle_allows(Some(1000), 1299));
    assert!(throttle_allows(Some(1000), 1300));
    assert!(!throttle_allows(Some(1000), 900));
}

#[test]
fn theme_modes() {
    assert_eq!(ThemeMode::from_str("dark"), ThemeMode::Dark);
    assert_eq!(ThemeMode::from_str("light"), ThemeMode::Light);
    assert_eq!(ThemeMode::from_str("other"), ThemeMode::Auto);
    assert_eq!(ThemeMode::Dark.as_str(), "dark");
    assert_eq!(ThemeMode::Auto.resolve("dark"), ResolvedTheme::Dark);
    assert_eq!(ThemeMode::Auto.resolve("light"), ResolvedTheme::Light);
    assert_eq!(ThemeMode::Light.resolve("dark"), ResolvedTheme::Light);
}

#[test]
fn colors() {
    assert_eq!(rgb(1, 2, 3), 0x030201);
    assert_eq!(Palette::for_theme(ResolvedTheme::Dark).bg, rgb(28, 28, 30));
    assert_eq!(argb(0x030201), 0xFF010203);
    assert_eq!(parse_color("#34C759"), rgb(0x34, 0xC7, 0x59));
    assert_eq!(parse_color("##ff3b30"), rgb(0xFF, 0x3B, 0x30));
    assert_eq!(parse_color("#+f+f+f"), rgb(15, 15, 15));
    assert_eq!(parse_color("nope"), rgb(40, 167, 69));
    assert_eq!(WindowTheme::for_system("dark").bg_top, rgb(38, 38, 42));
    assert_eq!(WindowTheme::for_system("light").bg_top, rgb(252, 252, 253));
}

#[test]
fn layout_math() {
    assert_eq!(dp(46, 150), 69);
    assert_eq!(dp(-7, 100), -7);
    assert_eq!(dp(-3, 50), -1);
    assert_eq!(hit_test(280, 20, 100), Some(Btn::History));
    assert_eq!(hit_test(410, 20, 100), Some(Btn::Close));
    assert_eq!(hit_test(10, 20, 100), None);
    assert_eq!(hit_test(280, 2, 100), None);
    assert_eq!(panel_hit(80, 0, 100), 0);
    assert_eq!(panel_hit(130, 2, 100), 3);
    assert_eq!(panel_hit(10, 0, 100), -1);
    assert_eq!(popup_hit(42, 0, 100), 0);
    assert_eq!(popup_hit(100, 1, 100), 2);
    assert_eq!(text_width("ab中", 12, 100), 24);
    assert_eq!(truncate("一二三四", 2), "一二…");
    assert_eq!(truncate("一二", 2), "一二");
}

fn session_with_mappings(enabled: bool) -> Session {
    let mut settings = Settings::default();
    settings.mapping_enabled = enabled;
    Session::new(settings, Vec::new(), parse_mappings("[F2]\na\n[F3]\nb\nc\n[F1]\nx\n"))
}

#[test]
fn hotkey_table() {
    let s = session_with_mappings(true);
    let keys = build_hotkey_keys(&s.settings, &s.mappings);
    assert_eq!(keys.len(), 3);
    assert_eq!(keys[0].0, 0x70);
    assert!(matches!(keys[0].1, HotkeyEvent::Main));
    assert_eq!(keys[1].0, 0x71);
    let s = session_with_mappings(false);
    assert_eq!(build_hotkey_keys(&s.settings, &s.mappings).len(), 1);
}

#[test]
fn events_mapping_hotkeys() {
    let mut s = session_with_mappings(true);
    let r = handle(&mut s, AppEvent::Hotkey(HotkeyEvent::Mapping("F2".to_string())));
    assert!(matches!(r.command, Command::ApplyMapping(ref t) if t == "a"));
    let r = handle(&mut s, AppEvent::Hotkey(HotkeyEvent::Mapping("F3".to_string())));
    assert!(matches!(r.action, UiAction::ShowMappingChooser(ref k, ref items) if k == "F3" && items.len() == 2));
    let r = handle(&mut s, AppEvent::Hotkey(HotkeyEvent::Mapping("F8".to_string())));
    assert!(matches!(r.action, UiAction::Idle));
    assert!(matches!(r.command, Command::Nothing));
}

#[test]
fn events_devices() {
    let mut s = Session::new(Settings::default(), Vec::new(), default_mappings());
    let r = handle(&mut s, AppEvent::Net(NetEvent::Handshake { ip: "10.0.0.2".into(), name: "P".into() }));
    assert!(matches!(r.action, UiAction::Flash(ref t, _) if t == "已连接 P"));
    assert!(r.save_settings);
    let r = handle(&mut s, AppEvent::Net(NetEvent::Handshake { ip: "10.0.0.2".into(), name: "P".into() }));
    assert!(matches!(r.action, UiAction::Flash(ref t, _) if t == "切换到 P"));
    let r = handle(&mut s, AppEvent::Net(NetEvent::BroadcastHit("10.0.0.3".into(), 8848)));
    assert!(matches!(r.command, Command::ProbeDevice(ref ip) if ip == "10.0.0.3"));
    let r = handle(&mut s, AppEvent::BroadcastResolved { ip: "10.0.0.3".into(), name: "Q".into() });
    assert!(matches!(r.action, UiAction::Flash(ref t, _) if t == "发现 Q"));
    let r = handle(&mut s, AppEvent::HeartbeatOffline(vec!["10.0.0.3".into()]));
    assert!(matches!(r.action, UiAction::Flash(ref t, ref c) if t == "设备已断开" && c == "#FF9500"));
    let r = handle(&mut s, AppEvent::ScanResult(vec![]));
    assert!(matches!(r.action, UiAction::Flash(ref t, ref c) if t == "未找到设备" && c == "#FF3B30"));
    let r = handle(&mut s, AppEvent::ScanResult(vec![("10.0.0.8".into(), "Z".into())]));
    assert!(matches!(r.action, UiAction::Flash(ref t, _) if t == "已连接 Z"));
    assert!(!s.is_discovering());
}

#[test]
fn events_send_and_main() {
    let mut s = Session::new(Settings::default(), Vec::new(), default_mappings());
    let r = handle(&mut s, AppEvent::SendResult { ok: true, message: String::new() });
    assert!(matches!(r.action, UiAction::Flash(ref t, _) if t == "已发送"));
    let r = handle(&mut s, AppEvent::SendResult { ok: false, message: String::new() });
    assert!(matches!(r.action, UiAction::Flash(ref t, _) if t == "发送失败"));
    let r = handle(&mut s, AppEvent::SendResult { ok: false, message: "busy".into() });
    assert!(matches!(r.action, UiAction::Flash(ref t, _) if t == "busy"));
    let r = handle(&mut s, AppEvent::Hotkey(HotkeyEvent::Main));
    assert!(matches!(r.command, Command::MainHotkey));
    let (a, paste) = main_hotkey_reaction("王伟".into(), true);
    assert!(matches!(a, UiAction::SetInput(ref t) if t == "王伟"));
    assert!(!paste);
    let (a, paste) = main_hotkey_reaction("王伟".into(), false);
    assert!(matches!(a, UiAction::Flash(ref t, _) if t == "已粘贴 王伟"));
    assert!(paste);
}

#[test]
fn log_time_stamp() {
    assert!(now_string().parse::<u64>().is_ok());
}

#[test]
fn status_area() {
    let s = status_lines(true, 2, "Pixel");
    assert_eq!(s.line1, "● 扫描中");
    assert_eq!(s.color, rgb(255, 149, 0));
    assert_eq!(s.line2, "");
    let s = status_lines(false, 0, "");
    assert_eq!(s.line1, "● 未找到");
    assert_eq!(s.color, rgb(255, 59, 48));
    let s = status_lines(false, 1, "Pixel");
    assert_eq!(s.line1, "● 已连接");
    assert_eq!(s.color, rgb(40, 167, 69));
    assert_eq!(s.line2, "Pixel");
    let s = status_lines(false, 12, "Pixel");
    assert_eq!(s.line1, "● 已连接 (12)");
    assert_eq!(s.line2, "Pixel");
}

#[test]
fn hook_throttles_each_hotkey() {
    let keys = vec![
        (0x70, HotkeyEvent::Main),
        (0x71, HotkeyEvent::Mapping("F2".to_string())),
        (0x72, HotkeyEvent::Mapping("F3".to_string())),
    ];
    let mut st = HotkeyState::new(keys);
    // An unbound key passes.
    let out = st.on_key(0x41, true, 0);
    assert!(!out.swallow && out.fire.is_none());
    // The main hotkey fires, then not again within the throttle.
    let out = st.on_key(0x70, true, 1_000);
    assert!(out.swallow && matches!(out.fire, Some(HotkeyEvent::Main)));
    let out = st.on_key(0x70, true, 1_299);
    assert!(out.swallow && out.fire.is_none());
    // Releases are swallowed and fire nothing.
    let out = st.on_key(0x70, false, 5_000);
    assert!(out.swallow && out.fire.is_none());
    let out = st.on_key(0x70, true, 1_300);
    assert!(matches!(out.fire, Some(HotkeyEvent::Main)));
    // Mapping keys are throttled each on its own.
    let out = st.on_key(0x71, true, 1_300);
    assert!(matches!(out.fire, Some(HotkeyEvent::Mapping(ref k)) if k == "F2"));
    let out = st.on_key(0x72, true, 1_350);
    assert!(matches!(out.fire, Some(HotkeyEvent::Mapping(ref k)) if k == "F3"));
    assert!(st.on_key(0x71, true, 1_500).fire.is_none());
    assert!(st.on_key(0x71, true, 1_600).fire.is_some());
    assert_eq!(st.last_map.len(), 2);
    assert_eq!(st.last_map[0], ("F2".to_string(), 1_600));
    assert_eq!(st.last_main, Some(1_300));
    // New keys keep the firing times.
    st.set_keys(vec![(0x73, HotkeyEvent::Main)]);
    assert!(!st.on_key(0x70, true, 9_000).swallow);
    assert!(st.on_key(0x73, true, 1_400).fire.is_none());
}

#[test]
fn dpi_scale() {
    assert_eq!(scale_for_dpi(96), 100);
    assert_eq!(scale_for_dpi(144), 150);
    assert_eq!(scale_for_dpi(120), 125);
    assert_eq!(scale_for_dpi(100), 104);
    assert_eq!(scale_for_dpi(0), 100);
    assert_eq!(scale_for_dpi(-5), 100);
}

#[test]
fn ctrl_v_sequence() {
    let steps = ctrl_v_steps();
    assert_eq!(
        steps,
        vec![
            KeyStep { wait_ms: 10, vk: VK_CONTROL, scan: SCAN_CONTROL, down: true },
            KeyStep { wait_ms: 40, vk: VK_V, scan: SCAN_V, down: true },
            KeyStep { wait_ms: 0, vk: VK_V, scan: SCAN_V, down: false },
            KeyStep { wait_ms: 20, vk: VK_CONTROL, scan: SCAN_CONTROL, down: false },
        ]
    );
    assert_eq!(steps.iter().map(|s| s.wait_ms).sum::<u64>() + 20, 90);
    assert_eq!((VK_CONTROL, VK_V, SCAN_CONTROL, SCAN_V), (0x11, 0x56, 0x1D, 0x2F));
}

#[test]
fn key_names_any_case() {
    for n in 1..=12u32 {
        assert_eq!(vk_for(&format!("F{}", n)), Some(0x6F + n));
        assert_eq!(vk_for(&format!("f{}", n)), Some(0x6F + n));
    }
    assert_eq!(vk_for("F0"), None);
    assert_eq!(vk_for(""), None);
    assert_eq!(vk_for("f13"), None);
    assert_eq!(vk_for("f+3"), Some(0x72));
}

#[test]
fn events_change_the_session_as_its_methods_do() {
    let mut s = Session::new(Settings::default(), Vec::new(), default_mappings());
    s.settings.known_ips = vec!["10.0.0.9".to_string()];
    s.advance_backoff();
    s.advance_backoff();
    handle(&mut s, AppEvent::Net(NetEvent::Handshake { ip: "10.0.0.5".into(), name: "A".into() }));
    assert_eq!(s.settings.known_ips, vec!["10.0.0.5".to_string(), "10.0.0.9".to_string()]);
    assert_eq!(s.current_backoff_secs(), 5);
    assert_eq!(s.current_ip(), Some("10.0.0.5"));
    handle(&mut s, AppEvent::BroadcastResolved { ip: "10.0.0.7".into(), name: "B".into() });
    handle(&mut s, AppEvent::BroadcastResolved { ip: "10.0.0.6".into(), name: "C".into() });
    assert_eq!(s.current_index, 1);
    assert_eq!(s.settings.known_ips[0], "10.0.0.6");
    // The selected device drops out: the first is selected.
    let r = handle(&mut s, AppEvent::HeartbeatOffline(vec!["10.0.0.6".into()]));
    assert!(!r.save_settings);
    assert_eq!(s.current_index, 0);
    assert_eq!(s.devices.len(), 2);
    // The selection falls off the end: the last is selected.
    s.current_index = 1;
    handle(&mut s, AppEvent::HeartbeatOffline(vec!["10.0.0.7".into()]));
    assert_eq!(s.current_index, 0);
    // A scan that keeps the selected phone changes no setting.
    let r = handle(&mut s, AppEvent::ScanResult(vec![("10.0.0.5".into(), "A".into()), ("10.0.0.1".into(), "D".into())]));
    assert!(!r.save_settings);
    assert_eq!(s.current_ip(), Some("10.0.0.5"));
    // One that loses it selects the first and remembers every address.
    let r = handle(&mut s, AppEvent::ScanResult(vec![("10.0.0.4".into(), "E".into()), ("10.0.0.3".into(), "F".into())]));
    assert!(r.save_settings);
    assert_eq!(s.current_ip(), Some("10.0.0.3"));
    assert_eq!(s.settings.known_ips[0], "10.0.0.4");
    assert_eq!(s.settings.known_ips[1], "10.0.0.3");
}

#[test]
fn function_key_family() {
    for n in 1..=12u32 {
        assert_eq!(vk_for(&format!("F{}", n)), Some(0x6F + n));
        assert_eq!(vk_for(&format!("f{}", n)), Some(0x6F + n));
    }
    assert_eq!(vk_for("F0"), None);
    assert_eq!(vk_for(""), None);
    for key in ["F1", "f7", "F12", "x", "F99", "Ｆ1", "ﬀ1"] {
        assert_eq!(vk_for(key), vk_for(&key.to_uppercase()));
        if let Some(v) = vk_for(key) {
            assert!((0x70..=0x7B).contains(&v));
        }
    }
}
