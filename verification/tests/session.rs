use kai_fan_le_helper::config::{default_mappings, Settings, HistoryItem};
use kai_fan_le_helper::logic::session::{ip_sort_key, sort_devices, Device, Session};

fn temp_session() -> Session {
    Session::new(Settings::default(), Vec::new(), default_mappings())
}

fn dev(ip: &str, name: &str) -> Device {
    Device { ip: ip.to_string(), name: name.to_string() }
}

#[test]
fn upsert_and_select() {
    let mut s = temp_session();
    assert!(s.upsert_device("192.168.1.10", "手机A"));
    assert!(s.upsert_device("192.168.1.2", "手机B"));
    assert_eq!(s.devices[0].ip, "192.168.1.2");
    assert_eq!(s.current_ip(), Some("192.168.1.2"));
    assert!(!s.upsert_device("192.168.1.10", "手机A"));
    assert_eq!(s.devices.len(), 2);
}

#[test]
fn remove_offline_devices() {
    let mut s = temp_session();
    s.upsert_device("10.0.0.1", "A");
    s.upsert_device("10.0.0.2", "B");
    assert!(s.remove_offline(&["10.0.0.1".to_string()]));
    assert_eq!(s.devices.len(), 1);
    assert_eq!(s.devices[0].ip, "10.0.0.2");
}

#[test]
fn backoff_progression() {
    let mut s = temp_session();
    assert_eq!(s.current_backoff_secs(), 5);
    for _ in 0..20 {
        s.advance_backoff();
    }
    assert_eq!(s.current_backoff_secs(), 60);
    s.reset_backoff();
    assert_eq!(s.current_backoff_secs(), 5);
}

#[test]
fn ip_keys() {
    assert_eq!(ip_sort_key("192.168.1.10"), (192, 168, 1, 10));
    assert_eq!(ip_sort_key("1.2"), (1, 2, 0, 0));
    assert_eq!(ip_sort_key("a.+7.99999999999.4.5"), (0, 7, 0, 4));
}

#[test]
fn sorting_is_stable() {
    let r = sort_devices(vec![dev("10.0.0.9", "x"), dev("10.0.0.1", "y"), dev("10.0.0.9", "z")]);
    let names: Vec<&str> = r.iter().map(|d| d.name.as_str()).collect();
    assert_eq!(names, vec!["y", "x", "z"]);
}

#[test]
fn upsert_remembers_ip_first() {
    let mut s = temp_session();
    s.upsert_device("10.0.0.1", "A");
    s.upsert_device("10.0.0.2", "B");
    s.upsert_device("10.0.0.1", "A");
    assert_eq!(s.settings.known_ips, vec!["10.0.0.1".to_string(), "10.0.0.2".to_string()]);
}

#[test]
fn scan_result_keeps_selection() {
    let mut s = temp_session();
    s.upsert_device("10.0.0.5", "A");
    let changed = s.set_scan_result(vec![dev("10.0.0.1", "B"), dev("10.0.0.5", "A")]);
    assert!(!changed);
    assert_eq!(s.current_ip(), Some("10.0.0.5"));
    assert_eq!(s.current_index, 1);
}

#[test]
fn scan_result_selects_first_when_lost() {
    let mut s = temp_session();
    s.upsert_device("10.0.0.5", "A");
    s.advance_backoff();
    let changed = s.set_scan_result(vec![dev("10.0.0.9", "B"), dev("10.0.0.7", "C")]);
    assert!(changed);
    assert_eq!(s.current_ip(), Some("10.0.0.7"));
    assert_eq!(s.current_backoff_secs(), 5);
    assert_eq!(s.settings.known_ips[0], "10.0.0.9");
    let empty = s.set_scan_result(Vec::new());
    assert!(!empty);
    assert_eq!(s.current_ip(), None);
}

#[test]
fn remove_offline_moves_selection() {
    let mut s = temp_session();
    s.upsert_device("10.0.0.1", "A");
    s.upsert_device("10.0.0.2", "B");
    s.upsert_device("10.0.0.3", "C");
    assert_eq!(s.current_index, 2);
    assert!(s.remove_offline(&["10.0.0.3".to_string()]));
    assert_eq!(s.current_index, 1);
    s.current_index = 0;
    assert!(s.remove_offline(&["10.0.0.1".to_string()]));
    assert_eq!(s.current_index, 0);
    assert!(!s.remove_offline(&["10.9.9.9".to_string()]));
}

#[test]
fn ingest_share_text_records_history() {
    let mut s = temp_session();
    assert_eq!(s.ingest_share_text("普通文本"), None);
    assert!(s.history.is_empty());
    let shown = s.ingest_share_text("复制打开抖音，看看 满城风絮 - 极速").unwrap();
    assert_eq!(shown, "满城风絮 - 极速");
    assert_eq!(s.history.len(), 1);
    assert_eq!(s.history[0].title, "满城风絮");
    s.history.push(HistoryItem { text: "t".into(), title: "其他".into(), time: "0".into() });
    s.ingest_share_text("复制打开抖音，看看 满城风絮");
    assert_eq!(s.history.len(), 2);
    assert_eq!(s.history[1].title, "其他");
}

#[test]
fn display_for_history_falls_back_to_text() {
    let s = temp_session();
    assert_eq!(s.display_for_history("剧名 - 极速"), "剧名 - 极速");
    assert_eq!(s.display_for_history("剧名"), "剧名");
    assert_eq!(s.display_for_history(""), "");
}

#[test]
fn discovering_flag() {
    let mut s = temp_session();
    assert!(!s.is_discovering());
    s.set_discovering(true);
    assert!(s.is_discovering());
}

#[test]
fn selection_stays_on_a_device() {
    let mut s = temp_session();
    assert!(s.current().is_none());
    s.set_scan_result(vec![dev("10.0.0.9", "A"), dev("10.0.0.3", "B")]);
    assert!(s.current_index < s.devices.len());
    s.upsert_device("10.0.0.5", "C");
    assert_eq!(s.current_ip(), Some("10.0.0.5"));
    s.remove_offline(&["10.0.0.5".to_string(), "10.0.0.9".to_string()]);
    assert!(s.current_index < s.devices.len());
    assert_eq!(s.current_ip(), Some("10.0.0.3"));
    s.remove_offline(&["10.0.0.3".to_string()]);
    assert!(s.devices.is_empty());
    assert_eq!(s.current_index, 0);
}

#[test]
fn addresses_stay_distinct() {
    let mut s = temp_session();
    s.set_scan_result(vec![dev("10.0.0.7", "A"), dev("10.0.0.2", "B")]);
    s.upsert_device("10.0.0.7", "A2");
    s.upsert_device("10.0.0.3", "C");
    s.upsert_device("10.0.0.3", "C");
    let ips: Vec<&str> = s.devices.iter().map(|d| d.ip.as_str()).collect();
    assert_eq!(ips, vec!["10.0.0.2", "10.0.0.3", "10.0.0.7"]);
    s.remove_offline(&["10.0.0.3".to_string()]);
    let ips: Vec<&str> = s.devices.iter().map(|d| d.ip.as_str()).collect();
    assert_eq!(ips, vec!["10.0.0.2", "10.0.0.7"]);
}

#[test]
fn backoff_never_decreases() {
    let mut s = temp_session();
    let mut last = s.current_backoff_secs();
    let expected = [5, 5, 5, 5, 5, 5, 10, 15, 30, 60, 60, 60];
    for k in 0..12 {
        let now = s.current_backoff_secs();
        assert_eq!(now, expected[k]);
        assert!(now >= last && now <= 60);
        last = now;
        s.advance_backoff();
    }
    s.reset_backoff();
    assert_eq!(s.current_backoff_secs(), 5);
}
