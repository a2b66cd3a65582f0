use kai_fan_le_helper::config::mappings::{default_mapping_file, keys_in_order, mapping_items};
use kai_fan_le_helper::config::{
    default_mappings, history_add, history_insert, now_mmdd_hhmm, parse_mappings, HistoryItem, Mapping, Settings,
};

fn keys(m: &[kai_fan_le_helper::config::Mapping]) -> Vec<String> {
    m.iter().map(|x| x.key.clone()).collect()
}

#[test]
fn settings_defaults() {
    let s = Settings::default();
    assert!(s.auto_scan);
    assert_eq!(s.hotkey, "F1");
    assert!(!s.mapping_enabled);
    assert_eq!(f64::from_bits(s.scale_multiplier_bits), 1.0);
    assert!(s.known_ips.is_empty());
}

#[test]
fn remember_ip_front_dedup_limit() {
    let mut s = Settings::default();
    for i in 0..15 {
        s.remember_ip(&format!("10.0.0.{}", i));
    }
    assert_eq!(s.known_ips.len(), 10);
    assert_eq!(s.known_ips[0], "10.0.0.14");
    s.remember_ip("10.0.0.9");
    assert_eq!(s.known_ips[0], "10.0.0.9");
    assert_eq!(s.known_ips.iter().filter(|x| *x == "10.0.0.9").count(), 1);
    s.remember_ip("");
    assert_eq!(s.known_ips[0], "10.0.0.9");
    assert_eq!(s.known_ips_limited().len(), 10);
}

#[test]
fn history_dedup_by_title_and_limit() {
    let mut h: Vec<HistoryItem> = Vec::new();
    for i in 0..60 {
        history_insert(&mut h, "text", &format!("t{}", i), i.to_string());
    }
    assert_eq!(h.len(), 50);
    assert_eq!(h[0].title, "t59");
    history_add(&mut h, "again", "t30");
    assert_eq!(h.len(), 50);
    assert_eq!(h[0].title, "t30");
    assert_eq!(h[0].text, "again");
    assert_eq!(h.iter().filter(|x| x.title == "t30").count(), 1);
    assert!(h[0].time.chars().all(|c| c.is_ascii_digit()));
}

#[test]
fn time_stamp_is_decimal() {
    let t = now_mmdd_hhmm();
    assert!(!t.is_empty());
    assert!(t.parse::<u64>().is_ok());
}

#[test]
fn mappings_parse() {
    let m = parse_mappings("# comment\n[f3]\n易车\r\n\n[F2]\n  懂车帝  \n第二条\n[F9]\n");
    assert_eq!(keys(&m), vec!["F2".to_string(), "F3".to_string()]);
    assert_eq!(m[0].items, vec!["懂车帝".to_string(), "第二条".to_string()]);
    assert_eq!(m[1].items, vec!["易车".to_string()]);
    let again = parse_mappings("[F2]\na\n[f2]\nb\n");
    assert_eq!(keys(&again), vec!["F2".to_string()]);
    assert_eq!(again[0].items, vec!["a".to_string(), "b".to_string()]);
}

#[test]
fn mappings_default_when_empty() {
    let m = parse_mappings("orphan line\n[F5]\n");
    assert_eq!(keys(&m), keys(&default_mappings()));
    assert_eq!(keys(&default_mappings()), vec!["F2", "F3", "F4"]);
    assert_eq!(mapping_items(&default_mappings(), "F3"), Some(vec!["易车".to_string()]));
    assert_eq!(mapping_items(&default_mappings(), "F9"), None);
}

#[test]
fn default_mapping_file_round_trip() {
    let text = default_mapping_file();
    assert!(text.starts_with("# 开饭了助手 - 快捷映射配置\n"));
    assert!(text.contains("[F2]\n懂车帝\n\n[F3]\n易车\n"));
    let m = parse_mappings(&text);
    assert_eq!(keys(&m), vec!["F2", "F3", "F4"]);
}

#[test]
fn mapping_keys_strictly_increase() {
    assert!(keys_in_order(&default_mappings()));
    assert!(keys_in_order(&parse_mappings("[F9]\na\n[F10]\nb\n[F1]\nc\n")));
    assert!(keys_in_order(&Vec::new()));
    let m = |k: &str| Mapping { key: k.to_string(), items: vec!["x".to_string()] };
    assert!(!keys_in_order(&vec![m("F3"), m("F2")]));
    assert!(!keys_in_order(&vec![m("F2"), m("F2")]));
    assert!(keys_in_order(&vec![m("F10"), m("F2")]));
}
