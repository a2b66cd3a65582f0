use kai_fan_le_helper::logic::net::{
    answer_handshake, find_subslice, handshake_payload, parse_device_name, ping_request,
    probe_result, read_send_reply, response_is_ok, submit_body, submit_request_head, BroadcastMsg,
};
use kai_fan_le_helper::network::{broadcast_event, default_ports, merge_scan_hits, subnet_hosts, is_scannable_local, NetEvent};
use kai_fan_le_helper::logic::session::Device;

fn msg(magic: &str, action: &str, port: Option<u16>, device: Option<&str>) -> BroadcastMsg {
    BroadcastMsg {
        magic: magic.to_string(),
        action: action.to_string(),
        port,
        device: device.map(|d| d.to_string()),
    }
}

#[test]
fn valid_hello() {
    let m = msg("KFL", "hello", Some(8848), None);
    assert!(m.is_valid_hello());
    assert_eq!(m.effective_port(), 8848);
}

#[test]
fn invalid_hello() {
    let m = msg("XXX", "hello", None, None);
    assert!(!m.is_valid_hello());
}

#[test]
fn parse_ping_body() {
    let data = "HTTP/1.1 200 OK\r\nContent-Type: application/json\r\n\r\n{\"ok\":true,\"device\":\"小米\"}".as_bytes();
    assert!(response_is_ok(data));
    assert_eq!(parse_device_name(data).as_deref(), Some("小米"));
}

#[test]
fn ping_req_format() {
    let r = ping_request("192.168.1.5");
    assert_eq!(
        String::from_utf8(r).unwrap(),
        "GET /ping HTTP/1.0\r\nHost: 192.168.1.5\r\n\r\n"
    );
}

#[test]
fn effective_port_defaults() {
    assert_eq!(msg("KFL", "hello", None, None).effective_port(), 8848);
    assert_eq!(msg("KFL", "hello", Some(9000), None).effective_port(), 9000);
}

#[test]
fn find_subslice_cases() {
    assert_eq!(find_subslice(b"abcabc", b"ca"), Some(2));
    assert_eq!(find_subslice(b"abc", b""), None);
    assert_eq!(find_subslice(b"ab", b"abc"), None);
    assert_eq!(find_subslice(b"abc", b"abc"), Some(0));
    assert_eq!(find_subslice(b"abc", b"x"), None);
}

#[test]
fn response_ok_marks() {
    assert!(response_is_ok(b"{\"ok\":false}"));
    assert!(response_is_ok(b"HTTP/1.0 200 OK\r\n\r\n"));
    assert!(!response_is_ok(b"HTTP/1.0 404 Not Found\r\n\r\n{}"));
}

#[test]
fn device_name_falls_back_to_model() {
    let d = b"HTTP/1.1 200 OK\r\n\r\n{\"ok\":true,\"model\":\"Pixel\"}";
    assert_eq!(parse_device_name(d).as_deref(), Some("Pixel"));
    let non_string = b"HTTP/1.1 200 OK\r\n\r\n{\"device\":5,\"model\":\"Pixel\"}";
    assert_eq!(parse_device_name(non_string), None);
    assert_eq!(parse_device_name(b"no headers {\"device\":\"x\"}"), None);
    assert_eq!(parse_device_name(b"HTTP/1.1 200 OK\r\n\r\nnot json"), None);
}

#[test]
fn probe_result_names() {
    let d = b"HTTP/1.1 200 OK\r\n\r\n{\"ok\":true}";
    assert_eq!(probe_result("10.0.0.3", d), Some(("10.0.0.3".to_string(), "开饭了".to_string())));
    assert_eq!(probe_result("10.0.0.3", b"HTTP/1.1 500 Oops\r\n\r\n"), None);
}

#[test]
fn submit_body_is_json_object() {
    let b = submit_body("剧名 \"引号\"");
    let v: serde_json::Value = serde_json::from_slice(&b).unwrap();
    assert_eq!(v.get("text").and_then(|t| t.as_str()), Some("剧名 \"引号\""));
    assert_eq!(String::from_utf8(submit_body("a")).unwrap(), "{\"text\":\"a\"}");
}

#[test]
fn submit_head_format() {
    let h = submit_request_head("192.168.1.9", 12);
    assert_eq!(
        String::from_utf8(h).unwrap(),
        "POST /submit HTTP/1.1\r\nHost: 192.168.1.9\r\nContent-Type: application/json; charset=utf-8\r\nUser-Agent: KaiFanLe-Helper/1.0\r\nContent-Length: 12\r\nConnection: close\r\n\r\n"
    );
}

#[test]
fn send_reply_cases() {
    let r = read_send_reply(b"HTTP/1.1 200 OK\r\n\r\n{\"ok\":true,\"message\":\"done\"}");
    assert!(r.ok);
    assert_eq!(r.message, "done");
    let r = read_send_reply(b"HTTP/1.1 200 OK\r\n\r\n{\"ok\":false}");
    assert!(!r.ok);
    assert_eq!(r.message, "");
    let r = read_send_reply(b"HTTP/1.1 200 OK\r\n\r\ngarbage");
    assert!(!r.ok);
    assert_eq!(r.message, "invalid response");
    let r = read_send_reply(b"{\"ok\":true}");
    assert!(r.ok);
}

#[test]
fn handshake_answers() {
    let a = answer_handshake(&msg("KFL", "hello", None, Some("我的手机")));
    assert_eq!(a.name.as_deref(), Some("我的手机"));
    assert_eq!(
        String::from_utf8(a.reply).unwrap(),
        "HTTP/1.1 200 OK\r\nContent-Type: application/json\r\nContent-Length: 11\r\nConnection: close\r\n\r\n{\"ok\":true}"
    );
    let a = answer_handshake(&msg("KFL", "hello", None, None));
    assert_eq!(a.name.as_deref(), Some("手机"));
    let a = answer_handshake(&msg("KFL", "bye", None, None));
    assert!(a.name.is_none());
    assert_eq!(
        String::from_utf8(a.reply).unwrap(),
        "HTTP/1.1 400 Bad Request\r\nContent-Length: 0\r\nConnection: close\r\n\r\n"
    );
}

#[test]
fn handshake_payload_cases() {
    assert_eq!(handshake_payload(b"POST / HTTP/1.1\r\n\r\n{}"), b"{}".to_vec());
    assert_eq!(handshake_payload(b"{\"magic\":\"KFL\"}"), b"{\"magic\":\"KFL\"}".to_vec());
}

#[test]
fn broadcast_events() {
    match broadcast_event(&msg("KFL", "hello", Some(9001), None), "10.0.0.7") {
        Some(NetEvent::BroadcastHit(ip, port)) => {
            assert_eq!(ip, "10.0.0.7");
            assert_eq!(port, 9001);
        }
        _ => panic!("expected a hit"),
    }
    assert!(broadcast_event(&msg("KFL", "hello", None, None), "0.0.0.0").is_none());
    assert!(broadcast_event(&msg("KFL", "x", None, None), "10.0.0.7").is_none());
}

#[test]
fn ports() {
    assert_eq!(default_ports(), (8848, 8849, 8850));
}

#[test]
fn subnet_host_list() {
    let h = subnet_hosts(192, 168, 0);
    assert_eq!(h.len(), 254);
    assert_eq!(h[0], "192.168.0.1");
    assert_eq!(h[253], "192.168.0.254");
    assert!(is_scannable_local(192));
    assert!(!is_scannable_local(127));
    assert!(!is_scannable_local(169));
}

#[test]
fn scan_hits_sorted_and_unique() {
    let d = |ip: &str, n: &str| Device { ip: ip.to_string(), name: n.to_string() };
    let r = merge_scan_hits(vec![d("10.0.0.20", "a"), d("10.0.0.3", "b"), d("10.0.0.20", "c")]);
    let ips: Vec<&str> = r.iter().map(|x| x.ip.as_str()).collect();
    assert_eq!(ips, vec!["10.0.0.3", "10.0.0.20"]);
    assert_eq!(r[1].name, "a");
}

#[test]
fn submit_body_escapes() {
    let b = String::from_utf8(submit_body("a\"b\\c\n\t\r\u{8}\u{c}\u{1}\u{1f}é")).unwrap();
    assert_eq!(b, "{\"text\":\"a\\\"b\\\\c\\n\\t\\r\\b\\f\\u0001\\u001fé\"}");
}

#[test]
fn submit_body_reads_back_as_text_object() {
    for text in ["", "剧名", "a\"b\\c", "line\nbreak\ttab", "\u{0}\u{1f}\u{7f}", "/é😀"] {
        let v: serde_json::Value = serde_json::from_slice(&submit_body(text)).unwrap();
        let obj = v.as_object().unwrap();
        assert_eq!(obj.len(), 1);
        assert_eq!(obj.get("text").and_then(|t| t.as_str()), Some(text));
    }
}
