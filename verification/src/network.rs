//! Discovery and scanning decisions. Sockets, timeouts and concurrency are
//! the application's; here are the events it reports and the addresses it
//! probes.

use vstd::prelude::*;
use crate::config::{BROADCAST_PORT, HANDSHAKE_PORT, PORT};
use crate::logic::net::{hello, BroadcastMsg};
use crate::logic::session::{device_view, device_views, sort_devices, sorted_by_ip, Device};
use crate::text::{append_all, chars_of, decimal, eq_chars, push_decimal, string_of};

verus! {

/// What the listeners report.
#[derive(Debug, Clone)]
pub enum NetEvent {
    /// A hello broadcast from an address, announcing a port.
    BroadcastHit(String, u16),
    /// A phone completed the handshake.
    Handshake { ip: String, name: String },
}

/// The protocol ports: HTTP, broadcast, handshake.
pub fn default_ports() -> (r: (u16, u16, u16))
    ensures
        r == (PORT, BROADCAST_PORT, HANDSHAKE_PORT),
{
    (PORT, BROADCAST_PORT, HANDSHAKE_PORT)
}

/// What a received broadcast means: a KFL hello from a real address is a
/// hit on its announced port; anything else is ignored.
pub fn broadcast_event(msg: &BroadcastMsg, ip: &str) -> (r: Option<NetEvent>)
    ensures
        (hello(msg.magic@, msg.action@) && ip@ != "0.0.0.0"@) ==> (r matches Some(
            NetEvent::BroadcastHit(a, p),
        ) && a@ == ip@ && p == match msg.port {
            Some(q) => q,
            None => PORT,
        }),
        !(hello(msg.magic@, msg.action@) && ip@ != "0.0.0.0"@) ==> r is None,
{
    if msg.is_valid_hello() && !eq_chars(&chars_of(ip), &chars_of("0.0.0.0")) {
        Some(NetEvent::BroadcastHit(ip.to_string(), msg.effective_port()))
    } else {
        None
    }
}

/// Whether a local address's subnet is scanned: not link-local (169.x)
/// and not loopback (127.x).
pub fn is_scannable_local(first_octet: u8) -> (b: bool)
    ensures
        b == (first_octet != 169 && first_octet != 127),
{
    first_octet != 169 && first_octet != 127
}

/// The dotted address `a.b.c.d`.
pub open spec fn dotted(a: u8, b: u8, c: u8, d: u8) -> Seq<char> {
    decimal(a as nat) + "."@ + decimal(b as nat) + "."@ + decimal(c as nat) + "."@ + decimal(
        d as nat,
    )
}

/// The host addresses `a.b.c.1` to `a.b.c.254` of a /24 subnet.
pub fn subnet_hosts(a: u8, b: u8, c: u8) -> (r: Vec<String>)
    ensures
        r@.len() == 254,
        forall|k: int| 0 <= k < 254 ==> #[trigger] r@[k]@ == dotted(a, b, c, (k + 1) as u8),
{
    let dot = chars_of(".");
    let mut prefix: Vec<char> = Vec::new();
    push_decimal(a as u64, &mut prefix);
    append_all(&mut prefix, &dot);
    push_decimal(b as u64, &mut prefix);
    append_all(&mut prefix, &dot);
    push_decimal(c as u64, &mut prefix);
    append_all(&mut prefix, &dot);
    let mut r: Vec<String> = Vec::new();
    let mut i: u8 = 1;
    while i < 255
        invariant
            1 <= i <= 255,
            dot@ == "."@,
            prefix@ == decimal(a as nat) + "."@ + decimal(b as nat) + "."@ + decimal(c as nat) + "."@,
            r@.len() == i - 1,
            forall|k: int| 0 <= k < i - 1 ==> #[trigger] r@[k]@ == dotted(a, b, c, (k + 1) as u8),
        decreases 255 - i,
    {
        let mut host = crate::logic::session::copy_chars(&prefix);
        push_decimal(i as u64, &mut host);
        r.push(string_of(&host));
        i += 1;
    }
    r
}

/// `s` with each device whose address equals that of the device kept just
/// before it dropped (`Vec::dedup_by` on the address).
pub open spec fn dedup_by_ip(s: Seq<(Seq<char>, Seq<char>)>) -> Seq<(Seq<char>, Seq<char>)>
    decreases s.len(),
{
    if s.len() == 0 {
        s
    } else {
        let t = dedup_by_ip(s.drop_last());
        if t.len() > 0 && t.last().0 == s.last().0 {
            t
        } else {
            t.push(s.last())
        }
    }
}

/// The devices a scan found: sorted by address, one per address.
pub fn merge_scan_hits(hits: Vec<Device>) -> (r: Vec<Device>)
    ensures
        device_views(r@) == dedup_by_ip(sorted_by_ip(device_views(hits@))),
{
    let sorted = sort_devices(hits);
    let ghost all = device_views(sorted@);
    let mut out: Vec<Device> = Vec::new();
    let mut k: usize = 0;
    assert(all.take(0) =~= Seq::<(Seq<char>, Seq<char>)>::empty());
    assert(device_views(out@) =~= Seq::<(Seq<char>, Seq<char>)>::empty());
    while k < sorted.len()
        invariant
            k <= sorted.len(),
            all == device_views(sorted@),
            device_views(out@) == dedup_by_ip(all.take(k as int)),
        decreases sorted.len() - k,
    {
        assert(all.take(k + 1).drop_last() =~= all.take(k as int));
        let same = out.len() > 0 && eq_chars(
            &chars_of(out[out.len() - 1].ip.as_str()),
            &chars_of(sorted[k].ip.as_str()),
        );
        if !same {
            let d = Device { ip: sorted[k].ip.clone(), name: sorted[k].name.clone() };
            assert(device_views(out@.push(d)) =~= device_views(out@).push(device_view(d)));
            out.push(d);
        }
        k += 1;
    }
    assert(all.take(k as int) =~= all);
    out
}

/// Whether a scan ends after probing the remembered addresses: when there
/// were some and any of them answered. Otherwise the local subnets are
/// scanned.
pub fn known_hits_suffice(known: &Vec<String>, hits: &Vec<(String, String)>) -> (b: bool)
    ensures
        b == (known@.len() > 0 && hits@.len() > 0),
{
    known.len() > 0 && hits.len() > 0
}

} // verus!
