//! The device session: the phones found so far, which one is selected,
//! the scan back-off, and turning shared text into a title.
//!
//! Everything that was read from disk is handed in, and settings and
//! history changed here are written back by the caller.

use vstd::prelude::*;
use vstd::string::StringExecFns;
use crate::text::decimal;
use crate::config::{
    at_most, history_add, remembered, without_title, HistoryItem, Mapping, Settings,
    MAX_HISTORY, SCAN_BACKOFF_SEQUENCE,
};
use crate::config::mappings::{entry_views, sorted_keys};
use crate::logic::title::{parse, parsed};
use crate::logic::{douyin_like, is_noise_clipboard, looks_like_douyin_share, noise};
use crate::text::{
    chars_of, eq_chars, parse_u32, parse_u32_chars, split, split_char, string_views, views,
};

verus! {

/// A phone that answered.
#[derive(Debug, Clone)]
pub struct Device {
    pub ip: String,
    pub name: String,
}

/// A device as plain values: address and name.
pub open spec fn device_view(d: Device) -> (Seq<char>, Seq<char>) {
    (d.ip@, d.name@)
}

pub open spec fn device_views(v: Seq<Device>) -> Seq<(Seq<char>, Seq<char>)> {
    v.map_values(|d: Device| device_view(d))
}

/// One dotted part of an address as a number; 0 when missing or not a
/// 32-bit number.
pub open spec fn ip_part(parts: Seq<Seq<char>>, i: int) -> u32 {
    if 0 <= i < parts.len() {
        match parse_u32(parts[i]) {
            Some(v) => v,
            None => 0,
        }
    } else {
        0
    }
}

/// The sort key of an address: its first four dotted parts as numbers.
pub open spec fn ip_key(ip: Seq<char>) -> (u32, u32, u32, u32) {
    let p = split(ip, '.');
    (ip_part(p, 0), ip_part(p, 1), ip_part(p, 2), ip_part(p, 3))
}

/// Lexicographic order of keys.
pub open spec fn key_lt(a: (u32, u32, u32, u32), b: (u32, u32, u32, u32)) -> bool {
    a.0 < b.0 || (a.0 == b.0 && (a.1 < b.1 || (a.1 == b.1 && (a.2 < b.2 || (a.2 == b.2 && a.3
        < b.3)))))
}

/// `s` (sorted by address key) with `d` inserted after every element whose
/// key is not greater: a stable insertion.
pub open spec fn insert_by_key(s: Seq<(Seq<char>, Seq<char>)>, d: (Seq<char>, Seq<char>)) -> Seq<
    (Seq<char>, Seq<char>),
>
    decreases s.len(),
{
    if s.len() == 0 {
        seq![d]
    } else if key_lt(ip_key(d.0), ip_key(s.last().0)) {
        insert_by_key(s.drop_last(), d).push(s.last())
    } else {
        s.push(d)
    }
}

/// Devices sorted by address key, equal keys kept in their order.
pub open spec fn sorted_by_ip(s: Seq<(Seq<char>, Seq<char>)>) -> Seq<(Seq<char>, Seq<char>)>
    decreases s.len(),
{
    if s.len() == 0 {
        s
    } else {
        insert_by_key(sorted_by_ip(s.drop_last()), s.last())
    }
}

/// The first position of a device with address `ip`.
pub open spec fn index_of_ip(s: Seq<(Seq<char>, Seq<char>)>, ip: Seq<char>) -> Option<nat>
    decreases s.len(),
{
    if s.len() == 0 {
        None
    } else if s[0].0 == ip {
        Some(0)
    } else {
        match index_of_ip(s.drop_first(), ip) {
            Some(i) => Some(i + 1),
            None => None,
        }
    }
}

/// The devices whose address is not in `ips`.
pub open spec fn online(s: Seq<(Seq<char>, Seq<char>)>, ips: Seq<Seq<char>>) -> Seq<
    (Seq<char>, Seq<char>),
>
    decreases s.len(),
{
    if s.len() == 0 {
        s
    } else if ips.contains(s.last().0) {
        online(s.drop_last(), ips)
    } else {
        online(s.drop_last(), ips).push(s.last())
    }
}

/// Known addresses after remembering each device's address in turn.
pub open spec fn remember_all(ips: Seq<Seq<char>>, s: Seq<(Seq<char>, Seq<char>)>) -> Seq<Seq<char>>
    decreases s.len(),
{
    if s.len() == 0 {
        ips
    } else {
        remember_all(remembered(ips, s[0].0), s.drop_first())
    }
}

/// The text shown for a title: the fast edition gets " - 极速".
pub open spec fn display_title(title: Seq<char>, fast: bool) -> Seq<char> {
    if fast {
        title + " - 极速"@
    } else {
        title
    }
}

/// What shared text shows, when it is a Douyin share with a title.
pub open spec fn share_display(text: Seq<char>) -> Option<Seq<char>> {
    if text.len() == 0 || noise(text) || !douyin_like(text) {
        None
    } else {
        match parsed(text) {
            Some(p) => Some(display_title(p.0, p.1)),
            None => None,
        }
    }
}

fn key_less(a: (u32, u32, u32, u32), b: (u32, u32, u32, u32)) -> (r: bool)
    ensures
        r == key_lt(a, b),
{
    a.0 < b.0 || (a.0 == b.0 && (a.1 < b.1 || (a.1 == b.1 && (a.2 < b.2 || (a.2 == b.2 && a.3
        < b.3)))))
}

/// The sort key of an address.
pub fn ip_sort_key(ip: &str) -> (k: (u32, u32, u32, u32))
    ensures
        k == ip_key(ip@),
{
    let parts = split_char(&chars_of(ip), '.');
    let ghost p = views(parts@);
    let mut key: [u32; 4] = [0, 0, 0, 0];
    let mut i: usize = 0;
    while i < 4
        invariant
            i <= 4,
            p == views(parts@),
            p == split(ip@, '.'),
            forall|j: int| 0 <= j < i ==> key@[j] == ip_part(p, j),
            forall|j: int| i <= j < 4 ==> key@[j] == 0,
        decreases 4 - i,
    {
        if i < parts.len() {
            let v = match parse_u32_chars(&parts[i]) {
                Some(v) => v,
                None => 0,
            };
            key[i] = v;
        }
        i += 1;
    }
    (key[0], key[1], key[2], key[3])
}

/// A copy of a character vector.
pub fn copy_chars(v: &Vec<char>) -> (r: Vec<char>)
    ensures
        r@ == v@,
{
    let r = crate::text::subvec(v, 0, v.len());
    assert(r@ =~= v@);
    r
}

fn copy_device(d: &Device) -> (r: Device)
    ensures
        device_view(r) == device_view(*d),
{
    Device { ip: d.ip.clone(), name: d.name.clone() }
}

/// Sorts devices by address key; devices with equal keys keep their order.
pub fn sort_devices(list: Vec<Device>) -> (r: Vec<Device>)
    ensures
        device_views(r@) == sorted_by_ip(device_views(list@)),
{
    let ghost all = device_views(list@);
    let mut out: Vec<Device> = Vec::new();
    let mut k: usize = 0;
    assert(all.take(0) =~= Seq::<(Seq<char>, Seq<char>)>::empty());
    assert(device_views(out@) =~= Seq::<(Seq<char>, Seq<char>)>::empty());
    while k < list.len()
        invariant
            k <= list.len(),
            all == device_views(list@),
            device_views(out@) == sorted_by_ip(all.take(k as int)),
        decreases list.len() - k,
    {
        assert(all.take(k + 1).drop_last() =~= all.take(k as int));
        let d = copy_device(&list[k]);
        let dk = ip_sort_key(d.ip.as_str());
        let ghost dv = device_view(d);
        let ghost o = device_views(out@);
        let mut j = out.len();
        assert(o.skip(j as int) =~= Seq::<(Seq<char>, Seq<char>)>::empty());
        assert(o.take(j as int) =~= o);
        while j > 0 && key_less(dk, ip_sort_key(out[j - 1].ip.as_str()))
            invariant
                j <= out.len(),
                o == device_views(out@),
                dk == ip_key(dv.0),
                insert_by_key(o, dv) == insert_by_key(o.take(j as int), dv) + o.skip(j as int),
            decreases j,
        {
            assert(o.take(j as int).drop_last() =~= o.take(j - 1));
            assert(o.take(j as int).last() == o[j - 1]);
            assert(insert_by_key(o.take(j - 1), dv) + o.skip(j - 1) =~= insert_by_key(
                o.take(j - 1),
                dv,
            ).push(o[j - 1]) + o.skip(j as int));
            j -= 1;
        }
        assert(insert_by_key(o.take(j as int), dv) == o.take(j as int).push(dv));
        proof {
            assert(device_views(out@.insert(j as int, d)) =~= o.take(j as int).push(dv) + o.skip(
                j as int,
            ));
        }
        out.insert(j, d);
        k += 1;
    }
    assert(all.take(k as int) =~= all);
    out
}

fn ip_position(devices: &Vec<Device>, ip: &Vec<char>) -> (r: Option<usize>)
    ensures
        match r {
            Some(i) => index_of_ip(device_views(devices@), ip@) == Some(i as nat) && i
                < devices@.len(),
            None => index_of_ip(device_views(devices@), ip@) is None,
        },
{
    let ghost v = device_views(devices@);
    let mut i: usize = 0;
    assert(v.skip(0) =~= v);
    while i < devices.len()
        invariant
            i <= devices.len(),
            v == device_views(devices@),
            index_of_ip(v, ip@) == match index_of_ip(v.skip(i as int), ip@) {
                Some(j) => Some(j + i as nat),
                None => None,
            },
        decreases devices.len() - i,
    {
        assert(v.skip(i as int).drop_first() =~= v.skip(i + 1));
        if eq_chars(&chars_of(devices[i].ip.as_str()), ip) {
            return Some(i);
        }
        i += 1;
    }
    None
}

/// The session state machine.
pub struct Session {
    pub devices: Vec<Device>,
    pub current_index: usize,
    pub settings: Settings,
    pub history: Vec<HistoryItem>,
    pub mappings: Vec<Mapping>,
    /// Position in `SCAN_BACKOFF_SEQUENCE` of the next scan delay.
    pub backoff_idx: usize,
    /// A scan is running.
    pub discovering: bool,
}

/// Every setting but the known addresses is the same in `a` and `b`.
pub open spec fn same_except_known(a: Settings, b: Settings) -> bool {
    &&& a.auto_scan == b.auto_scan
    &&& a.hotkey == b.hotkey
    &&& a.hotkey_enabled == b.hotkey_enabled
    &&& a.mapping_enabled == b.mapping_enabled
    &&& a.show_name_btn == b.show_name_btn
    &&& a.auto_push == b.auto_push
    &&& a.clear_clipboard == b.clear_clipboard
    &&& a.clipboard_materialize == b.clipboard_materialize
    &&& a.autostart == b.autostart
    &&& a.scale_multiplier_bits == b.scale_multiplier_bits
}

/// Session `b` is session `a` after recording the device `(ip, name)` that
/// answered (`is_new` when no device had that address): the device is
/// selected (inserted in address order when new), its address remembered,
/// the back-off restarted; nothing else changes.
pub open spec fn upserted(a: Session, b: Session, ip: Seq<char>, name: Seq<char>, is_new: bool) -> bool {
    &&& b.backoff_idx == 0
    &&& string_views(b.settings.known_ips@) == remembered(string_views(a.settings.known_ips@), ip)
    &&& same_except_known(a.settings, b.settings)
    &&& b.history == a.history
    &&& b.mappings == a.mappings
    &&& b.discovering == a.discovering
    &&& match index_of_ip(device_views(a.devices@), ip) {
        Some(i) => !is_new && device_views(b.devices@) == device_views(a.devices@) && b.current_index
            == i,
        None => is_new && device_views(b.devices@) == sorted_by_ip(
            device_views(a.devices@).push((ip, name)),
        ) && index_of_ip(device_views(b.devices@), ip) == Some(b.current_index as nat),
    }
}

/// Session `b` is session `a` after dropping the devices whose address is in
/// `ips` (`changed` when any was dropped). The selection moves to the last
/// device when it fell off the end, or to the first when the selected device
/// was dropped; nothing else changes.
pub open spec fn offline_removed(a: Session, b: Session, ips: Seq<Seq<char>>, changed: bool) -> bool {
    &&& device_views(b.devices@) == online(device_views(a.devices@), ips)
    &&& changed == (b.devices@.len() != a.devices@.len())
    &&& b.current_index == if !changed {
        a.current_index
    } else if a.current_index >= b.devices@.len() {
        if b.devices@.len() == 0 {
            0
        } else {
            (b.devices@.len() - 1) as usize
        }
    } else if (match a.current_ip_view() {
        Some(c) => ips.contains(c),
        None => false,
    }) {
        0
    } else {
        a.current_index
    }
    &&& b.settings == a.settings
    &&& b.history == a.history
    &&& b.mappings == a.mappings
    &&& b.backoff_idx == a.backoff_idx
    &&& b.discovering == a.discovering
}

/// Session `b` is session `a` after a scan found `list` (`changed` when the
/// settings changed): the devices sorted by address; the selected device kept
/// selected when still there; otherwise the first selected and, when any was
/// found, the back-off restarted and every address remembered. History and
/// mappings stay.
pub open spec fn scan_applied(a: Session, b: Session, list: Seq<(Seq<char>, Seq<char>)>, changed: bool) -> bool {
    let kept = match a.current_ip_view() {
        Some(c) => index_of_ip(device_views(b.devices@), c),
        None => None,
    };
    &&& device_views(b.devices@) == sorted_by_ip(list)
    &&& b.history == a.history
    &&& b.mappings == a.mappings
    &&& changed == (kept is None && b.devices@.len() > 0)
    &&& match kept {
        Some(i) => b.current_index == i && b.backoff_idx == a.backoff_idx && b.settings == a.settings,
        None => b.current_index == 0 && if b.devices@.len() > 0 {
            &&& b.backoff_idx == 0
            &&& string_views(b.settings.known_ips@) == remember_all(
                string_views(a.settings.known_ips@),
                device_views(b.devices@),
            )
            &&& same_except_known(a.settings, b.settings)
        } else {
            b.backoff_idx == a.backoff_idx && b.settings == a.settings
        },
    }
}

impl Session {
    /// Well-formed: the back-off step indexes `SCAN_BACKOFF_SEQUENCE`, and
    /// the mapping keys strictly increase, so no key occurs twice.
    pub open spec fn wf(&self) -> bool {
        &&& self.backoff_idx < SCAN_BACKOFF_SEQUENCE.len()
        &&& sorted_keys(entry_views(self.mappings@))
    }

    /// The selection names a device whenever there is one.
    pub open spec fn selection_ok(&self) -> bool {
        self.devices@.len() > 0 ==> self.current_index < self.devices@.len()
    }

    /// No two devices have the same address.
    pub open spec fn ips_distinct(&self) -> bool {
        distinct_ips(device_views(self.devices@))
    }

    /// Position in `SCAN_BACKOFF_SEQUENCE` of the next scan delay.
    pub open spec fn backoff_step(&self) -> nat {
        self.backoff_idx as nat
    }

    pub open spec fn discovering_view(&self) -> bool {
        self.discovering
    }

    /// The address of the selected device.
    pub open spec fn current_ip_view(&self) -> Option<Seq<char>> {
        if self.current_index < self.devices@.len() {
            Some(self.devices@[self.current_index as int].ip@)
        } else {
            None
        }
    }

    /// A session over stored settings, history and mappings, with no device
    /// found yet.
    pub fn new(settings: Settings, history: Vec<HistoryItem>, mappings: Vec<Mapping>) -> (s: Self)
        requires
            sorted_keys(entry_views(mappings@)),
        ensures
            s.wf(),
            s.selection_ok(),
            s.ips_distinct(),
            s.devices@.len() == 0,
            s.current_index == 0,
            s.settings == settings,
            s.history == history,
            s.mappings == mappings,
            s.backoff_step() == 0,
            !s.discovering_view(),
    {
        Session {
            devices: Vec::new(),
            current_index: 0,
            settings,
            history,
            mappings,
            backoff_idx: 0,
            discovering: false,
        }
    }

    /// The selected device.
    pub fn current(&self) -> (r: Option<&Device>)
        ensures
            self.current_index < self.devices@.len() ==> r == Some(
                &self.devices@[self.current_index as int],
            ),
            self.current_index >= self.devices@.len() ==> r is None,
    {
        if self.current_index < self.devices.len() {
            Some(&self.devices[self.current_index])
        } else {
            None
        }
    }

    /// The address of the selected device.
    pub fn current_ip(&self) -> (r: Option<&str>)
        ensures
            match r {
                Some(s) => self.current_ip_view() == Some(s@),
                None => self.current_ip_view() is None,
            },
    {
        if self.current_index < self.devices.len() {
            Some(self.devices[self.current_index].ip.as_str())
        } else {
            None
        }
    }

    /// The name of the selected device.
    pub fn current_name(&self) -> (r: Option<&str>)
        ensures
            self.current_index < self.devices@.len() ==> (r matches Some(s) && s@
                == self.devices@[self.current_index as int].name@),
            self.current_index >= self.devices@.len() ==> r is None,
    {
        if self.current_index < self.devices.len() {
            Some(self.devices[self.current_index].name.as_str())
        } else {
            None
        }
    }

    pub fn set_discovering(&mut self, v: bool)
        requires
            old(self).wf(),
        ensures
            final(self).wf(),
            final(self).discovering_view() == v,
            final(self).devices == old(self).devices,
            final(self).current_index == old(self).current_index,
            final(self).settings == old(self).settings,
            final(self).history == old(self).history,
            final(self).mappings == old(self).mappings,
            final(self).backoff_step() == old(self).backoff_step(),
    {
        self.discovering = v;
    }

    pub fn is_discovering(&self) -> (b: bool)
        ensures
            b == self.discovering_view(),
    {
        self.discovering
    }

    /// Restarts the scan back-off at its first step.
    pub fn reset_backoff(&mut self)
        requires
            old(self).wf(),
        ensures
            final(self).wf(),
            final(self).backoff_step() == 0,
            final(self).discovering_view() == old(self).discovering_view(),
            final(self).devices == old(self).devices,
            final(self).current_index == old(self).current_index,
            final(self).settings == old(self).settings,
            final(self).history == old(self).history,
            final(self).mappings == old(self).mappings,
    {
        self.backoff_idx = 0;
    }

    /// Moves the scan back-off one step on, staying at the last step.
    pub fn advance_backoff(&mut self)
        requires
            old(self).wf(),
        ensures
            final(self).wf(),
            final(self).backoff_step() == next_step(old(self).backoff_step()),
            final(self).discovering_view() == old(self).discovering_view(),
            final(self).devices == old(self).devices,
            final(self).current_index == old(self).current_index,
            final(self).settings == old(self).settings,
            final(self).history == old(self).history,
            final(self).mappings == old(self).mappings,
    {
        if self.backoff_idx < SCAN_BACKOFF_SEQUENCE.len() - 1 {
            self.backoff_idx += 1;
        }
    }

    /// Seconds until the next automatic scan.
    pub fn current_backoff_secs(&self) -> (s: u64)
        requires
            self.wf(),
        ensures
            s == SCAN_BACKOFF_SEQUENCE@[self.backoff_step() as int],
    {
        SCAN_BACKOFF_SEQUENCE[self.backoff_idx]
    }

    /// Records a device that answered and selects it; returns whether it
    /// is new. The address is remembered in the settings, which the caller
    /// then saves.
    pub fn upsert_device(&mut self, ip: &str, name: &str) -> (is_new: bool)
        requires
            old(self).wf(),
        ensures
            final(self).wf(),
            final(self).selection_ok(),
            old(self).ips_distinct() ==> final(self).ips_distinct(),
            upserted(*old(self), *final(self), ip@, name@, is_new),
    {
        self.settings.remember_ip(ip);
        let target = chars_of(ip);
        match ip_position(&self.devices, &target) {
            Some(i) => {
                self.current_index = i;
                self.reset_backoff();
                return false;
            },
            None => {},
        }
        let mut list: Vec<Device> = Vec::new();
        let ghost old_views = device_views(self.devices@);
        let mut k: usize = 0;
        while k < self.devices.len()
            invariant
                k <= self.devices.len(),
                old_views == device_views(self.devices@),
                device_views(list@) == old_views.take(k as int),
            decreases self.devices.len() - k,
        {
            let d = copy_device(&self.devices[k]);
            assert(device_views(list@.push(d)) =~= device_views(list@).push(device_view(d)));
            assert(old_views.take(k + 1) =~= old_views.take(k as int).push(old_views[k as int]));
            list.push(d);
            k += 1;
        }
        assert(old_views.take(k as int) =~= old_views);
        let d = Device { ip: ip.to_string(), name: name.to_string() };
        assert(device_views(list@.push(d)) =~= device_views(list@).push(device_view(d)));
        list.push(d);
        assert(device_views(list@) =~= old_views.push((ip@, name@)));
        self.devices = sort_devices(list);
        proof {
            lemma_sorted_keeps(old_views.push((ip@, name@)), ip@);
            if distinct_ips(old_views) {
                lemma_index_of_ip(old_views, ip@);
                let pushed = old_views.push((ip@, name@));
                assert forall|i: int, j: int| 0 <= i < j < pushed.len() implies #[trigger] pushed[i].0
                    != #[trigger] pushed[j].0 by {
                    assert(pushed[i] == old_views[i]);
                    if j < old_views.len() {
                        assert(pushed[j] == old_views[j]);
                    }
                };
                lemma_sorted_distinct(pushed);
            }
        }
        match ip_position(&self.devices, &target) {
            Some(i) => {
                self.current_index = i;
            },
            None => {},
        }
        self.reset_backoff();
        true
    }

    /// Replaces the device list with a scan result, keeping the selected
    /// device selected when it is still there. Otherwise the first device is
    /// selected, and when any was found the back-off restarts and every
    /// address is remembered in the settings; the result tells whether the
    /// settings changed, for the caller to save them.
    pub fn set_scan_result(&mut self, list: Vec<Device>) -> (settings_changed: bool)
        requires
            old(self).wf(),
        ensures
            final(self).wf(),
            final(self).selection_ok(),
            distinct_ips(device_views(list@)) ==> final(self).ips_distinct(),
            scan_applied(*old(self), *final(self), device_views(list@), settings_changed),
            final(self).discovering_view() == old(self).discovering_view(),
    {
        let old_ip: Option<Vec<char>> = match self.current_ip() {
            Some(s) => Some(chars_of(s)),
            None => None,
        };
        let ghost listed = device_views(list@);
        self.devices = sort_devices(list);
        proof {
            if distinct_ips(listed) {
                lemma_sorted_distinct(listed);
            }
        }
        match &old_ip {
            Some(ip) => {
                match ip_position(&self.devices, ip) {
                    Some(i) => {
                        self.current_index = i;
                        return false;
                    },
                    None => {},
                }
            },
            None => {},
        }
        self.current_index = 0;
        if self.devices.len() > 0 {
            self.reset_backoff();
            let ghost all = device_views(self.devices@);
            let ghost start = string_views(self.settings.known_ips@);
            let mut k: usize = 0;
            assert(all.skip(0) =~= all);
            while k < self.devices.len()
                invariant
                    k <= self.devices.len(),
                    all == device_views(self.devices@),
                    remember_all(start, all) == remember_all(
                        string_views(self.settings.known_ips@),
                        all.skip(k as int),
                    ),
                    self.wf(),
                    self.backoff_step() == 0,
                    self.current_index == 0,
                    self.history == old(self).history,
                    self.mappings == old(self).mappings,
                    self.discovering_view() == old(self).discovering_view(),
                    same_except_known(old(self).settings, self.settings),
                decreases self.devices.len() - k,
            {
                assert(all.skip(k as int).drop_first() =~= all.skip(k + 1));
                let ip = self.devices[k].ip.clone();
                self.settings.remember_ip(ip.as_str());
                k += 1;
            }
            return true;
        }
        false
    }

    /// Drops devices whose address is in `ips` (they missed a heartbeat);
    /// returns whether any was dropped. The selection moves to the last
    /// device when it fell off the end, or to the first when the selected
    /// device was dropped.
    pub fn remove_offline(&mut self, ips: &[String]) -> (changed: bool)
        requires
            old(self).wf(),
        ensures
            final(self).wf(),
            old(self).selection_ok() ==> final(self).selection_ok(),
            old(self).ips_distinct() ==> final(self).ips_distinct(),
            offline_removed(*old(self), *final(self), string_views(ips@), changed),
    {
        let ghost gone = string_views(ips@);
        let before = self.devices.len();
        let removed_current = match self.current_ip() {
            Some(ip) => contains_string(ips, ip),
            None => false,
        };
        let ghost all = device_views(self.devices@);
        let mut kept: Vec<Device> = Vec::new();
        let mut k: usize = 0;
        assert(all.take(0) =~= Seq::<(Seq<char>, Seq<char>)>::empty());
        assert(device_views(kept@) =~= Seq::<(Seq<char>, Seq<char>)>::empty());
        while k < self.devices.len()
            invariant
                k <= self.devices.len(),
                all == device_views(self.devices@),
                gone == string_views(ips@),
                device_views(kept@) == online(all.take(k as int), gone),
            decreases self.devices.len() - k,
        {
            assert(all.take(k + 1).drop_last() =~= all.take(k as int));
            if !contains_string(ips, self.devices[k].ip.as_str()) {
                let d = copy_device(&self.devices[k]);
                assert(device_views(kept@.push(d)) =~= device_views(kept@).push(all[k as int]));
                kept.push(d);
            }
            k += 1;
        }
        assert(all.take(k as int) =~= all);
        proof {
            if distinct_ips(all) {
                lemma_online_distinct(all, gone);
            }
        }
        self.devices = kept;
        if self.devices.len() == before {
            return false;
        }
        if self.current_index >= self.devices.len() {
            self.current_index = if self.devices.len() == 0 {
                0
            } else {
                self.devices.len() - 1
            };
        } else if removed_current {
            self.current_index = 0;
        }
        true
    }

    /// Takes clipboard or shared text: when it is a Douyin share with a
    /// title, records it in the history (which the caller then saves) and
    /// returns the text to show; otherwise `None` and nothing changes.
    pub fn ingest_share_text(&mut self, text: &str) -> (r: Option<String>)
        requires
            old(self).wf(),
        ensures
            final(self).wf(),
            match r {
                Some(d) => share_display(text@) == Some(d@),
                None => share_display(text@) is None,
            },
            share_display(text@) is None ==> final(self).history == old(self).history,
            share_display(text@) is Some ==> ({
                let t = parsed(text@).unwrap().0;
                &&& final(self).history@.len() >= 1
                &&& final(self).history@[0].text@ == text@
                &&& final(self).history@[0].title@ == t
                &&& exists|secs: u64| final(self).history@[0].time@ == decimal(secs as nat)
                &&& final(self).history@.drop_first() == at_most(
                    without_title(old(self).history@, t),
                    (MAX_HISTORY - 1) as nat,
                )
            }),
            final(self).devices == old(self).devices,
            final(self).current_index == old(self).current_index,
            final(self).settings == old(self).settings,
            final(self).mappings == old(self).mappings,
            final(self).backoff_step() == old(self).backoff_step(),
            final(self).discovering_view() == old(self).discovering_view(),
    {
        if text.is_empty() || is_noise_clipboard(text) || !looks_like_douyin_share(text) {
            return None;
        }
        let p = match parse(text) {
            Some(p) => p,
            None => {
                return None;
            },
        };
        let display = if p.is_fast {
            p.title.clone().concat(" - 极速")
        } else {
            p.title.clone()
        };
        history_add(&mut self.history, text, p.title.as_str());
        Some(display)
    }

    /// The text to show for a history entry: its title (with " - 极速" for
    /// the fast edition), or the text itself when no title is found.
    pub fn display_for_history(&self, text: &str) -> (r: String)
        ensures
            r@ == match parsed(text@) {
                Some(p) => display_title(p.0, p.1),
                None => text@,
            },
    {
        match parse(text) {
            Some(p) => {
                if p.is_fast {
                    p.title.concat(" - 极速")
                } else {
                    p.title
                }
            },
            None => text.to_string(),
        }
    }
}

/// Whether `s` is one of `list`.
fn contains_string(list: &[String], s: &str) -> (b: bool)
    ensures
        b == string_views(list@).contains(s@),
{
    let target = chars_of(s);
    let mut k: usize = 0;
    while k < list.len()
        invariant
            k <= list@.len(),
            target@ == s@,
            forall|m: int| 0 <= m < k ==> list@[m]@ != s@,
        decreases list@.len() - k,
    {
        if eq_chars(&chars_of(list[k].as_str()), &target) {
            assert(string_views(list@)[k as int] == s@);
            return true;
        }
        k += 1;
    }
    assert forall|m: int| 0 <= m < string_views(list@).len() implies string_views(list@)[m] != s@ by {
        assert(string_views(list@)[m] == list@[m]@);
    };
    false
}

/// Inserting keeps every element and adds `d`.
proof fn lemma_insert_contains(s: Seq<(Seq<char>, Seq<char>)>, d: (Seq<char>, Seq<char>))
    ensures
        insert_by_key(s, d).contains(d),
    decreases s.len(),
{
    if s.len() > 0 && key_lt(ip_key(d.0), ip_key(s.last().0)) {
        lemma_insert_contains(s.drop_last(), d);
        let t = insert_by_key(s.drop_last(), d);
        let i = choose|i: int| 0 <= i < t.len() && t[i] == d;
        assert(t.push(s.last())[i] == d);
    } else if s.len() > 0 {
        assert(s.push(d)[s.len() as int] == d);
    } else {
        assert(seq![d][0] == d);
    }
}

/// The device list after recording a new device holds its address.
pub proof fn lemma_sorted_keeps_ip(s: Seq<(Seq<char>, Seq<char>)>, ip: Seq<char>, name: Seq<char>)
    ensures
        index_of_ip(sorted_by_ip(s.push((ip, name))), ip) is Some,
{
    lemma_sorted_keeps(s.push((ip, name)), ip);
}

/// Sorting keeps the address `ip` when the last device has it.
proof fn lemma_sorted_keeps(s: Seq<(Seq<char>, Seq<char>)>, ip: Seq<char>)
    requires
        s.len() > 0,
        s.last().0 == ip,
    ensures
        index_of_ip(sorted_by_ip(s), ip) is Some,
{
    lemma_insert_contains(sorted_by_ip(s.drop_last()), s.last());
    let t = sorted_by_ip(s);
    let i = choose|i: int| 0 <= i < t.len() && t[i] == s.last();
    lemma_index_of_some(t, ip, i);
}

proof fn lemma_index_of_some(s: Seq<(Seq<char>, Seq<char>)>, ip: Seq<char>, i: int)
    requires
        0 <= i < s.len(),
        s[i].0 == ip,
    ensures
        index_of_ip(s, ip) is Some,
    decreases s.len(),
{
    if s[0].0 != ip {
        lemma_index_of_some(s.drop_first(), ip, i - 1);
    }
}

/// Address keys never decrease along `s`.
pub open spec fn keys_ascending(s: Seq<(Seq<char>, Seq<char>)>) -> bool {
    forall|i: int, j: int| 0 <= i < j < s.len() ==> !key_lt(ip_key(#[trigger] s[j].0), ip_key(#[trigger] s[i].0))
}

proof fn lemma_insert_by_key(s: Seq<(Seq<char>, Seq<char>)>, d: (Seq<char>, Seq<char>))
    requires
        keys_ascending(s),
    ensures
        keys_ascending(insert_by_key(s, d)),
        insert_by_key(s, d).to_multiset() == s.to_multiset().insert(d),
        forall|i: int|
            0 <= i < insert_by_key(s, d).len() ==> #[trigger] insert_by_key(s, d)[i] == d || exists|j: int|
                0 <= j < s.len() && insert_by_key(s, d)[i] == s[j],
    decreases s.len(),
{
    broadcast use vstd::seq_lib::group_to_multiset_ensures;

    let r = insert_by_key(s, d);
    if s.len() == 0 {
        assert(r =~= Seq::<(Seq<char>, Seq<char>)>::empty().push(d));
    } else if key_lt(ip_key(d.0), ip_key(s.last().0)) {
        let init = s.drop_last();
        assert(keys_ascending(init)) by {
            assert forall|i: int, j: int| 0 <= i < j < init.len() implies !key_lt(ip_key(#[trigger] init[j].0), ip_key(#[trigger] init[i].0)) by {
                assert(init[i] == s[i]);
                assert(init[j] == s[j]);
            };
        };
        lemma_insert_by_key(init, d);
        let t = insert_by_key(init, d);
        assert(r == t.push(s.last()));
        assert forall|i: int| 0 <= i < t.len() implies !key_lt(ip_key(s.last().0), ip_key(#[trigger] t[i].0)) by {
            if t[i] != d {
                let j = choose|j: int| 0 <= j < init.len() && t[i] == init[j];
                assert(init[j] == s[j]);
                assert(s[s.len() - 1] == s.last());
            }
        };
        assert forall|i: int, j: int| 0 <= i < j < r.len() implies !key_lt(ip_key(#[trigger] r[j].0), ip_key(#[trigger] r[i].0)) by {
            assert(r[i] == t[i]);
            if j < t.len() {
                assert(r[j] == t[j]);
            }
        };
        assert(s =~= init.push(s.last()));
        assert(r.to_multiset() =~= s.to_multiset().insert(d));
        assert forall|i: int| 0 <= i < r.len() implies #[trigger] r[i] == d || exists|j: int|
            0 <= j < s.len() && r[i] == s[j] by {
            if i < t.len() {
                assert(r[i] == t[i]);
                if t[i] != d {
                    let j = choose|j: int| 0 <= j < init.len() && t[i] == init[j];
                    assert(init[j] == s[j]);
                }
            } else {
                assert(r[i] == s[s.len() - 1]);
            }
        };
    } else {
        assert(r == s.push(d));
        assert forall|i: int, j: int| 0 <= i < j < r.len() implies !key_lt(ip_key(#[trigger] r[j].0), ip_key(#[trigger] r[i].0)) by {
            assert(r[i] == s[i]);
            if j < s.len() {
                assert(r[j] == s[j]);
            } else {
                assert(s[s.len() - 1] == s.last());
            }
        };
        assert forall|i: int| 0 <= i < r.len() implies #[trigger] r[i] == d || exists|j: int|
            0 <= j < s.len() && r[i] == s[j] by {
            if i < s.len() {
                assert(r[i] == s[i]);
            }
        };
    }
}

/// Sorting devices orders them by address key and keeps exactly the same
/// devices.
pub proof fn lemma_sorted_by_ip(s: Seq<(Seq<char>, Seq<char>)>)
    ensures
        keys_ascending(sorted_by_ip(s)),
        sorted_by_ip(s).to_multiset() == s.to_multiset(),
    decreases s.len(),
{
    broadcast use vstd::seq_lib::group_to_multiset_ensures;

    if s.len() > 0 {
        lemma_sorted_by_ip(s.drop_last());
        lemma_insert_by_key(sorted_by_ip(s.drop_last()), s.last());
        assert(s =~= s.drop_last().push(s.last()));
    }
}

/// `index_of_ip` names the first device with the address, or says none has it.
pub proof fn lemma_index_of_ip(s: Seq<(Seq<char>, Seq<char>)>, ip: Seq<char>)
    ensures
        index_of_ip(s, ip) matches Some(i) ==> i < s.len() && s[i as int].0 == ip && forall|j: int|
            0 <= j < i ==> s[j].0 != ip,
        index_of_ip(s, ip) is None ==> forall|j: int| 0 <= j < s.len() ==> s[j].0 != ip,
    decreases s.len(),
{
    if s.len() > 0 && s[0].0 != ip {
        lemma_index_of_ip(s.drop_first(), ip);
        assert forall|j: int| 1 <= j < s.len() implies s[j].0 == s.drop_first()[j - 1].0 by {};
    }
}

/// After a device is recorded, the selected device is the one with that
/// address.
pub proof fn lemma_upsert_selects(s: Seq<(Seq<char>, Seq<char>)>, ip: Seq<char>, i: nat)
    requires
        index_of_ip(s, ip) == Some(i),
    ensures
        i < s.len(),
        s[i as int].0 == ip,
{
    lemma_index_of_ip(s, ip);
}

/// No device left after dropping the offline ones has an offline address.
pub proof fn lemma_online_excludes(s: Seq<(Seq<char>, Seq<char>)>, ips: Seq<Seq<char>>)
    ensures
        forall|i: int| 0 <= i < online(s, ips).len() ==> !ips.contains(#[trigger] online(s, ips)[i].0),
    decreases s.len(),
{
    if s.len() > 0 {
        lemma_online_excludes(s.drop_last(), ips);
        let t = online(s.drop_last(), ips);
        if !ips.contains(s.last().0) {
            assert forall|i: int| 0 <= i < t.push(s.last()).len() implies !ips.contains(#[trigger] t.push(s.last())[i].0) by {
                if i < t.len() {
                    assert(t.push(s.last())[i] == t[i]);
                }
            };
        }
    }
}

/// No address appears twice.
pub open spec fn distinct_ips(s: Seq<(Seq<char>, Seq<char>)>) -> bool {
    forall|i: int, j: int| 0 <= i < j < s.len() ==> #[trigger] s[i].0 != #[trigger] s[j].0
}

/// Whether some device has the address `ip`.
pub open spec fn has_ip(s: Seq<(Seq<char>, Seq<char>)>, ip: Seq<char>) -> bool {
    exists|j: int| 0 <= j < s.len() && #[trigger] s[j].0 == ip
}

/// Every device after an insertion is the inserted one or was there.
proof fn lemma_insert_from(s: Seq<(Seq<char>, Seq<char>)>, d: (Seq<char>, Seq<char>))
    ensures
        forall|i: int|
            0 <= i < insert_by_key(s, d).len() ==> #[trigger] insert_by_key(s, d)[i] == d || exists|j: int|
                0 <= j < s.len() && insert_by_key(s, d)[i] == s[j],
    decreases s.len(),
{
    let r = insert_by_key(s, d);
    if s.len() > 0 && key_lt(ip_key(d.0), ip_key(s.last().0)) {
        let init = s.drop_last();
        lemma_insert_from(init, d);
        let t = insert_by_key(init, d);
        assert forall|i: int| 0 <= i < r.len() implies #[trigger] r[i] == d || exists|j: int|
            0 <= j < s.len() && r[i] == s[j] by {
            if i < t.len() {
                assert(r[i] == t[i]);
                if t[i] != d {
                    let j = choose|j: int| 0 <= j < init.len() && t[i] == init[j];
                    assert(init[j] == s[j]);
                }
            } else {
                assert(r[i] == s[s.len() - 1]);
            }
        };
    } else if s.len() > 0 {
        assert forall|i: int| 0 <= i < r.len() implies #[trigger] r[i] == d || exists|j: int|
            0 <= j < s.len() && r[i] == s[j] by {
            if i < s.len() {
                assert(r[i] == s[i]);
            }
        };
    } else {
        assert forall|i: int| 0 <= i < r.len() implies #[trigger] r[i] == d || exists|j: int|
            0 <= j < s.len() && r[i] == s[j] by {
            assert(r[i] == d);
        };
    }
}

/// Inserting a device with a new address keeps the addresses distinct.
proof fn lemma_insert_distinct(s: Seq<(Seq<char>, Seq<char>)>, d: (Seq<char>, Seq<char>))
    requires
        distinct_ips(s),
        !has_ip(s, d.0),
    ensures
        distinct_ips(insert_by_key(s, d)),
    decreases s.len(),
{
    let r = insert_by_key(s, d);
    if s.len() > 0 && key_lt(ip_key(d.0), ip_key(s.last().0)) {
        let init = s.drop_last();
        assert(distinct_ips(init)) by {
            assert forall|i: int, j: int| 0 <= i < j < init.len() implies #[trigger] init[i].0
                != #[trigger] init[j].0 by {
                assert(init[i] == s[i] && init[j] == s[j]);
            };
        };
        assert(!has_ip(init, d.0)) by {
            if has_ip(init, d.0) {
                let j = choose|j: int| 0 <= j < init.len() && #[trigger] init[j].0 == d.0;
                assert(s[j].0 == d.0);
            }
        };
        lemma_insert_distinct(init, d);
        lemma_insert_from(init, d);
        let t = insert_by_key(init, d);
        let last = s[s.len() - 1];
        assert(r == t.push(last));
        assert forall|i: int| 0 <= i < t.len() implies #[trigger] t[i].0 != last.0 by {
            if t[i] == d {
                assert(s[s.len() - 1].0 == last.0);
            } else {
                let j = choose|j: int| 0 <= j < init.len() && t[i] == init[j];
                assert(init[j] == s[j]);
            }
        };
        assert forall|i: int, j: int| 0 <= i < j < r.len() implies #[trigger] r[i].0 != #[trigger] r[j].0 by {
            assert(r[i] == t[i]);
            if j < t.len() {
                assert(r[j] == t[j]);
            }
        };
    } else if s.len() > 0 {
        assert(r == s.push(d));
        assert forall|i: int, j: int| 0 <= i < j < r.len() implies #[trigger] r[i].0 != #[trigger] r[j].0 by {
            assert(r[i] == s[i]);
            if j < s.len() {
                assert(r[j] == s[j]);
            }
        };
    }
}

/// Every device of the sorted list comes from the list.
proof fn lemma_sorted_from(s: Seq<(Seq<char>, Seq<char>)>)
    ensures
        forall|i: int| 0 <= i < sorted_by_ip(s).len() ==> exists|j: int| 0 <= j < s.len() && #[trigger] sorted_by_ip(s)[i] == s[j],
    decreases s.len(),
{
    if s.len() > 0 {
        let init = s.drop_last();
        lemma_sorted_from(init);
        lemma_insert_from(sorted_by_ip(init), s.last());
        let t = sorted_by_ip(init);
        let r = sorted_by_ip(s);
        assert forall|i: int| 0 <= i < r.len() implies exists|j: int| 0 <= j < s.len() && #[trigger] r[i] == s[j] by {
            if r[i] == s.last() {
                assert(r[i] == s[s.len() - 1]);
            } else {
                let k = choose|k: int| 0 <= k < t.len() && r[i] == t[k];
                let j = choose|j: int| 0 <= j < init.len() && #[trigger] t[k] == init[j];
                assert(init[j] == s[j]);
            }
        };
    }
}

/// Sorting keeps the addresses distinct.
pub proof fn lemma_sorted_distinct(s: Seq<(Seq<char>, Seq<char>)>)
    requires
        distinct_ips(s),
    ensures
        distinct_ips(sorted_by_ip(s)),
    decreases s.len(),
{
    if s.len() > 0 {
        let init = s.drop_last();
        assert(distinct_ips(init)) by {
            assert forall|i: int, j: int| 0 <= i < j < init.len() implies #[trigger] init[i].0
                != #[trigger] init[j].0 by {
                assert(init[i] == s[i] && init[j] == s[j]);
            };
        };
        lemma_sorted_distinct(init);
        lemma_sorted_from(init);
        let t = sorted_by_ip(init);
        assert(!has_ip(t, s.last().0)) by {
            if has_ip(t, s.last().0) {
                let k = choose|k: int| 0 <= k < t.len() && #[trigger] t[k].0 == s.last().0;
                let j = choose|j: int| 0 <= j < init.len() && #[trigger] t[k] == init[j];
                assert(init[j] == s[j]);
                assert(s[s.len() - 1] == s.last());
            }
        };
        lemma_insert_distinct(t, s.last());
    }
}

/// Dropping offline devices keeps the addresses distinct.
pub proof fn lemma_online_distinct(s: Seq<(Seq<char>, Seq<char>)>, ips: Seq<Seq<char>>)
    requires
        distinct_ips(s),
    ensures
        distinct_ips(online(s, ips)),
        forall|i: int| 0 <= i < online(s, ips).len() ==> exists|j: int| 0 <= j < s.len() && #[trigger] online(s, ips)[i] == s[j],
    decreases s.len(),
{
    if s.len() > 0 {
        let init = s.drop_last();
        assert(distinct_ips(init)) by {
            assert forall|i: int, j: int| 0 <= i < j < init.len() implies #[trigger] init[i].0
                != #[trigger] init[j].0 by {
                assert(init[i] == s[i] && init[j] == s[j]);
            };
        };
        lemma_online_distinct(init, ips);
        let t = online(init, ips);
        let r = online(s, ips);
        assert forall|i: int| 0 <= i < t.len() implies exists|j: int| 0 <= j < s.len() && #[trigger] t[i] == s[j] by {
            let j = choose|j: int| 0 <= j < init.len() && #[trigger] t[i] == init[j];
            assert(init[j] == s[j]);
        };
        if !ips.contains(s.last().0) {
            let last = s[s.len() - 1];
            assert forall|i: int| 0 <= i < t.len() implies #[trigger] t[i].0 != last.0 by {
                let j = choose|j: int| 0 <= j < init.len() && #[trigger] t[i] == init[j];
                assert(init[j] == s[j]);
            };
            assert forall|i: int, j: int| 0 <= i < j < r.len() implies #[trigger] r[i].0 != #[trigger] r[j].0 by {
                assert(r[i] == t[i]);
                if j < t.len() {
                    assert(r[j] == t[j]);
                }
            };
            assert forall|i: int| 0 <= i < r.len() implies exists|j: int| 0 <= j < s.len() && #[trigger] r[i] == s[j] by {
                if i < t.len() {
                    assert(r[i] == t[i]);
                } else {
                    assert(r[i] == s[s.len() - 1]);
                }
            };
        }
    }
}

/// The back-off step after one more scan that found nothing: the next
/// delay of `SCAN_BACKOFF_SEQUENCE`, staying on the last one.
pub open spec fn next_step(step: nat) -> nat {
    if step + 1 < SCAN_BACKOFF_SEQUENCE.len() {
        step + 1
    } else {
        step
    }
}

/// The back-off step after `k` scans that found nothing, from `step`.
pub open spec fn steps_after(step: nat, k: nat) -> nat
    decreases k,
{
    if k == 0 {
        step
    } else {
        next_step(steps_after(step, (k - 1) as nat))
    }
}

/// After a reset and `k` scans that found nothing, the delay is the
/// `min(k, 9)`-th of 5, 5, 5, 5, 5, 5, 10, 15, 30, 60 seconds: it never
/// decreases as `k` grows and never exceeds 60.
pub proof fn lemma_backoff_after(j: nat, k: nat)
    requires
        j <= k,
    ensures
        steps_after(0, k) == if k < 9 {
            k
        } else {
            9
        },
        5 <= SCAN_BACKOFF_SEQUENCE@[steps_after(0, k) as int] <= 60,
        SCAN_BACKOFF_SEQUENCE@[steps_after(0, j) as int] <= SCAN_BACKOFF_SEQUENCE@[steps_after(0, k) as int],
    decreases k,
{
    if k > 0 {
        if j < k {
            lemma_backoff_after(j, (k - 1) as nat);
        } else {
            lemma_backoff_after((k - 1) as nat, (k - 1) as nat);
        }
    }
    assert(SCAN_BACKOFF_SEQUENCE@ =~= seq![5u64, 5, 5, 5, 5, 5, 10, 15, 30, 60]);
}

/// An address key as one number: the first dotted part most significant,
/// each part a 32-bit digit.
pub open spec fn key_rank(k: (u32, u32, u32, u32)) -> int {
    k.0 as int * 0x1_0000_0000_0000_0000_0000_0000 + k.1 as int * 0x1_0000_0000_0000_0000 + k.2 as int
        * 0x1_0000_0000 + k.3 as int
}

proof fn lemma_key_rank(a: (u32, u32, u32, u32), b: (u32, u32, u32, u32))
    requires
        !key_lt(b, a),
    ensures
        key_rank(a) <= key_rank(b),
{
}

/// Sorted devices come in numeric order of their addresses, the first
/// dotted part most significant (192.168.1.20 before 192.168.2.10), and
/// they are the same devices.
pub proof fn lemma_sorted_in_address_order(s: Seq<(Seq<char>, Seq<char>)>)
    ensures
        forall|i: int, j: int| 0 <= i < j < sorted_by_ip(s).len() ==> key_rank(ip_key(#[trigger] sorted_by_ip(s)[i].0))
            <= key_rank(ip_key(#[trigger] sorted_by_ip(s)[j].0)),
        sorted_by_ip(s).to_multiset() == s.to_multiset(),
{
    lemma_sorted_by_ip(s);
    let t = sorted_by_ip(s);
    assert forall|i: int, j: int| 0 <= i < j < t.len() implies key_rank(ip_key(#[trigger] t[i].0)) <= key_rank(
        ip_key(#[trigger] t[j].0),
    ) by {
        lemma_key_rank(ip_key(t[i].0), ip_key(t[j].0));
    };
}

/// After a scan, the session's devices are the devices found, in numeric
/// order of their addresses, the first dotted part most significant.
pub proof fn lemma_scan_in_address_order(a: Session, b: Session, list: Seq<(Seq<char>, Seq<char>)>, changed: bool)
    requires
        scan_applied(a, b, list, changed),
    ensures
        forall|i: int, j: int| 0 <= i < j < b.devices@.len() ==> key_rank(ip_key(#[trigger] b.devices@[i].ip@))
            <= key_rank(ip_key(#[trigger] b.devices@[j].ip@)),
        device_views(b.devices@).to_multiset() == list.to_multiset(),
{
    lemma_sorted_in_address_order(list);
    let t = device_views(b.devices@);
    assert forall|i: int, j: int| 0 <= i < j < b.devices@.len() implies key_rank(ip_key(#[trigger] b.devices@[i].ip@))
        <= key_rank(ip_key(#[trigger] b.devices@[j].ip@)) by {
        assert(t[i].0 == b.devices@[i].ip@);
        assert(t[j].0 == b.devices@[j].ip@);
    };
}

} // verus!
