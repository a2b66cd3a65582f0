//! What the application does with each event: the decision part of the
//! event loop. The loop itself, the tasks it spawns, the clipboard and key
//! injection are the application's; it performs the command returned here.

use vstd::prelude::*;
use vstd::string::StringExecFns;
use crate::config::mappings::{entry_views, mapping_items, section_items};
use crate::config::{Mapping, Settings};
use crate::logic::session::{
    device_view, device_views, distinct_ips, index_of_ip, offline_removed, online, scan_applied,
    sorted_by_ip, upserted, Device, Session,
};
use crate::network::NetEvent;
use crate::platform::{vk_code, vk_for, HotkeyEvent, HotkeyEventView};
use crate::text::{chars_of, clone_strings, eq_chars, string_views};

verus! {

/// Events reaching the user-interface thread.
#[derive(Debug, Clone)]
pub enum AppEvent {
    Net(NetEvent),
    Hotkey(HotkeyEvent),
    /// A scan finished: (address, name) of each phone found.
    ScanResult(Vec<(String, String)>),
    /// A broadcast hit was probed and answered.
    BroadcastResolved { ip: String, name: String },
    /// A send finished.
    SendResult { ok: bool, message: String },
    /// These addresses missed a heartbeat.
    HeartbeatOffline(Vec<String>),
}

/// What the user interface should do.
#[derive(Debug, Clone)]
pub enum UiAction {
    Idle,
    /// Show a short message in a colour (`#RRGGBB`).
    Flash(String, String),
    /// Put text into the input box.
    SetInput(String),
    /// Let the user choose one of a mapping's texts.
    ShowMappingChooser(String, Vec<String>),
}

pub enum UiActionView {
    Idle,
    Flash(Seq<char>, Seq<char>),
    SetInput(Seq<char>),
    ShowMappingChooser(Seq<char>, Seq<Seq<char>>),
}

impl View for UiAction {
    type V = UiActionView;

    open spec fn view(&self) -> UiActionView {
        match self {
            UiAction::Idle => UiActionView::Idle,
            UiAction::Flash(t, c) => UiActionView::Flash(t@, c@),
            UiAction::SetInput(t) => UiActionView::SetInput(t@),
            UiAction::ShowMappingChooser(k, items) => UiActionView::ShowMappingChooser(
                k@,
                string_views(items@),
            ),
        }
    }
}

/// Work the application performs for an event.
pub enum Command {
    Nothing,
    /// Probe this address with `/ping`, then report `BroadcastResolved`.
    ProbeDevice(String),
    /// Generate a name, put it on the clipboard, then take
    /// `main_hotkey_reaction`.
    MainHotkey,
    /// Put this mapping text on the clipboard, take it as shared text, and
    /// paste it unless the helper has the focus.
    ApplyMapping(String),
}

pub enum CommandView {
    Nothing,
    ProbeDevice(Seq<char>),
    MainHotkey,
    ApplyMapping(Seq<char>),
}

impl View for Command {
    type V = CommandView;

    open spec fn view(&self) -> CommandView {
        match self {
            Command::Nothing => CommandView::Nothing,
            Command::ProbeDevice(ip) => CommandView::ProbeDevice(ip@),
            Command::MainHotkey => CommandView::MainHotkey,
            Command::ApplyMapping(t) => CommandView::ApplyMapping(t@),
        }
    }
}

/// The outcome of handling an event.
pub struct Reaction {
    pub action: UiAction,
    pub command: Command,
    /// The settings changed and should be written back.
    pub save_settings: bool,
}

pub const COLOR_OK: &'static str = "#34C759";
pub const COLOR_ERR: &'static str = "#FF3B30";
pub const COLOR_WARN: &'static str = "#FF9500";

fn flash(prefix: &str, name: &str, color: &str) -> (a: UiAction)
    ensures
        a@ == UiActionView::Flash(prefix@ + name@, color@),
{
    let mut t = prefix.to_string();
    t.append(name);
    UiAction::Flash(t, color.to_string())
}

/// The message after a scan that found `n` phones, the selected one named
/// `name`.
pub open spec fn scan_flash(n: nat, name: Option<Seq<char>>) -> UiActionView {
    if n == 0 {
        UiActionView::Flash("未找到设备"@, COLOR_ERR@)
    } else {
        UiActionView::Flash(
            "已连接 "@ + match name {
                Some(s) => s,
                None => seq![],
            },
            COLOR_OK@,
        )
    }
}

/// The message after a send.
pub open spec fn send_flash(ok: bool, message: Seq<char>) -> UiActionView {
    if ok {
        UiActionView::Flash("已发送"@, COLOR_OK@)
    } else if message.len() == 0 {
        UiActionView::Flash("发送失败"@, COLOR_ERR@)
    } else {
        UiActionView::Flash(message, COLOR_ERR@)
    }
}

pub open spec fn pair_views(v: Seq<(String, String)>) -> Seq<(Seq<char>, Seq<char>)> {
    v.map_values(|p: (String, String)| (p.0@, p.1@))
}

fn to_devices(list: Vec<(String, String)>) -> (r: Vec<Device>)
    ensures
        device_views(r@) == pair_views(list@),
{
    let mut r: Vec<Device> = Vec::new();
    let mut k: usize = 0;
    while k < list.len()
        invariant
            k <= list.len(),
            device_views(r@) == pair_views(list@).take(k as int),
        decreases list.len() - k,
    {
        let d = Device { ip: list[k].0.clone(), name: list[k].1.clone() };
        assert(device_views(r@.push(d)) =~= device_views(r@).push(device_view(d)));
        r.push(d);
        k += 1;
        assert(device_views(r@) =~= pair_views(list@).take(k as int));
    }
    assert(pair_views(list@).take(k as int) =~= pair_views(list@));
    r
}

/// The texts of a mapping hotkey: none, one (applied directly) or several
/// (the user chooses).
pub open spec fn mapping_reaction(key: Seq<char>, items: Seq<Seq<char>>) -> (UiActionView, CommandView) {
    if items.len() == 0 {
        (UiActionView::Idle, CommandView::Nothing)
    } else if items.len() == 1 {
        (UiActionView::Idle, CommandView::ApplyMapping(items[0]))
    } else {
        (UiActionView::ShowMappingChooser(key, items), CommandView::Nothing)
    }
}

/// The texts a mapping key is bound to: those of its first section, none
/// without one.
pub open spec fn items_for(ms: Seq<Mapping>, key: Seq<char>) -> Seq<Seq<char>> {
    match section_items(ms, key) {
        Some(v) => string_views(v),
        None => seq![],
    }
}

/// Handles one event: updates the session and says what to show and do.
pub fn handle(session: &mut Session, ev: AppEvent) -> (r: Reaction)
    requires
        old(session).wf(),
    ensures
        final(session).wf(),
        old(session).selection_ok() ==> final(session).selection_ok(),
        (old(session).ips_distinct() && match ev {
            AppEvent::ScanResult(list) => distinct_ips(pair_views(list@)),
            _ => true,
        }) ==> final(session).ips_distinct(),
        final(session).mappings == old(session).mappings,
        match ev {
            AppEvent::ScanResult(list) => {
                &&& !final(session).discovering
                &&& scan_applied(*old(session), *final(session), pair_views(list@), r.save_settings)
                &&& r.action@ == scan_flash(
                    list@.len(),
                    if final(session).current_index < final(session).devices@.len() {
                        Some(final(session).devices@[final(session).current_index as int].name@)
                    } else {
                        None
                    },
                )
                &&& r.command@ == CommandView::Nothing
            },
            AppEvent::Net(NetEvent::Handshake { ip, name }) => {
                &&& r.action@ == UiActionView::Flash(
                    if index_of_ip(device_views(old(session).devices@), ip@) is None {
                        "已连接 "@ + name@
                    } else {
                        "切换到 "@ + name@
                    },
                    COLOR_OK@,
                )
                &&& upserted(
                    *old(session),
                    *final(session),
                    ip@,
                    name@,
                    index_of_ip(device_views(old(session).devices@), ip@) is None,
                )
                &&& r.command@ == CommandView::Nothing
                &&& r.save_settings
            },
            AppEvent::Net(NetEvent::BroadcastHit(ip, _)) => {
                &&& r.action@ == UiActionView::Idle
                &&& r.command@ == CommandView::ProbeDevice(ip@)
                &&& !r.save_settings
                &&& *final(session) == *old(session)
            },
            AppEvent::BroadcastResolved { ip, name } => {
                &&& r.action@ == UiActionView::Flash(
                    if index_of_ip(device_views(old(session).devices@), ip@) is None {
                        "发现 "@ + name@
                    } else {
                        "已连接 "@ + name@
                    },
                    COLOR_OK@,
                )
                &&& upserted(
                    *old(session),
                    *final(session),
                    ip@,
                    name@,
                    index_of_ip(device_views(old(session).devices@), ip@) is None,
                )
                &&& r.command@ == CommandView::Nothing
                &&& r.save_settings
            },
            AppEvent::SendResult { ok, message } => {
                &&& r.action@ == send_flash(ok, message@)
                &&& r.command@ == CommandView::Nothing
                &&& !r.save_settings
                &&& *final(session) == *old(session)
            },
            AppEvent::HeartbeatOffline(ips) => {
                &&& offline_removed(
                    *old(session),
                    *final(session),
                    string_views(ips@),
                    final(session).devices@.len() != old(session).devices@.len(),
                )
                &&& r.action@ == if final(session).devices@.len() != old(session).devices@.len() {
                    UiActionView::Flash("设备已断开"@, COLOR_WARN@)
                } else {
                    UiActionView::Idle
                }
                &&& r.command@ == CommandView::Nothing
                &&& !r.save_settings
            },
            AppEvent::Hotkey(HotkeyEvent::Main) => {
                &&& r.action@ == UiActionView::Idle
                &&& r.command@ == CommandView::MainHotkey
                &&& !r.save_settings
                &&& *final(session) == *old(session)
            },
            AppEvent::Hotkey(HotkeyEvent::Mapping(key)) => {
                &&& (r.action@, r.command@) == mapping_reaction(
                    key@,
                    items_for(old(session).mappings@, key@),
                )
                &&& !r.save_settings
                &&& *final(session) == *old(session)
            },
        },
{
    match ev {
        AppEvent::ScanResult(list) => {
            session.set_discovering(false);
            let devices = to_devices(list);
            let n = devices.len();
            let changed = session.set_scan_result(devices);
            let action = if n == 0 {
                UiAction::Flash("未找到设备".to_string(), COLOR_ERR.to_string())
            } else {
                let name = match session.current_name() {
                    Some(s) => s.to_string(),
                    None => String::new(),
                };
                flash("已连接 ", name.as_str(), COLOR_OK)
            };
            Reaction { action, command: Command::Nothing, save_settings: changed }
        },
        AppEvent::Net(NetEvent::Handshake { ip, name }) => {
            let is_new = session.upsert_device(ip.as_str(), name.as_str());
            proof {
                crate::logic::session::lemma_sorted_keeps_ip(device_views(old(session).devices@), ip@, name@);
            }
            let action = if is_new {
                flash("已连接 ", name.as_str(), COLOR_OK)
            } else {
                flash("切换到 ", name.as_str(), COLOR_OK)
            };
            Reaction { action, command: Command::Nothing, save_settings: true }
        },
        AppEvent::Net(NetEvent::BroadcastHit(ip, _port)) => {
            Reaction { action: UiAction::Idle, command: Command::ProbeDevice(ip), save_settings: false }
        },
        AppEvent::BroadcastResolved { ip, name } => {
            let is_new = session.upsert_device(ip.as_str(), name.as_str());
            proof {
                crate::logic::session::lemma_sorted_keeps_ip(device_views(old(session).devices@), ip@, name@);
            }
            let action = if is_new {
                flash("发现 ", name.as_str(), COLOR_OK)
            } else {
                flash("已连接 ", name.as_str(), COLOR_OK)
            };
            Reaction { action, command: Command::Nothing, save_settings: true }
        },
        AppEvent::SendResult { ok, message } => {
            let action = if ok {
                UiAction::Flash("已发送".to_string(), COLOR_OK.to_string())
            } else if message.as_str().is_empty() {
                UiAction::Flash("发送失败".to_string(), COLOR_ERR.to_string())
            } else {
                UiAction::Flash(message, COLOR_ERR.to_string())
            };
            Reaction { action, command: Command::Nothing, save_settings: false }
        },
        AppEvent::HeartbeatOffline(ips) => {
            let action = if session.remove_offline(ips.as_slice()) {
                UiAction::Flash("设备已断开".to_string(), COLOR_WARN.to_string())
            } else {
                UiAction::Idle
            };
            Reaction { action, command: Command::Nothing, save_settings: false }
        },
        AppEvent::Hotkey(HotkeyEvent::Main) => {
            Reaction { action: UiAction::Idle, command: Command::MainHotkey, save_settings: false }
        },
        AppEvent::Hotkey(HotkeyEvent::Mapping(key)) => {
            let items = match mapping_items(&session.mappings, key.as_str()) {
                Some(items) => items,
                None => Vec::new(),
            };
            if items.len() == 0 {
                Reaction { action: UiAction::Idle, command: Command::Nothing, save_settings: false }
            } else if items.len() == 1 {
                let text = items[0].clone();
                Reaction {
                    action: UiAction::Idle,
                    command: Command::ApplyMapping(text),
                    save_settings: false,
                }
            } else {
                Reaction {
                    action: UiAction::ShowMappingChooser(key, items),
                    command: Command::Nothing,
                    save_settings: false,
                }
            }
        },
    }
}

/// After the main hotkey's name is on the clipboard: fill the input box
/// when the helper has the focus; otherwise paste it and say so. The flag
/// says whether to paste.
pub fn main_hotkey_reaction(name: String, focused: bool) -> (r: (UiAction, bool))
    ensures
        focused ==> r.0@ == UiActionView::SetInput(name@) && !r.1,
        !focused ==> r.0@ == UiActionView::Flash("已粘贴 "@ + name@, COLOR_OK@) && r.1,
{
    if focused {
        (UiAction::SetInput(name), false)
    } else {
        (flash("已粘贴 ", name.as_str(), COLOR_OK), true)
    }
}

/// `keys` with `vk` bound to `ev`, unless `vk` is bound already.
pub open spec fn bind_if_free(keys: Seq<(u32, HotkeyEventView)>, vk: u32, ev: HotkeyEventView) -> Seq<
    (u32, HotkeyEventView),
> {
    if exists|i: int| 0 <= i < keys.len() && keys[i].0 == vk {
        keys
    } else {
        keys.push((vk, ev))
    }
}

/// `keys` with the mapping keys of `es` bound in order, skipping F1 and
/// the main hotkey.
pub open spec fn bind_mappings(
    keys: Seq<(u32, HotkeyEventView)>,
    es: Seq<(Seq<char>, Seq<Seq<char>>)>,
    main: Option<Seq<char>>,
) -> Seq<(u32, HotkeyEventView)>
    decreases es.len(),
{
    if es.len() == 0 {
        keys
    } else {
        let before = bind_mappings(keys, es.drop_last(), main);
        let k = es.last().0;
        if k == "F1"@ || main == Some(k) {
            before
        } else {
            match vk_code(k) {
                Some(vk) => bind_if_free(before, vk, HotkeyEventView::Mapping(k)),
                None => before,
            }
        }
    }
}

/// The hotkeys to watch: the main hotkey when enabled, then the mapping
/// keys when mappings are enabled (F1 and the main hotkey excepted; a key
/// code already bound keeps its first binding).
pub open spec fn hotkey_table(settings: Settings, es: Seq<(Seq<char>, Seq<Seq<char>>)>) -> Seq<
    (u32, HotkeyEventView),
> {
    let base = if settings.hotkey_enabled && vk_code(settings.hotkey@) is Some {
        seq![(vk_code(settings.hotkey@).unwrap(), HotkeyEventView::Main)]
    } else {
        seq![]
    };
    if settings.mapping_enabled {
        bind_mappings(
            base,
            es,
            if settings.hotkey_enabled {
                Some(settings.hotkey@)
            } else {
                None
            },
        )
    } else {
        base
    }
}

pub open spec fn binding_views(v: Seq<(u32, HotkeyEvent)>) -> Seq<(u32, HotkeyEventView)> {
    v.map_values(|p: (u32, HotkeyEvent)| (p.0, p.1@))
}

fn bound(keys: &Vec<(u32, HotkeyEvent)>, vk: u32) -> (b: bool)
    ensures
        b == exists|i: int| 0 <= i < keys@.len() && keys@[i].0 == vk,
{
    let mut k: usize = 0;
    while k < keys.len()
        invariant
            k <= keys.len(),
            forall|i: int| 0 <= i < k ==> keys@[i].0 != vk,
        decreases keys.len() - k,
    {
        if keys[k].0 == vk {
            return true;
        }
        k += 1;
    }
    false
}

/// The hotkeys to watch, as (key code, event) pairs with no code twice.
pub fn build_hotkey_keys(settings: &Settings, mappings: &Vec<Mapping>) -> (r: Vec<(u32, HotkeyEvent)>)
    ensures
        binding_views(r@) == hotkey_table(*settings, entry_views(mappings@)),
{
    let mut keys: Vec<(u32, HotkeyEvent)> = Vec::new();
    if settings.hotkey_enabled {
        match vk_for(settings.hotkey.as_str()) {
            Some(vk) => {
                keys.push((vk, HotkeyEvent::Main));
            },
            None => {},
        }
    }
    assert(binding_views(keys@) =~= if settings.hotkey_enabled && vk_code(settings.hotkey@) is Some {
        seq![(vk_code(settings.hotkey@).unwrap(), HotkeyEventView::Main)]
    } else {
        Seq::<(u32, HotkeyEventView)>::empty()
    });
    if !settings.mapping_enabled {
        return keys;
    }
    let ghost base = binding_views(keys@);
    let ghost es = entry_views(mappings@);
    let ghost main = if settings.hotkey_enabled {
        Some(settings.hotkey@)
    } else {
        None
    };
    let hotkey = chars_of(settings.hotkey.as_str());
    let f1 = chars_of("F1");
    let mut k: usize = 0;
    assert(es.take(0) =~= Seq::<(Seq<char>, Seq<Seq<char>>)>::empty());
    while k < mappings.len()
        invariant
            k <= mappings.len(),
            es == entry_views(mappings@),
            hotkey@ == settings.hotkey@,
            f1@ == "F1"@,
            main == (if settings.hotkey_enabled {
                Some(settings.hotkey@)
            } else {
                None::<Seq<char>>
            }),
            binding_views(keys@) == bind_mappings(base, es.take(k as int), main),
        decreases mappings.len() - k,
    {
        assert(es.take(k + 1).drop_last() =~= es.take(k as int));
        let key = chars_of(mappings[k].key.as_str());
        let skip = eq_chars(&key, &f1) || (settings.hotkey_enabled && eq_chars(&key, &hotkey));
        if !skip {
            match vk_for(mappings[k].key.as_str()) {
                Some(vk) => {
                    if !bound(&keys, vk) {
                        let ev = HotkeyEvent::Mapping(mappings[k].key.clone());
                        assert(binding_views(keys@.push((vk, ev))) =~= binding_views(keys@).push(
                            (vk, ev@),
                        ));
                        keys.push((vk, ev));
                    } else {
                        proof {
                            let i = choose|i: int| 0 <= i < keys@.len() && keys@[i].0 == vk;
                            assert(binding_views(keys@)[i].0 == vk);
                        }
                    }
                },
                None => {},
            }
        }
        proof {
            let bv = bind_mappings(base, es.take(k as int), main);
            if exists|i: int| 0 <= i < bv.len() && bv[i].0 == vk_code(es[k as int].0).unwrap() {
                let i = choose|i: int| 0 <= i < bv.len() && bv[i].0 == vk_code(es[k as int].0).unwrap();
                assert(keys@[i].0 == bv[i].0);
            }
        }
        k += 1;
    }
    assert(es.take(k as int) =~= es);
    keys
}

} // verus!
