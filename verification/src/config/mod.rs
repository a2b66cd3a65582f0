//! Settings, history and hotkey mappings: the values the helper keeps
//! between runs, and the rules for updating them.
//!
//! Reading and writing the files is done by the application around this
//! library; here the values are built, updated and checked.

pub mod mappings;

use vstd::prelude::*;
use crate::text::{decimal, decimal_string, string_views};

pub use mappings::{default_mappings, parse_mappings, Mapping};

verus! {

// Network and behaviour constants shared with the phone side.
pub const PORT: u16 = 8848;
pub const BROADCAST_PORT: u16 = 8849;
pub const HANDSHAKE_PORT: u16 = 8850;
/// Per-address probe timeout of a subnet scan, in milliseconds.
pub const SCAN_TIMEOUT_MS: u64 = 300;
pub const SCAN_MAX_WORKERS: usize = 128;
pub const HEARTBEAT_INTERVAL: u64 = 6;
/// Heartbeat probe timeout, in milliseconds.
pub const HEARTBEAT_TIMEOUT_MS: u64 = 1500;
pub const CLIPBOARD_DEBOUNCE: u64 = 400;
pub const SEND_TIMEOUT: u64 = 4;
pub const MAX_HISTORY: usize = 50;

/// Seconds to wait before the next automatic scan, by failed attempt.
pub const SCAN_BACKOFF_SEQUENCE: [u64; 10] = [5, 5, 5, 5, 5, 5, 10, 15, 30, 60];
pub const IDLE_SCAN_INTERVAL: u64 = 3;
pub const KNOWN_IPS_MAX: usize = 10;

pub const WIN_WIDTH: i32 = 380;
pub const WIN_HEIGHT: i32 = 44;

pub const DEFAULT_HOTKEY: &'static str = "F1";
pub const HOTKEY_WATCHDOG_INTERVAL: u64 = 15;
pub const HOTKEY_WATCHDOG_FORCE_EVERY: u32 = 12;

pub const AUTOSTART_REG_PATH: &'static str = "Software\\Microsoft\\Windows\\CurrentVersion\\Run";
pub const AUTOSTART_REG_NAME: &'static str = "KaiFanLeHelper";

pub const MAPPING_FILE_NAME: &'static str = "mappings.txt";
/// Settings file, in the user's home directory.
pub const SETTINGS_FILE_NAME: &'static str = ".kai_fan_le_helper_settings.json";
/// History file, in the user's home directory.
pub const HISTORY_FILE_NAME: &'static str = ".kai_fan_le_helper_history.json";

/// IEEE-754 bits of the default UI scale factor, 1.0.
pub const DEFAULT_SCALE_BITS: u64 = 0x3FF0_0000_0000_0000;

pub fn default_true() -> (b: bool)
    ensures
        b,
{
    true
}

pub fn default_auto_scan() -> (b: bool)
    ensures
        b,
{
    true
}

pub fn default_hotkey() -> (s: String)
    ensures
        s@ == DEFAULT_HOTKEY@,
{
    DEFAULT_HOTKEY.to_string()
}

pub fn default_hotkey_enabled() -> (b: bool)
    ensures
        b,
{
    true
}

pub fn default_mapping_enabled() -> (b: bool)
    ensures
        !b,
{
    false
}

pub fn default_show_name_btn() -> (b: bool)
    ensures
        b,
{
    true
}

pub fn default_auto_push() -> (b: bool)
    ensures
        !b,
{
    false
}

pub fn default_clear_clipboard() -> (b: bool)
    ensures
        b,
{
    true
}

pub fn default_clipboard_materialize() -> (b: bool)
    ensures
        !b,
{
    false
}

pub fn default_autostart() -> (b: bool)
    ensures
        b,
{
    true
}

/// User settings. Missing keys in the settings file take the defaults
/// below; unknown keys are ignored by the file reader.
#[derive(Debug, Clone)]
pub struct Settings {
    pub auto_scan: bool,
    pub hotkey: String,
    pub hotkey_enabled: bool,
    pub mapping_enabled: bool,
    pub show_name_btn: bool,
    pub auto_push: bool,
    pub clear_clipboard: bool,
    pub clipboard_materialize: bool,
    pub autostart: bool,
    /// IEEE-754 bits of the UI scale factor, stored and given back unchanged.
    pub scale_multiplier_bits: u64,
    /// Recently seen phone addresses, most recent first.
    pub known_ips: Vec<String>,
}

impl Default for Settings {
    fn default() -> (s: Self)
        ensures
            s.auto_scan,
            s.hotkey@ == DEFAULT_HOTKEY@,
            s.hotkey_enabled,
            !s.mapping_enabled,
            s.show_name_btn,
            !s.auto_push,
            s.clear_clipboard,
            !s.clipboard_materialize,
            s.autostart,
            s.scale_multiplier_bits == DEFAULT_SCALE_BITS,
            s.known_ips@.len() == 0,
    {
        Settings {
            auto_scan: default_auto_scan(),
            hotkey: default_hotkey(),
            hotkey_enabled: default_hotkey_enabled(),
            mapping_enabled: default_mapping_enabled(),
            show_name_btn: default_show_name_btn(),
            auto_push: default_auto_push(),
            clear_clipboard: default_clear_clipboard(),
            clipboard_materialize: default_clipboard_materialize(),
            autostart: default_autostart(),
            scale_multiplier_bits: DEFAULT_SCALE_BITS,
            known_ips: Vec::new(),
        }
    }
}

/// `s` with every occurrence of `x` removed, order kept.
pub open spec fn without(s: Seq<Seq<char>>, x: Seq<char>) -> Seq<Seq<char>>
    decreases s.len(),
{
    if s.len() == 0 {
        s
    } else if s.last() == x {
        without(s.drop_last(), x)
    } else {
        without(s.drop_last(), x).push(s.last())
    }
}

/// The first `n` elements of `s`, or all of them when there are fewer.
pub open spec fn at_most<A>(s: Seq<A>, n: nat) -> Seq<A> {
    if s.len() <= n {
        s
    } else {
        s.take(n as int)
    }
}

/// The known addresses after remembering `ip`: `ip` first, earlier
/// occurrences dropped, at most `KNOWN_IPS_MAX` kept. An empty `ip` changes
/// nothing.
pub open spec fn remembered(ips: Seq<Seq<char>>, ip: Seq<char>) -> Seq<Seq<char>> {
    if ip.len() == 0 {
        ips
    } else {
        at_most(seq![ip] + without(ips, ip), KNOWN_IPS_MAX as nat)
    }
}

proof fn lemma_without_step(s: Seq<Seq<char>>, x: Seq<char>, k: int)
    requires
        0 <= k < s.len(),
    ensures
        without(s.take(k + 1), x) == if s[k] == x {
            without(s.take(k), x)
        } else {
            without(s.take(k), x).push(s[k])
        },
{
    assert(s.take(k + 1).drop_last() =~= s.take(k));
}

impl Settings {
    /// Remembers `ip` as the most recent address: moved to the front,
    /// duplicates dropped, at most `KNOWN_IPS_MAX` kept.
    pub fn remember_ip(&mut self, ip: &str)
        ensures
            string_views(final(self).known_ips@) == remembered(
                string_views(old(self).known_ips@),
                ip@,
            ),
            final(self).auto_scan == old(self).auto_scan,
            final(self).hotkey == old(self).hotkey,
            final(self).hotkey_enabled == old(self).hotkey_enabled,
            final(self).mapping_enabled == old(self).mapping_enabled,
            final(self).show_name_btn == old(self).show_name_btn,
            final(self).auto_push == old(self).auto_push,
            final(self).clear_clipboard == old(self).clear_clipboard,
            final(self).clipboard_materialize == old(self).clipboard_materialize,
            final(self).autostart == old(self).autostart,
            final(self).scale_multiplier_bits == old(self).scale_multiplier_bits,
    {
        if ip.is_empty() {
            return;
        }
        let ip_string = ip.to_string();
        let ghost old_ips = string_views(self.known_ips@);
        let mut kept: Vec<String> = Vec::new();
        kept.push(ip.to_string());
        let mut k: usize = 0;
        assert(string_views(kept@) =~= seq![ip@] + without(old_ips.take(0), ip@));
        while k < self.known_ips.len()
            invariant
                k <= self.known_ips.len(),
                old_ips == string_views(self.known_ips@),
                ip_string@ == ip@,
                string_views(kept@) == seq![ip@] + without(old_ips.take(k as int), ip@),
            decreases self.known_ips.len() - k,
        {
            proof {
                lemma_without_step(old_ips, ip@, k as int);
            }
            if self.known_ips[k] != ip_string {
                let item = self.known_ips[k].clone();
                assert(string_views(kept@.push(item)) =~= string_views(kept@).push(item@));
                kept.push(item);
            }
            k += 1;
        }
        assert(old_ips.take(k as int) =~= old_ips);
        kept.truncate(KNOWN_IPS_MAX);
        assert(string_views(kept@) =~= remembered(old_ips, ip@));
        self.known_ips = kept;
    }

    /// The first `KNOWN_IPS_MAX` known addresses.
    pub fn known_ips_limited(&self) -> (r: Vec<String>)
        ensures
            r@ == at_most(self.known_ips@, KNOWN_IPS_MAX as nat),
    {
        let mut r: Vec<String> = Vec::new();
        let mut k: usize = 0;
        while k < self.known_ips.len() && k < KNOWN_IPS_MAX
            invariant
                k <= self.known_ips.len(),
                k <= KNOWN_IPS_MAX,
                r@ == self.known_ips@.take(k as int),
            decreases self.known_ips.len() - k,
        {
            r.push(self.known_ips[k].clone());
            k += 1;
            assert(r@ =~= self.known_ips@.take(k as int));
        }
        assert(r@ =~= at_most(self.known_ips@, KNOWN_IPS_MAX as nat));
        r
    }
}

/// After `remember_ip` with a non-empty address, that address comes first
/// and occurs exactly once, and the list never holds more than
/// `KNOWN_IPS_MAX` addresses.
pub proof fn lemma_remembered(ips: Seq<Seq<char>>, ip: Seq<char>)
    requires
        ip.len() > 0,
    ensures
        remembered(ips, ip).len() >= 1,
        remembered(ips, ip)[0] == ip,
        forall|i: int| 1 <= i < remembered(ips, ip).len() ==> remembered(ips, ip)[i] != ip,
        remembered(ips, ip).len() <= KNOWN_IPS_MAX,
{
    lemma_without_excludes(ips, ip);
    let full = seq![ip] + without(ips, ip);
    assert forall|i: int| 1 <= i < remembered(ips, ip).len() implies remembered(ips, ip)[i] != ip by {
        assert(remembered(ips, ip)[i] == full[i]);
        assert(full[i] == without(ips, ip)[i - 1]);
    };
}

/// `without(s, x)` holds no `x`.
pub proof fn lemma_without_excludes(s: Seq<Seq<char>>, x: Seq<char>)
    ensures
        forall|i: int| 0 <= i < without(s, x).len() ==> without(s, x)[i] != x,
    decreases s.len(),
{
    if s.len() > 0 {
        lemma_without_excludes(s.drop_last(), x);
        let w = without(s.drop_last(), x);
        if s.last() != x {
            assert forall|i: int| 0 <= i < w.push(s.last()).len() implies w.push(s.last())[i] != x by {
                if i < w.len() {
                    assert(w.push(s.last())[i] == w[i]);
                }
            };
        }
    }
}

/// One entry of the share history.
#[derive(Debug, Clone)]
pub struct HistoryItem {
    pub text: String,
    pub title: String,
    pub time: String,
}

/// `items` without the entries whose title is `title`, order kept.
pub open spec fn without_title(items: Seq<HistoryItem>, title: Seq<char>) -> Seq<HistoryItem>
    decreases items.len(),
{
    if items.len() == 0 {
        items
    } else if items.last().title@ == title {
        without_title(items.drop_last(), title)
    } else {
        without_title(items.drop_last(), title).push(items.last())
    }
}

fn copy_item(it: &HistoryItem) -> (r: HistoryItem)
    ensures
        r == *it,
{
    HistoryItem { text: it.text.clone(), title: it.title.clone(), time: it.time.clone() }
}

/// Records a share at the top of the history: entries with the same title
/// are dropped, the new entry comes first, at most `MAX_HISTORY` are kept.
pub fn history_insert(items: &mut Vec<HistoryItem>, text: &str, title: &str, time: String)
    ensures
        final(items)@.len() >= 1,
        final(items)@[0].text@ == text@,
        final(items)@[0].title@ == title@,
        final(items)@[0].time == time,
        final(items)@.drop_first() == at_most(
            without_title(old(items)@, title@),
            (MAX_HISTORY - 1) as nat,
        ),
{
    let ghost old_items = items@;
    let mut out: Vec<HistoryItem> = Vec::new();
    out.push(HistoryItem { text: text.to_string(), title: title.to_string(), time });
    let title_string = title.to_string();
    let mut k: usize = 0;
    assert(out@.drop_first() =~= without_title(old_items.take(0), title@));
    while k < items.len()
        invariant
            k <= items.len(),
            items@ == old_items,
            title_string@ == title@,
            out@.len() >= 1,
            out@[0].text@ == text@,
            out@[0].title@ == title@,
            out@[0].time == time,
            out@.drop_first() == without_title(old_items.take(k as int), title@),
        decreases items.len() - k,
    {
        assert(old_items.take(k + 1).drop_last() =~= old_items.take(k as int));
        if items[k].title != title_string {
            let it = copy_item(&items[k]);
            assert(out@.push(it).drop_first() =~= out@.drop_first().push(it));
            out.push(it);
        }
        k += 1;
    }
    assert(old_items.take(k as int) =~= old_items);
    out.truncate(MAX_HISTORY);
    assert(out@.drop_first() =~= at_most(without_title(old_items, title@), (MAX_HISTORY - 1) as nat));
    *items = out;
}

/// Records a share at the top of the history, stamped with the current time.
pub fn history_add(items: &mut Vec<HistoryItem>, text: &str, title: &str)
    ensures
        final(items)@.len() >= 1,
        final(items)@[0].text@ == text@,
        final(items)@[0].title@ == title@,
        exists|secs: u64| final(items)@[0].time@ == decimal(secs as nat),
        final(items)@.drop_first() == at_most(
            without_title(old(items)@, title@),
            (MAX_HISTORY - 1) as nat,
        ),
{
    let time = now_mmdd_hhmm();
    history_insert(items, text, title, time);
}

/// After recording a share, its title occurs once, first, and the history
/// holds at most `MAX_HISTORY` entries.
pub proof fn lemma_history_title_unique(items: Seq<HistoryItem>, title: Seq<char>)
    ensures
        forall|i: int|
            0 <= i < at_most(without_title(items, title), (MAX_HISTORY - 1) as nat).len()
                ==> #[trigger] at_most(without_title(items, title), (MAX_HISTORY - 1) as nat)[i].title@
                != title,
        at_most(without_title(items, title), (MAX_HISTORY - 1) as nat).len() + 1 <= MAX_HISTORY,
{
    lemma_without_title_excludes(items, title);
}

proof fn lemma_without_title_excludes(items: Seq<HistoryItem>, title: Seq<char>)
    ensures
        forall|i: int|
            0 <= i < without_title(items, title).len() ==> without_title(items, title)[i].title@
                != title,
    decreases items.len(),
{
    if items.len() > 0 {
        lemma_without_title_excludes(items.drop_last(), title);
        let w = without_title(items.drop_last(), title);
        if items.last().title@ != title {
            assert forall|i: int| 0 <= i < w.push(items.last()).len() implies w.push(
                items.last(),
            )[i].title@ != title by {
                if i < w.len() {
                    assert(w.push(items.last())[i] == w[i]);
                }
            };
        }
    }
}

/// Seconds of the system clock since the Unix epoch (`SystemTime::now`);
/// 0 when the clock is before the epoch.
#[verifier::external_body]
pub(crate) fn unix_now_secs() -> u64 {
    std::time::SystemTime::now()
        .duration_since(std::time::UNIX_EPOCH)
        .map(|d| d.as_secs())
        .unwrap_or(0)
}

/// The time stamp stored with history entries: seconds since the Unix epoch
/// in decimal.
pub fn now_mmdd_hhmm() -> (s: String)
    ensures
        exists|secs: u64| s@ == decimal(secs as nat),
{
    decimal_string(unix_now_secs())
}

} // verus!
