//! Hotkey and input decisions. Installing the keyboard hook, sending keys
//! and the clipboard are the application's.

use vstd::prelude::*;
use crate::app::binding_views;
use crate::text::{
    all_ascii, ascii_upper, ascii_upper_all, chars_of, eq_chars, decimal, digit_char, digits_value, is_digit, parse_u32, parse_u32_chars, subvec,
    unsigned_digits,
    to_uppercase, uppercase,
};

verus! {

/// What a hotkey press asks for.
#[derive(Debug, Clone)]
pub enum HotkeyEvent {
    /// The main hotkey (F1 by default): generate a name.
    Main,
    /// A mapping hotkey, by key name.
    Mapping(String),
}

pub enum HotkeyEventView {
    Main,
    Mapping(Seq<char>),
}

impl View for HotkeyEvent {
    type V = HotkeyEventView;

    open spec fn view(&self) -> HotkeyEventView {
        match self {
            HotkeyEvent::Main => HotkeyEventView::Main,
            HotkeyEvent::Mapping(k) => HotkeyEventView::Mapping(k@),
        }
    }
}

/// The virtual-key code of a key name: F1..F12 (any case) are
/// 0x70..0x7B; the number after the F is read as `u32::from_str` reads it.
pub open spec fn vk_code(key: Seq<char>) -> Option<u32> {
    vk_of_upper(uppercase(key))
}

/// The key code of an upper-cased key name: F1..F12 give 0x70..0x7B.
pub open spec fn vk_of_upper(k: Seq<char>) -> Option<u32> {
    if k.len() > 0 && k[0] == 'F' {
        match parse_u32(k.drop_first()) {
            Some(n) => if 1 <= n <= 12 {
                Some((0x6F + n) as u32)
            } else {
                None
            },
            None => None,
        }
    } else {
        None
    }
}

/// The virtual-key code of a key name.
pub fn vk_for(key: &str) -> (r: Option<u32>)
    ensures
        r == vk_code(key@),
        all_ascii(key@) ==> r == vk_of_upper(ascii_upper_all(key@)),
        r matches Some(v) ==> 0x70 <= v <= 0x7B,
{
    let k = to_uppercase(&chars_of(key));
    if k.len() > 0 && k[0] == 'F' {
        let num = subvec(&k, 1, k.len());
        assert(num@ =~= k@.drop_first());
        match parse_u32_chars(&num) {
            Some(n) => {
                if 1 <= n && n <= 12 {
                    return Some(0x6F + n);
                }
                None
            },
            None => None,
        }
    } else {
        None
    }
}

/// Minimum time between two firings of the same hotkey, in milliseconds.
pub const THROTTLE_MS: u64 = 300;

/// Whether a press at `now_ms` may fire, given when the hotkey last fired.
pub open spec fn throttle_ok(last_ms: Option<u64>, now_ms: u64) -> bool {
    match last_ms {
        None => true,
        Some(t) => now_ms >= t && now_ms - t >= THROTTLE_MS,
    }
}

/// Whether a hotkey press at `now_ms` fires, given when it last fired: the
/// first press fires, later ones once `THROTTLE_MS` have passed (a clock
/// that went back counts as no time passed).
pub fn throttle_allows(last_ms: Option<u64>, now_ms: u64) -> (b: bool)
    ensures
        b == throttle_ok(last_ms, now_ms),
{
    match last_ms {
        None => true,
        Some(t) => now_ms >= t && now_ms - t >= THROTTLE_MS,
    }
}

/// Delays between the steps of a pasted Ctrl+V, in milliseconds.
pub const DELAY_BEFORE: u64 = 10;
pub const DELAY_CTRL_HOLD: u64 = 40;
pub const DELAY_AFTER_V: u64 = 20;
pub const DELAY_CTRL_UP: u64 = 20;

/// Key codes and scan codes of the pasted Ctrl+V.
pub const VK_CONTROL: u16 = 0x11;
pub const VK_V: u16 = 0x56;
pub const SCAN_CONTROL: u16 = 0x1D;
pub const SCAN_V: u16 = 0x2F;

/// One key event of a simulated key press: wait `wait_ms`, then press
/// (`down`) or release the key.
#[derive(Debug, Clone, Copy, PartialEq, Eq, Structural)]
pub struct KeyStep {
    pub wait_ms: u64,
    pub vk: u16,
    pub scan: u16,
    pub down: bool,
}

/// Ctrl+V sent step by step by scan code, which remote desktops pass on:
/// Ctrl down, V down, V up, Ctrl up, with `DELAY_BEFORE`, `DELAY_CTRL_HOLD`
/// and `DELAY_AFTER_V` before them; `DELAY_CTRL_UP` more is waited after
/// the last, about 90 ms in all.
pub fn ctrl_v_steps() -> (r: Vec<KeyStep>)
    ensures
        r@ == seq![
            KeyStep { wait_ms: DELAY_BEFORE, vk: VK_CONTROL, scan: SCAN_CONTROL, down: true },
            KeyStep { wait_ms: DELAY_CTRL_HOLD, vk: VK_V, scan: SCAN_V, down: true },
            KeyStep { wait_ms: 0, vk: VK_V, scan: SCAN_V, down: false },
            KeyStep { wait_ms: DELAY_AFTER_V, vk: VK_CONTROL, scan: SCAN_CONTROL, down: false },
        ],
{
    let mut r: Vec<KeyStep> = Vec::new();
    r.push(KeyStep { wait_ms: DELAY_BEFORE, vk: VK_CONTROL, scan: SCAN_CONTROL, down: true });
    r.push(KeyStep { wait_ms: DELAY_CTRL_HOLD, vk: VK_V, scan: SCAN_V, down: true });
    r.push(KeyStep { wait_ms: 0, vk: VK_V, scan: SCAN_V, down: false });
    r.push(KeyStep { wait_ms: DELAY_AFTER_V, vk: VK_CONTROL, scan: SCAN_CONTROL, down: false });
    r
}

/// The event bound to key code `vk`: that of the first binding with it.
pub open spec fn bound_event(keys: Seq<(u32, HotkeyEventView)>, vk: u32) -> Option<HotkeyEventView>
    decreases keys.len(),
{
    if keys.len() == 0 {
        None
    } else if keys[0].0 == vk {
        Some(keys[0].1)
    } else {
        bound_event(keys.drop_first(), vk)
    }
}

/// The position of the first `k` in `s`.
pub open spec fn first_key(s: Seq<Seq<char>>, k: Seq<char>) -> Option<nat>
    decreases s.len(),
{
    if s.len() == 0 {
        None
    } else if s[0] == k {
        Some(0)
    } else {
        match first_key(s.drop_first(), k) {
            Some(i) => Some(i + 1),
            None => None,
        }
    }
}

pub open spec fn fired_views(v: Seq<(String, u64)>) -> Seq<(Seq<char>, u64)> {
    v.map_values(|p: (String, u64)| (p.0@, p.1))
}

/// When the mapping hotkey `k` last fired, per a list of (key, time).
pub open spec fn last_fired(m: Seq<(Seq<char>, u64)>, k: Seq<char>) -> Option<u64> {
    match first_key(m.map_values(|p: (Seq<char>, u64)| p.0), k) {
        Some(i) => Some(m[i as int].1),
        None => None,
    }
}

proof fn lemma_first_key(s: Seq<Seq<char>>, k: Seq<char>)
    ensures
        first_key(s, k) matches Some(i) ==> i < s.len() && s[i as int] == k && forall|j: int|
            0 <= j < i ==> s[j] != k,
        first_key(s, k) is None ==> forall|j: int| 0 <= j < s.len() ==> s[j] != k,
    decreases s.len(),
{
    if s.len() > 0 && s[0] != k {
        lemma_first_key(s.drop_first(), k);
        assert forall|j: int| 1 <= j < s.len() implies s[j] == s.drop_first()[j - 1] by {};
    }
}

/// The first position of `k` is the one any list with the same keys has.
proof fn lemma_first_key_unique(s: Seq<Seq<char>>, k: Seq<char>, i: nat)
    requires
        i < s.len(),
        s[i as int] == k,
        forall|j: int| 0 <= j < i ==> s[j] != k,
    ensures
        first_key(s, k) == Some(i),
    decreases s.len(),
{
    if i > 0 {
        assert forall|j: int| 0 <= j < i - 1 implies s.drop_first()[j] != k by {
            assert(s.drop_first()[j] == s[j + 1]);
        };
        lemma_first_key_unique(s.drop_first(), k, (i - 1) as nat);
    }
}

proof fn lemma_first_key_absent(s: Seq<Seq<char>>, k: Seq<char>)
    requires
        forall|j: int| 0 <= j < s.len() ==> s[j] != k,
    ensures
        first_key(s, k) is None,
{
    lemma_first_key(s, k);
    if first_key(s, k) is Some {
        let i = first_key(s, k).unwrap();
        assert(s[i as int] == k);
    }
}

/// Which key codes fire which hotkeys, and when each last fired.
pub struct HotkeyState {
    pub keys: Vec<(u32, HotkeyEvent)>,
    pub last_main: Option<u64>,
    /// (mapping key, time it last fired), one entry per key.
    pub last_map: Vec<(String, u64)>,
}

/// What a key event does: the key is swallowed when it is bound, and a
/// hotkey fires on a press that the throttle lets through.
pub struct KeyOutcome {
    pub swallow: bool,
    pub fire: Option<HotkeyEvent>,
}

fn copy_event(e: &HotkeyEvent) -> (c: HotkeyEvent)
    ensures
        c@ == e@,
{
    match e {
        HotkeyEvent::Main => HotkeyEvent::Main,
        HotkeyEvent::Mapping(k) => HotkeyEvent::Mapping(k.clone()),
    }
}

impl HotkeyState {
    /// Watches `keys`; nothing has fired yet.
    pub fn new(keys: Vec<(u32, HotkeyEvent)>) -> (s: Self)
        ensures
            s.keys == keys,
            s.last_main is None,
            s.last_map@.len() == 0,
    {
        HotkeyState { keys, last_main: None, last_map: Vec::new() }
    }

    /// Replaces the watched keys; the firing times stay.
    pub fn set_keys(&mut self, keys: Vec<(u32, HotkeyEvent)>)
        ensures
            final(self).keys == keys,
            final(self).last_main == old(self).last_main,
            final(self).last_map == old(self).last_map,
    {
        self.keys = keys;
    }

    fn lookup(&self, vk: u32) -> (r: Option<HotkeyEvent>)
        ensures
            match r {
                Some(e) => bound_event(binding_views(self.keys@), vk) == Some(e@),
                None => bound_event(binding_views(self.keys@), vk) is None,
            },
    {
        let ghost all = binding_views(self.keys@);
        let mut i: usize = 0;
        assert(all.skip(0) =~= all);
        while i < self.keys.len()
            invariant
                i <= self.keys.len(),
                all == binding_views(self.keys@),
                bound_event(all, vk) == bound_event(all.skip(i as int), vk),
            decreases self.keys.len() - i,
        {
            assert(all.skip(i as int).drop_first() =~= all.skip(i + 1));
            if self.keys[i].0 == vk {
                return Some(copy_event(&self.keys[i].1));
            }
            i += 1;
        }
        None
    }

    fn fired_position(&self, k: &Vec<char>) -> (r: Option<usize>)
        ensures
            match r {
                Some(i) => first_key(fired_views(self.last_map@).map_values(
                    |p: (Seq<char>, u64)| p.0,
                ), k@) == Some(i as nat) && i < self.last_map@.len(),
                None => first_key(fired_views(self.last_map@).map_values(
                    |p: (Seq<char>, u64)| p.0,
                ), k@) is None,
            },
    {
        let ghost ks = fired_views(self.last_map@).map_values(|p: (Seq<char>, u64)| p.0);
        let mut i: usize = 0;
        while i < self.last_map.len()
            invariant
                i <= self.last_map.len(),
                ks == fired_views(self.last_map@).map_values(|p: (Seq<char>, u64)| p.0),
                ks.len() == self.last_map@.len(),
                forall|j: int| 0 <= j < i ==> ks[j] != k@,
            decreases self.last_map.len() - i,
        {
            assert(ks[i as int] == self.last_map@[i as int].0@);
            if eq_chars(&chars_of(self.last_map[i].0.as_str()), k) {
                proof {
                    lemma_first_key_unique(ks, k@, i as nat);
                }
                return Some(i);
            }
            i += 1;
        }
        proof {
            lemma_first_key_absent(ks, k@);
        }
        None
    }

    /// Records that mapping hotkey `k` fired at `now`.
    fn record_fired(&mut self, k: &String, now: u64)
        ensures
            last_fired(fired_views(final(self).last_map@), k@) == Some(now),
            forall|j: Seq<char>| j != k@ ==> last_fired(fired_views(final(self).last_map@), j)
                == last_fired(fired_views(old(self).last_map@), j),
            final(self).keys == old(self).keys,
            final(self).last_main == old(self).last_main,
    {
        let ghost old_m = fired_views(self.last_map@);
        let ghost old_ks = old_m.map_values(|p: (Seq<char>, u64)| p.0);
        let kc = chars_of(k.as_str());
        match self.fired_position(&kc) {
            Some(i) => {
                proof {
                    lemma_first_key(old_ks, k@);
                }
                let kk = k.clone();
                assert(kk@ == k@);
                self.last_map.set(i, (kk, now));
                let ghost new_m = fired_views(self.last_map@);
                let ghost new_ks = new_m.map_values(|p: (Seq<char>, u64)| p.0);
                assert forall|x: int| 0 <= x < new_ks.len() implies new_ks[x] == old_ks[x] by {
                    if x != i {
                        assert(self.last_map@[x] == old(self).last_map@[x]);
                    }
                };
                assert(new_ks =~= old_ks);
                assert(new_m[i as int].1 == now);
                assert forall|j: Seq<char>| j != k@ implies last_fired(new_m, j) == last_fired(
                    old_m,
                    j,
                ) by {
                    lemma_first_key(old_ks, j);
                    if first_key(old_ks, j) is Some {
                        let q = first_key(old_ks, j).unwrap();
                        assert(old_ks[q as int] == j);
                        assert(q != i);
                        assert(new_m[q as int] == old_m[q as int]);
                    }
                };
            },
            None => {
                self.last_map.push((k.clone(), now));
                let ghost new_m = fired_views(self.last_map@);
                let ghost new_ks = new_m.map_values(|p: (Seq<char>, u64)| p.0);
                assert(new_ks =~= old_ks.push(k@));
                proof {
                    lemma_first_key(old_ks, k@);
                    lemma_first_key_unique(new_ks, k@, old_ks.len());
                }
                assert forall|j: Seq<char>| j != k@ implies last_fired(new_m, j) == last_fired(
                    old_m,
                    j,
                ) by {
                    lemma_first_key(old_ks, j);
                    if first_key(old_ks, j) is Some {
                        let q = first_key(old_ks, j).unwrap();
                        assert forall|x: int| 0 <= x < q implies new_ks[x] != j by {
                            assert(new_ks[x] == old_ks[x]);
                        };
                        lemma_first_key_unique(new_ks, j, q);
                        assert(new_m[q as int] == old_m[q as int]);
                    } else {
                        assert forall|x: int| 0 <= x < new_ks.len() implies new_ks[x] != j by {
                            if x < old_ks.len() {
                                assert(new_ks[x] == old_ks[x]);
                            }
                        };
                        lemma_first_key_absent(new_ks, j);
                    }
                };
            },
        }
    }

    /// A key event: a bound key is swallowed on press and release; a press
    /// fires its hotkey when the hotkey's throttle allows, and the firing
    /// is recorded. An unbound key passes and changes nothing.
    pub fn on_key(&mut self, vk: u32, is_down: bool, now: u64) -> (r: KeyOutcome)
        ensures
            final(self).keys == old(self).keys,
            match bound_event(binding_views(old(self).keys@), vk) {
                None => !r.swallow && r.fire is None && final(self).last_main == old(self).last_main
                    && final(self).last_map == old(self).last_map,
                Some(ev) => r.swallow && if !is_down {
                    r.fire is None && final(self).last_main == old(self).last_main
                        && final(self).last_map == old(self).last_map
                } else {
                    match ev {
                        HotkeyEventView::Main => {
                            &&& final(self).last_map == old(self).last_map
                            &&& throttle_ok(old(self).last_main, now) ==> (r.fire matches Some(e)
                                && e@ == HotkeyEventView::Main && final(self).last_main == Some(now))
                            &&& !throttle_ok(old(self).last_main, now) ==> (r.fire is None
                                && final(self).last_main == old(self).last_main)
                        },
                        HotkeyEventView::Mapping(k) => {
                            let last = last_fired(fired_views(old(self).last_map@), k);
                            &&& final(self).last_main == old(self).last_main
                            &&& throttle_ok(last, now) ==> (r.fire matches Some(e) && e@
                                == HotkeyEventView::Mapping(k) && last_fired(
                                fired_views(final(self).last_map@),
                                k,
                            ) == Some(now) && forall|j: Seq<char>| j != k ==> last_fired(
                                fired_views(final(self).last_map@),
                                j,
                            ) == last_fired(fired_views(old(self).last_map@), j))
                            &&& !throttle_ok(last, now) ==> (r.fire is None
                                && final(self).last_map == old(self).last_map)
                        },
                    }
                },
            },
    {
        let ev = match self.lookup(vk) {
            Some(e) => e,
            None => {
                return KeyOutcome { swallow: false, fire: None };
            },
        };
        if !is_down {
            return KeyOutcome { swallow: true, fire: None };
        }
        match ev {
            HotkeyEvent::Main => {
                if throttle_allows(self.last_main, now) {
                    self.last_main = Some(now);
                    KeyOutcome { swallow: true, fire: Some(HotkeyEvent::Main) }
                } else {
                    KeyOutcome { swallow: true, fire: None }
                }
            },
            HotkeyEvent::Mapping(k) => {
                let kc = chars_of(k.as_str());
                let last = match self.fired_position(&kc) {
                    Some(i) => Some(self.last_map[i].1),
                    None => None,
                };
                if throttle_allows(last, now) {
                    self.record_fired(&k, now);
                    KeyOutcome { swallow: true, fire: Some(HotkeyEvent::Mapping(k)) }
                } else {
                    KeyOutcome { swallow: true, fire: None }
                }
            },
        }
    }
}

/// For ASCII key names: case does not matter, and a key code is always one
/// of F1..F12's, 0x70..0x7B.
pub proof fn lemma_vk_case(key: Seq<char>)
    requires
        all_ascii(key),
    ensures
        all_ascii(ascii_upper_all(key)),
        vk_of_upper(ascii_upper_all(ascii_upper_all(key))) == vk_of_upper(ascii_upper_all(key)),
        vk_of_upper(ascii_upper_all(key)) matches Some(v) ==> 0x70 <= v <= 0x7B,
{
    let u = ascii_upper_all(key);
    assert forall|i: int| 0 <= i < u.len() implies (u[i] as u32) < 128 by {
        assert((key[i] as u32) < 128);
    };
    assert(ascii_upper_all(u) =~= u) by {
        assert forall|i: int| 0 <= i < u.len() implies ascii_upper(u[i]) == u[i] by {
            let c = key[i];
            if 'a' <= c && c <= 'z' {
                assert(!('a' <= u[i] && u[i] <= 'z'));
            }
        };
    };
}

/// The decimal form of 1..12: ASCII digits, with no sign, whose value is
/// the number, unchanged by upper-casing.
proof fn lemma_small_decimal(n: nat)
    requires
        1 <= n <= 12,
    ensures
        decimal(n).len() > 0,
        decimal(n)[0] != '+',
        forall|i: int| 0 <= i < decimal(n).len() ==> is_digit(#[trigger] decimal(n)[i]),
        digits_value(decimal(n)) == n,
        all_ascii(decimal(n)),
        ascii_upper_all(decimal(n)) == decimal(n),
{
    let d = decimal(n);
    if n < 10 {
        assert(d == seq![digit_char(n)]);
        assert(d.drop_last() =~= Seq::<char>::empty());
        assert((digit_char(n) as nat) == 48 + n);
        assert(digits_value(d) == digits_value(d.drop_last()) * 10 + ((d.last() as nat) - 48) as nat);
    } else {
        assert(decimal(n / 10) == seq![digit_char(1)]);
        let e = (n - 10) as nat;
        assert(d =~= seq![digit_char(1), digit_char(e)]);
        assert(d.drop_last() =~= seq![digit_char(1)]);
        assert(d.drop_last().drop_last() =~= Seq::<char>::empty());
        assert((digit_char(1) as nat) == 49);
        assert((digit_char(e) as nat) == 48 + e);
        assert(digits_value(d.drop_last()) == digits_value(d.drop_last().drop_last()) * 10 + ((d.drop_last().last() as nat) - 48) as nat);
        assert(digits_value(d.drop_last()) == 1);
        assert(digits_value(d) == digits_value(d.drop_last()) * 10 + ((d.last() as nat) - 48) as nat);
    }
    assert(ascii_upper_all(d) =~= d);
}

/// The key names F1..F12, written in upper or lower case, have the key
/// codes 0x70..0x7B in order.
pub proof fn lemma_function_keys(n: nat)
    requires
        1 <= n <= 12,
    ensures
        all_ascii(seq!['F'] + decimal(n)),
        all_ascii(seq!['f'] + decimal(n)),
        vk_of_upper(ascii_upper_all(seq!['F'] + decimal(n))) == Some((0x6F + n) as u32),
        vk_of_upper(ascii_upper_all(seq!['f'] + decimal(n))) == Some((0x6F + n) as u32),
{
    let d = decimal(n);
    lemma_small_decimal(n);
    let big = seq!['F'] + d;
    let small = seq!['f'] + d;
    assert(ascii_upper('f') == 'F');
    assert(ascii_upper_all(big) =~= big);
    assert(ascii_upper_all(small) =~= big);
    assert(big.drop_first() =~= d);
    assert(unsigned_digits(d) == d);
    assert(parse_u32(d) == Some(n as u32));
}

/// Neither an empty key name nor "F0" nor "F13" has a key code.
pub proof fn lemma_not_function_keys()
    ensures
        vk_of_upper(ascii_upper_all(Seq::<char>::empty())) is None,
        vk_of_upper(ascii_upper_all(seq!['F', '0'])) is None,
        vk_of_upper(ascii_upper_all(seq!['F', '1', '3'])) is None,
{
    assert(ascii_upper_all(Seq::<char>::empty()) =~= Seq::<char>::empty());
    let f0 = seq!['F', '0'];
    let f13 = seq!['F', '1', '3'];
    assert(ascii_upper_all(f0) =~= f0);
    assert(ascii_upper_all(f13) =~= f13);
    assert(f0.drop_first() =~= seq!['0']);
    assert(seq!['0'].drop_last() =~= Seq::<char>::empty());
    assert(('0' as nat) == 48);
    assert(digits_value(seq!['0']) == digits_value(Seq::<char>::empty()) * 10 + (('0' as nat) - 48) as nat);
    assert(f13.drop_first() =~= seq!['1', '3']);
    assert(seq!['1', '3'].drop_last() =~= seq!['1']);
    assert(seq!['1'].drop_last() =~= Seq::<char>::empty());
    assert(('1' as nat) == 49 && ('3' as nat) == 51);
    assert(digits_value(seq!['1']) == digits_value(Seq::<char>::empty()) * 10 + (('1' as nat) - 48) as nat);
    assert(digits_value(seq!['1', '3']) == digits_value(seq!['1']) * 10 + (('3' as nat) - 48) as nat);
}

} // verus!
