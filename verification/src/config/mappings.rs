//! Hotkey mappings (`mappings.txt`): a `[KEY]` line opens a section, each
//! following line is one text for that key. Sections are kept sorted by key.

use vstd::prelude::*;
use crate::text::{
    append_all, chars_of, eq_chars, join, join_chars, split, strs_views, split_char, string_of, string_views, trim, trim_chars, uppercase,
    to_uppercase, subvec, views,
};

verus! {

/// The texts bound to one hotkey.
#[derive(Debug, Clone)]
pub struct Mapping {
    pub key: String,
    pub items: Vec<String>,
}

/// A mapping as plain values: the key and its texts.
pub open spec fn entry_view(m: Mapping) -> (Seq<char>, Seq<Seq<char>>) {
    (m.key@, string_views(m.items@))
}

pub open spec fn entry_views(v: Seq<Mapping>) -> Seq<(Seq<char>, Seq<Seq<char>>)> {
    v.map_values(|m: Mapping| entry_view(m))
}

/// Lexicographic order by character, the order of `String` keys in a
/// `BTreeMap`.
pub open spec fn lex_lt(a: Seq<char>, b: Seq<char>) -> bool
    decreases a.len(),
{
    if b.len() == 0 {
        false
    } else if a.len() == 0 {
        true
    } else if a[0] != b[0] {
        a[0] < b[0]
    } else {
        lex_lt(a.drop_first(), b.drop_first())
    }
}

/// Keys strictly increasing.
pub open spec fn sorted_keys(es: Seq<(Seq<char>, Seq<Seq<char>>)>) -> bool {
    forall|i: int, j: int| 0 <= i < j < es.len() ==> lex_lt(#[trigger] es[i].0, #[trigger] es[j].0)
}

/// `es` with an empty section for `key` added in order, unless it has one.
pub open spec fn upsert_key(es: Seq<(Seq<char>, Seq<Seq<char>>)>, key: Seq<char>) -> Seq<
    (Seq<char>, Seq<Seq<char>>),
>
    decreases es.len(),
{
    if es.len() == 0 {
        seq![(key, seq![])]
    } else if es[0].0 == key {
        es
    } else if lex_lt(key, es[0].0) {
        seq![(key, Seq::<Seq<char>>::empty())] + es
    } else {
        seq![es[0]] + upsert_key(es.drop_first(), key)
    }
}

/// `es` with `item` appended to the section for `key`, if there is one.
pub open spec fn push_item(es: Seq<(Seq<char>, Seq<Seq<char>>)>, key: Seq<char>, item: Seq<char>) -> Seq<
    (Seq<char>, Seq<Seq<char>>),
>
    decreases es.len(),
{
    if es.len() == 0 {
        es
    } else if es[0].0 == key {
        seq![(key, es[0].1.push(item))] + es.drop_first()
    } else {
        seq![es[0]] + push_item(es.drop_first(), key, item)
    }
}

/// The key of a `[KEY]` line: the text between the brackets, trimmed, in
/// upper case.
pub open spec fn header_key(line: Seq<char>) -> Seq<char> {
    uppercase(trim(line.subrange(1, line.len() - 1)))
}

pub open spec fn is_header(line: Seq<char>) -> bool {
    line.len() > 0 && line[0] == '[' && line.last() == ']'
}

/// One line of the file applied to the sections read so far and the
/// section being filled: blank lines and `#` comments are skipped.
pub open spec fn mapping_step(
    st: (Seq<(Seq<char>, Seq<Seq<char>>)>, Option<Seq<char>>),
    raw: Seq<char>,
) -> (Seq<(Seq<char>, Seq<Seq<char>>)>, Option<Seq<char>>) {
    let line = trim(raw);
    if line.len() == 0 || line[0] == '#' {
        st
    } else if is_header(line) {
        (upsert_key(st.0, header_key(line)), Some(header_key(line)))
    } else {
        match st.1 {
            Some(k) => (push_item(st.0, k, line), st.1),
            None => st,
        }
    }
}

pub open spec fn mapping_state(lines: Seq<Seq<char>>) -> (
    Seq<(Seq<char>, Seq<Seq<char>>)>,
    Option<Seq<char>>,
)
    decreases lines.len(),
{
    if lines.len() == 0 {
        (seq![], None)
    } else {
        mapping_step(mapping_state(lines.drop_last()), lines.last())
    }
}

/// The sections that hold at least one text.
pub open spec fn filled(es: Seq<(Seq<char>, Seq<Seq<char>>)>) -> Seq<(Seq<char>, Seq<Seq<char>>)>
    decreases es.len(),
{
    if es.len() == 0 {
        es
    } else if es.last().1.len() == 0 {
        filled(es.drop_last())
    } else {
        filled(es.drop_last()).push(es.last())
    }
}

/// The mappings used when the file gives none.
pub open spec fn default_entries() -> Seq<(Seq<char>, Seq<Seq<char>>)> {
    seq![("F2"@, seq!["懂车帝"@]), ("F3"@, seq!["易车"@]), ("F4"@, seq!["巨量引擎"@])]
}

/// The mappings a file holds, sorted by key; the defaults when it holds
/// none. Lines are the pieces between newlines: a carriage return before a
/// newline is whitespace and trimmed away, and an empty last piece is a
/// blank line, so this reads the file as `str::lines` does.
pub open spec fn parsed_mappings(content: Seq<char>) -> Seq<(Seq<char>, Seq<Seq<char>>)> {
    let es = filled(mapping_state(split(content, '\n')).0);
    if es.len() == 0 {
        default_entries()
    } else {
        es
    }
}

/// Whether `a` sorts before `b`.
pub fn lex_less(a: &Vec<char>, b: &Vec<char>) -> (r: bool)
    ensures
        r == lex_lt(a@, b@),
{
    let mut i: usize = 0;
    assert(a@.skip(0) =~= a@);
    assert(b@.skip(0) =~= b@);
    while i < a.len() && i < b.len()
        invariant
            i <= a.len(),
            i <= b.len(),
            lex_lt(a@, b@) == lex_lt(a@.skip(i as int), b@.skip(i as int)),
        decreases a.len() - i,
    {
        assert(a@.skip(i as int).drop_first() =~= a@.skip(i + 1));
        assert(b@.skip(i as int).drop_first() =~= b@.skip(i + 1));
        if a[i] != b[i] {
            return a[i] < b[i];
        }
        i += 1;
    }
    i < b.len()
}

/// Whether the keys of `ms` strictly increase, as the keys of a sorted map
/// do.
pub fn keys_in_order(ms: &Vec<Mapping>) -> (b: bool)
    ensures
        b == sorted_keys(entry_views(ms@)),
{
    let ghost es = entry_views(ms@);
    if ms.len() == 0 {
        return true;
    }
    let mut prev = mapping_key(&ms[0]);
    let mut k: usize = 1;
    while k < ms.len()
        invariant
            1 <= k <= ms.len(),
            es == entry_views(ms@),
            prev@ == es[k - 1].0,
            forall|i: int, j: int| 0 <= i < j < k ==> lex_lt(#[trigger] es[i].0, #[trigger] es[j].0),
        decreases ms.len() - k,
    {
        let cur = mapping_key(&ms[k]);
        if !lex_less(&prev, &cur) {
            assert(!lex_lt(es[k - 1].0, es[k as int].0));
            return false;
        }
        proof {
            assert forall|i: int, j: int| 0 <= i < j < k + 1 implies lex_lt(#[trigger] es[i].0, #[trigger] es[j].0) by {
                if j == k && i < k - 1 {
                    lemma_lex_transitive(es[i].0, es[k - 1].0, es[j].0);
                }
            };
        }
        prev = cur;
        k += 1;
    }
    true
}

fn mapping_key(m: &Mapping) -> (r: Vec<char>)
    ensures
        r@ == m.key@,
{
    chars_of(m.key.as_str())
}

proof fn lemma_entry_views_insert(v: Seq<Mapping>, i: int, m: Mapping)
    requires
        0 <= i <= v.len(),
    ensures
        entry_views(v.insert(i, m)) == entry_views(v).insert(i, entry_view(m)),
{
    assert(entry_views(v.insert(i, m)) =~= entry_views(v).insert(i, entry_view(m)));
}

proof fn lemma_entry_views_remove(v: Seq<Mapping>, i: int)
    requires
        0 <= i < v.len(),
    ensures
        entry_views(v.remove(i)) == entry_views(v).remove(i),
{
    assert(entry_views(v.remove(i)) =~= entry_views(v).remove(i));
}

fn upsert_key_exec(es: &mut Vec<Mapping>, key: &Vec<char>)
    ensures
        entry_views(final(es)@) == upsert_key(entry_views(old(es)@), key@),
{
    let ghost e = entry_views(es@);
    let mut i: usize = 0;
    assert(e.skip(0) =~= e);
    assert(e.take(0) + upsert_key(e.skip(0), key@) =~= upsert_key(e, key@));
    loop
        invariant
            i <= es.len(),
            e == entry_views(es@),
            e == entry_views(old(es)@),
            upsert_key(e, key@) == e.take(i as int) + upsert_key(e.skip(i as int), key@),
        decreases es.len() - i,
    {
        let ghost rest = e.skip(i as int);
        if i == es.len() {
            let m = Mapping { key: string_of(key), items: Vec::new() };
            proof {
                lemma_entry_views_insert(es@, i as int, m);
                assert(string_views(m.items@) =~= Seq::<Seq<char>>::empty());
                assert(e.take(i as int) + upsert_key(rest, key@) =~= e.insert(i as int, entry_view(m)));
            }
            es.insert(i, m);
            return;
        }
        let k = mapping_key(&es[i]);
        assert(k@ == rest[0].0);
        if eq_chars(&k, key) {
            assert(e.take(i as int) + rest =~= e);
            return;
        }
        if lex_less(key, &k) {
            let m = Mapping { key: string_of(key), items: Vec::new() };
            proof {
                lemma_entry_views_insert(es@, i as int, m);
                assert(string_views(m.items@) =~= Seq::<Seq<char>>::empty());
                assert(e.take(i as int) + upsert_key(rest, key@) =~= e.insert(i as int, entry_view(m)));
            }
            es.insert(i, m);
            return;
        }
        assert(rest.drop_first() =~= e.skip(i + 1));
        assert(e.take(i + 1) =~= e.take(i as int).push(rest[0]));
        assert(e.take(i as int) + (seq![rest[0]] + upsert_key(e.skip(i + 1), key@)) =~= e.take(i + 1)
            + upsert_key(e.skip(i + 1), key@));
        i += 1;
    }
}

fn push_item_exec(es: &mut Vec<Mapping>, key: &Vec<char>, item: String)
    ensures
        entry_views(final(es)@) == push_item(entry_views(old(es)@), key@, item@),
{
    let ghost e = entry_views(es@);
    let mut i: usize = 0;
    assert(e.skip(0) =~= e);
    assert(e.take(0) + push_item(e.skip(0), key@, item@) =~= push_item(e, key@, item@));
    while i < es.len()
        invariant
            i <= es.len(),
            e == entry_views(es@),
            e == entry_views(old(es)@),
            push_item(e, key@, item@) == e.take(i as int) + push_item(e.skip(i as int), key@, item@),
        decreases es.len() - i,
    {
        let ghost rest = e.skip(i as int);
        let k = mapping_key(&es[i]);
        assert(k@ == rest[0].0);
        if eq_chars(&k, key) {
            let mut m = es.remove(i);
            proof {
                lemma_entry_views_remove(old(es)@, i as int);
            }
            let ghost before = string_views(m.items@);
            m.items.push(item);
            assert(string_views(m.items@) =~= before.push(item@));
            proof {
                lemma_entry_views_insert(es@, i as int, m);
                assert(e.take(i as int) + push_item(rest, key@, item@) =~= e.remove(i as int).insert(
                    i as int,
                    entry_view(m),
                ));
            }
            es.insert(i, m);
            return;
        }
        assert(rest.drop_first() =~= e.skip(i + 1));
        assert(e.take(i as int) + (seq![rest[0]] + push_item(e.skip(i + 1), key@, item@)) =~= e.take(
            i + 1,
        ) + push_item(e.skip(i + 1), key@, item@));
        i += 1;
    }
    assert(e.take(i as int) + e.skip(i as int) =~= e);
}

/// The built-in mappings.
pub fn default_mappings() -> (r: Vec<Mapping>)
    ensures
        entry_views(r@) == default_entries(),
        sorted_keys(entry_views(r@)),
{
    proof {
        proof_default_sorted();
    }
    let mut r: Vec<Mapping> = Vec::new();
    let mut a: Vec<String> = Vec::new();
    a.push("懂车帝".to_string());
    r.push(Mapping { key: "F2".to_string(), items: a });
    let mut b: Vec<String> = Vec::new();
    b.push("易车".to_string());
    r.push(Mapping { key: "F3".to_string(), items: b });
    let mut c: Vec<String> = Vec::new();
    c.push("巨量引擎".to_string());
    r.push(Mapping { key: "F4".to_string(), items: c });
    assert(string_views(a@) =~= seq!["懂车帝"@]);
    assert(string_views(b@) =~= seq!["易车"@]);
    assert(string_views(c@) =~= seq!["巨量引擎"@]);
    assert(entry_views(r@) =~= default_entries());
    r
}

pub open spec fn opt_view(o: Option<Vec<char>>) -> Option<Seq<char>> {
    match o {
        Some(v) => Some(v@),
        None => None,
    }
}

/// The mappings in the text of a mapping file, sorted by key, with sections
/// that hold no text dropped; the built-in mappings when none is left.
pub fn parse_mappings(content: &str) -> (r: Vec<Mapping>)
    ensures
        entry_views(r@) == parsed_mappings(content@),
        sorted_keys(entry_views(r@)),
{
    proof {
        lemma_parsed_mappings_well_formed(content@);
    }
    let lines = split_char(&chars_of(content), '\n');
    let ghost ls = views(lines@);
    let mut es: Vec<Mapping> = Vec::new();
    let mut cur: Option<Vec<char>> = None;
    let mut k: usize = 0;
    assert(ls.take(0) =~= Seq::<Seq<char>>::empty());
    assert(entry_views(es@) =~= Seq::<(Seq<char>, Seq<Seq<char>>)>::empty());
    while k < lines.len()
        invariant
            k <= lines.len(),
            ls == views(lines@),
            ls == split(content@, '\n'),
            (entry_views(es@), opt_view(cur)) == mapping_state(ls.take(k as int)),
        decreases lines.len() - k,
    {
        assert(ls.take(k + 1).drop_last() =~= ls.take(k as int));
        assert(ls.take(k + 1).last() == lines@[k as int]@);
        let line = trim_chars(&lines[k]);
        if line.len() == 0 || line[0] == '#' {
        } else if line[0] == '[' && line[line.len() - 1] == ']' {
            let inner = trim_chars(&subvec(&line, 1, line.len() - 1));
            let key = to_uppercase(&inner);
            upsert_key_exec(&mut es, &key);
            cur = Some(key);
        } else {
            match &cur {
                Some(key) => {
                    push_item_exec(&mut es, key, string_of(&line));
                },
                None => {},
            }
        }
        k += 1;
    }
    assert(ls.take(k as int) =~= ls);
    let mut out: Vec<Mapping> = Vec::new();
    let ghost all = entry_views(es@);
    let mut j: usize = 0;
    assert(all.take(0) =~= Seq::<(Seq<char>, Seq<Seq<char>>)>::empty());
    assert(entry_views(out@) =~= Seq::<(Seq<char>, Seq<Seq<char>>)>::empty());
    while j < es.len()
        invariant
            j <= es.len(),
            all == entry_views(es@),
            entry_views(out@) == filled(all.take(j as int)),
        decreases es.len() - j,
    {
        assert(all.take(j + 1).drop_last() =~= all.take(j as int));
        if es[j].items.len() > 0 {
            let m = Mapping {
                key: es[j].key.clone(),
                items: crate::text::clone_strings(&es[j].items),
            };
            assert(entry_views(out@.push(m)) =~= entry_views(out@).push(entry_view(m)));
            out.push(m);
        }
        j += 1;
    }
    assert(all.take(j as int) =~= all);
    if out.len() == 0 {
        default_mappings()
    } else {
        out
    }
}

/// Comment lines at the top of a freshly written mapping file.
pub const MAPPING_FILE_HEADER: [&'static str; 5] = [
    "# 开饭了助手 - 快捷映射配置",
    "# [按键] 开始一个节点，节点下每行一条内容",
    "# 单条内容 -> 按热键直接粘贴；多条内容 -> 弹窗选择",
    "# F1 固定为生成名字，此处写 F1 会被忽略",
    "",
];

/// The lines that write out `es`: per section its `[KEY]` line, its texts
/// and a blank line.
pub open spec fn section_lines(es: Seq<(Seq<char>, Seq<Seq<char>>)>) -> Seq<Seq<char>>
    decreases es.len(),
{
    if es.len() == 0 {
        seq![]
    } else {
        section_lines(es.drop_last()) + seq![seq!['['] + es.last().0 + seq![']']] + es.last().1
            + seq![Seq::<char>::empty()]
    }
}

/// The text of a new mapping file holding the built-in mappings.
pub open spec fn default_mapping_text() -> Seq<char> {
    join(strs_views(MAPPING_FILE_HEADER@) + section_lines(default_entries()), "\n"@)
}

/// The text written to a new mapping file: the header comments, then the
/// built-in mappings.
pub fn default_mapping_file() -> (r: String)
    ensures
        r@ == default_mapping_text(),
{
    let mut lines: Vec<Vec<char>> = Vec::new();
    let mut h: usize = 0;
    while h < MAPPING_FILE_HEADER.len()
        invariant
            h <= MAPPING_FILE_HEADER@.len(),
            views(lines@) == strs_views(MAPPING_FILE_HEADER@).take(h as int),
        decreases MAPPING_FILE_HEADER@.len() - h,
    {
        let line = chars_of(MAPPING_FILE_HEADER[h]);
        assert(views(lines@.push(line)) =~= views(lines@).push(line@));
        lines.push(line);
        h += 1;
        assert(views(lines@) =~= strs_views(MAPPING_FILE_HEADER@).take(h as int));
    }
    assert(strs_views(MAPPING_FILE_HEADER@).take(h as int) =~= strs_views(MAPPING_FILE_HEADER@));
    let defaults = default_mappings();
    let ghost d = entry_views(defaults@);
    let mut k: usize = 0;
    assert(d.take(0) =~= Seq::<(Seq<char>, Seq<Seq<char>>)>::empty());
    assert(strs_views(MAPPING_FILE_HEADER@) + section_lines(d.take(0)) =~= strs_views(MAPPING_FILE_HEADER@));
    while k < defaults.len()
        invariant
            k <= defaults.len(),
            d == entry_views(defaults@),
            views(lines@) == strs_views(MAPPING_FILE_HEADER@) + section_lines(d.take(k as int)),
        decreases defaults.len() - k,
    {
        assert(d.take(k + 1).drop_last() =~= d.take(k as int));
        let ghost before = views(lines@);
        let mut header: Vec<char> = Vec::new();
        header.push('[');
        append_all(&mut header, &chars_of(defaults[k].key.as_str()));
        header.push(']');
        assert(views(lines@.push(header)) =~= views(lines@).push(header@));
        lines.push(header);
        assert(header@ =~= seq!['['] + d[k as int].0 + seq![']']);
        assert(d[k as int].1.take(0) =~= Seq::<Seq<char>>::empty());
        assert(views(lines@) =~= before + seq![seq!['['] + d[k as int].0 + seq![']']] + d[k as int].1.take(0));
        let mut i: usize = 0;
        while i < defaults[k].items.len()
            invariant
                k < defaults.len(),
                i <= defaults[k as int].items.len(),
                d == entry_views(defaults@),
                views(lines@) == before + seq![seq!['['] + d[k as int].0 + seq![']']] + d[k as int].1.take(
                    i as int,
                ),
            decreases defaults[k as int].items.len() - i,
        {
            let item = chars_of(defaults[k].items[i].as_str());
            assert(views(lines@.push(item)) =~= views(lines@).push(item@));
            lines.push(item);
            i += 1;
            assert(views(lines@) =~= before + seq![seq!['['] + d[k as int].0 + seq![']']]
                + d[k as int].1.take(i as int));
        }
        assert(d[k as int].1.take(i as int) =~= d[k as int].1);
        let blank: Vec<char> = Vec::new();
        assert(views(lines@.push(blank)) =~= views(lines@).push(blank@));
        lines.push(blank);
        k += 1;
        assert(views(lines@) =~= strs_views(MAPPING_FILE_HEADER@) + section_lines(d.take(k as int)));
    }
    assert(d.take(k as int) =~= d);
    string_of(&join_chars(&lines, &chars_of("\n")))
}

/// The texts of the first section for `key`.
pub open spec fn section_items(ms: Seq<Mapping>, key: Seq<char>) -> Option<Seq<String>>
    decreases ms.len(),
{
    if ms.len() == 0 {
        None
    } else if ms[0].key@ == key {
        Some(ms[0].items@)
    } else {
        section_items(ms.drop_first(), key)
    }
}

/// The texts bound to `key`, if it has a section.
pub fn mapping_items(mappings: &Vec<Mapping>, key: &str) -> (r: Option<Vec<String>>)
    ensures
        match r {
            Some(items) => section_items(mappings@, key@) == Some(items@),
            None => section_items(mappings@, key@) is None,
        },
{
    let target = chars_of(key);
    let mut i: usize = 0;
    assert(mappings@.skip(0) =~= mappings@);
    while i < mappings.len()
        invariant
            i <= mappings.len(),
            target@ == key@,
            section_items(mappings@, key@) == section_items(mappings@.skip(i as int), key@),
        decreases mappings.len() - i,
    {
        assert(mappings@.skip(i as int).drop_first() =~= mappings@.skip(i + 1));
        if eq_chars(&mapping_key(&mappings[i]), &target) {
            let items = crate::text::clone_strings(&mappings[i].items);
            return Some(items);
        }
        i += 1;
    }
    None
}

proof fn lemma_lex_irreflexive(a: Seq<char>)
    ensures
        !lex_lt(a, a),
    decreases a.len(),
{
    if a.len() > 0 {
        lemma_lex_irreflexive(a.drop_first());
    }
}

proof fn lemma_lex_transitive(a: Seq<char>, b: Seq<char>, c: Seq<char>)
    requires
        lex_lt(a, b),
        lex_lt(b, c),
    ensures
        lex_lt(a, c),
    decreases a.len(),
{
    if a.len() > 0 && b.len() > 0 && c.len() > 0 && a[0] == b[0] && b[0] == c[0] {
        lemma_lex_transitive(a.drop_first(), b.drop_first(), c.drop_first());
    }
}

proof fn lemma_lex_total(a: Seq<char>, b: Seq<char>)
    requires
        a != b,
    ensures
        lex_lt(a, b) || lex_lt(b, a),
    decreases a.len(),
{
    if a.len() > 0 && b.len() > 0 && a[0] == b[0] {
        if a.drop_first() == b.drop_first() {
            assert(a =~= seq![a[0]] + a.drop_first());
            assert(b =~= seq![b[0]] + b.drop_first());
        }
        lemma_lex_total(a.drop_first(), b.drop_first());
    } else if a.len() == 0 && b.len() == 0 {
        assert(a =~= b);
    }
}

/// Every key of `upsert_key(es, key)` is `key` or a key of `es`; sorted
/// sections stay sorted.
proof fn lemma_upsert_key(es: Seq<(Seq<char>, Seq<Seq<char>>)>, key: Seq<char>)
    requires
        sorted_keys(es),
    ensures
        sorted_keys(upsert_key(es, key)),
        forall|i: int|
            0 <= i < upsert_key(es, key).len() ==> #[trigger] upsert_key(es, key)[i].0 == key
                || exists|j: int| 0 <= j < es.len() && upsert_key(es, key)[i].0 == es[j].0,
    decreases es.len(),
{
    let u = upsert_key(es, key);
    if es.len() == 0 {
    } else if es[0].0 == key {
        assert forall|i: int| 0 <= i < u.len() implies #[trigger] u[i].0 == key || exists|j: int|
            0 <= j < es.len() && u[i].0 == es[j].0 by {
            assert(u[i].0 == es[i].0);
        };
    } else if lex_lt(key, es[0].0) {
        assert forall|i: int, j: int| 0 <= i < j < u.len() implies lex_lt(#[trigger] u[i].0, #[trigger] u[j].0) by {
            if i == 0 {
                if j > 1 {
                    lemma_lex_transitive(key, es[0].0, es[j - 1].0);
                }
            } else {
                assert(u[i] == es[i - 1]);
                assert(u[j] == es[j - 1]);
            }
        };
        assert forall|i: int| 0 <= i < u.len() implies #[trigger] u[i].0 == key || exists|j: int|
            0 <= j < es.len() && u[i].0 == es[j].0 by {
            if i > 0 {
                assert(u[i].0 == es[i - 1].0);
            }
        };
    } else {
        let rest = es.drop_first();
        assert(sorted_keys(rest)) by {
            assert forall|i: int, j: int| 0 <= i < j < rest.len() implies lex_lt(#[trigger] rest[i].0, #[trigger] rest[j].0) by {
                assert(rest[i] == es[i + 1]);
                assert(rest[j] == es[j + 1]);
            };
        };
        lemma_upsert_key(rest, key);
        lemma_lex_total(key, es[0].0);
        let t = upsert_key(rest, key);
        assert(u == seq![es[0]] + t);
        assert forall|i: int| 0 <= i < t.len() implies lex_lt(es[0].0, #[trigger] t[i].0) by {
            if t[i].0 == key {
            } else {
                let j = choose|j: int| 0 <= j < rest.len() && t[i].0 == rest[j].0;
                assert(rest[j] == es[j + 1]);
            }
        };
        assert forall|i: int, j: int| 0 <= i < j < u.len() implies lex_lt(#[trigger] u[i].0, #[trigger] u[j].0) by {
            if i == 0 {
                assert(u[j] == t[j - 1]);
            } else {
                assert(u[i] == t[i - 1]);
                assert(u[j] == t[j - 1]);
            }
        };
        assert forall|i: int| 0 <= i < u.len() implies #[trigger] u[i].0 == key || exists|j: int|
            0 <= j < es.len() && u[i].0 == es[j].0 by {
            if i == 0 {
                assert(u[0].0 == es[0].0);
            } else {
                assert(u[i] == t[i - 1]);
                if t[i - 1].0 != key {
                    let j = choose|j: int| 0 <= j < rest.len() && t[i - 1].0 == rest[j].0;
                    assert(rest[j] == es[j + 1]);
                }
            }
        };
    }
}

/// Adding a text to a section leaves the keys as they were.
proof fn lemma_push_item_keys(es: Seq<(Seq<char>, Seq<Seq<char>>)>, key: Seq<char>, item: Seq<char>)
    ensures
        push_item(es, key, item).len() == es.len(),
        forall|i: int| 0 <= i < es.len() ==> #[trigger] push_item(es, key, item)[i].0 == es[i].0,
    decreases es.len(),
{
    if es.len() > 0 && es[0].0 != key {
        lemma_push_item_keys(es.drop_first(), key, item);
        let t = push_item(es.drop_first(), key, item);
        assert forall|i: int| 0 <= i < es.len() implies #[trigger] push_item(es, key, item)[i].0 == es[i].0 by {
            if i > 0 {
                assert(push_item(es, key, item)[i] == t[i - 1]);
            }
        };
    }
}

proof fn lemma_state_sorted(lines: Seq<Seq<char>>)
    ensures
        sorted_keys(mapping_state(lines).0),
    decreases lines.len(),
{
    if lines.len() > 0 {
        lemma_state_sorted(lines.drop_last());
        let st = mapping_state(lines.drop_last());
        let line = trim(lines.last());
        if line.len() == 0 || line[0] == '#' {
        } else if is_header(line) {
            lemma_upsert_key(st.0, header_key(line));
        } else if let Some(k) = st.1 {
            lemma_push_item_keys(st.0, k, line);
            let p = push_item(st.0, k, line);
            assert forall|i: int, j: int| 0 <= i < j < p.len() implies lex_lt(#[trigger] p[i].0, #[trigger] p[j].0) by {
                assert(p[i].0 == st.0[i].0);
                assert(p[j].0 == st.0[j].0);
            };
        }
    }
}

/// The sections of `filled(es)` all hold texts, and each has the key of a
/// section of `es`; sorted sections stay sorted.
proof fn lemma_filled(es: Seq<(Seq<char>, Seq<Seq<char>>)>)
    requires
        sorted_keys(es),
    ensures
        sorted_keys(filled(es)),
        forall|i: int| 0 <= i < filled(es).len() ==> #[trigger] filled(es)[i].1.len() > 0,
        forall|i: int|
            0 <= i < filled(es).len() ==> exists|j: int|
                0 <= j < es.len() && #[trigger] filled(es)[i].0 == es[j].0,
    decreases es.len(),
{
    if es.len() > 0 {
        let init = es.drop_last();
        assert(sorted_keys(init)) by {
            assert forall|i: int, j: int| 0 <= i < j < init.len() implies lex_lt(#[trigger] init[i].0, #[trigger] init[j].0) by {
                assert(init[i] == es[i]);
                assert(init[j] == es[j]);
            };
        };
        lemma_filled(init);
        let f = filled(init);
        assert forall|i: int| 0 <= i < f.len() implies exists|j: int|
            0 <= j < es.len() && #[trigger] f[i].0 == es[j].0 by {
            let j = choose|j: int| 0 <= j < init.len() && f[i].0 == init[j].0;
            assert(init[j] == es[j]);
        };
        if es.last().1.len() > 0 {
            let g = f.push(es.last());
            assert forall|i: int| 0 <= i < f.len() implies lex_lt(#[trigger] f[i].0, es.last().0) by {
                let j = choose|j: int| 0 <= j < init.len() && f[i].0 == init[j].0;
                assert(init[j] == es[j]);
            };
            assert forall|i: int, j: int| 0 <= i < j < g.len() implies lex_lt(#[trigger] g[i].0, #[trigger] g[j].0) by {
                assert(g[i] == f[i]);
                if j < f.len() {
                    assert(g[j] == f[j]);
                }
            };
            assert forall|i: int| 0 <= i < g.len() implies #[trigger] g[i].1.len() > 0 by {
                if i < f.len() {
                    assert(g[i] == f[i]);
                }
            };
            assert forall|i: int| 0 <= i < g.len() implies exists|j: int|
                0 <= j < es.len() && #[trigger] g[i].0 == es[j].0 by {
                if i < f.len() {
                    assert(g[i] == f[i]);
                    let j = choose|j: int| 0 <= j < es.len() && f[i].0 == es[j].0;
                } else {
                    assert(g[i].0 == es[es.len() - 1].0);
                }
            };
        }
    }
}

/// The mappings read from any file are sorted by key with no key twice,
/// every section holds at least one text, and there is at least one
/// section (the built-in ones when the file gives none).
pub proof fn lemma_parsed_mappings_well_formed(content: Seq<char>)
    ensures
        sorted_keys(parsed_mappings(content)),
        parsed_mappings(content).len() > 0,
        forall|i: int| 0 <= i < parsed_mappings(content).len() ==> #[trigger] parsed_mappings(content)[i].1.len() > 0,
{
    let lines = split(content, '\n');
    lemma_state_sorted(lines);
    lemma_filled(mapping_state(lines).0);
    let es = filled(mapping_state(lines).0);
    if es.len() == 0 {
        let d = default_entries();
        proof_default_sorted();
        assert forall|i: int| 0 <= i < d.len() implies #[trigger] d[i].1.len() > 0 by {
            reveal_strlit("懂车帝");
            reveal_strlit("易车");
            reveal_strlit("巨量引擎");
        };
    }
}

proof fn proof_default_sorted()
    ensures
        sorted_keys(default_entries()),
{
    reveal_strlit("F2");
    reveal_strlit("F3");
    reveal_strlit("F4");
    reveal_with_fuel(lex_lt, 3);
    assert("F2"@.drop_first() =~= seq!['2']);
    assert("F3"@.drop_first() =~= seq!['3']);
    assert("F4"@.drop_first() =~= seq!['4']);
    assert(lex_lt("F2"@, "F3"@));
    assert(lex_lt("F3"@, "F4"@));
    assert(lex_lt("F2"@, "F4"@));
}

} // verus!
